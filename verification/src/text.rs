//! Text as sequences of characters: the few operations on strings that the
//! rest of the crate is built from, each with an exact meaning.
use vstd::prelude::*;
use vstd::utf8::{decode_utf8, valid_utf8};
use vstd::string::*;

verus! {

broadcast use vstd::string::group_string_axioms;

// -- what the standard library does --

/// `String::push`: appends one character.
pub assume_specification[ String::push ](s: &mut String, ch: char)
    ensures
        final(s)@ == old(s)@.push(ch),
;

/// `String::pop`: takes the last character off, if there is one.
pub assume_specification[ String::pop ](s: &mut String) -> (r: Option<char>)
    ensures
        old(s)@.len() == 0 ==> r is None && final(s)@ == old(s)@,
        old(s)@.len() > 0 ==> r == Some(old(s)@.last()) && final(s)@ == old(s)@.drop_last(),
;

/// What `str::to_lowercase` makes of a text.
pub uninterp spec fn lowercased(s: Seq<char>) -> Seq<char>;

/// `str::to_lowercase`: the lowercase equivalent by Unicode's tables, which
/// depends on the text alone. Where there is no text, nothing comes out.
#[verifier::external_body]
pub(crate) fn lowercase(s: &str) -> (r: String)
    ensures
        r@ == lowercased(s@),
        s@.len() == 0 ==> r@.len() == 0,
{
    s.to_lowercase()
}

/// What `String::from_utf8_lossy` makes of some bytes.
pub uninterp spec fn decoded(bytes: Seq<u8>) -> Seq<char>;

/// `String::from_utf8_lossy`: the bytes as text, with a replacement character
/// for what is not UTF-8. It depends on the bytes alone, and bytes that are
/// UTF-8 come out as the text that they encode.
#[verifier::external_body]
pub(crate) fn decode(bytes: &[u8]) -> (r: String)
    ensures
        r@ == decoded(bytes@),
        valid_utf8(bytes@) ==> r@ == decode_utf8(bytes@),
{
    String::from_utf8_lossy(bytes).into_owned()
}

/// An outcome with its error as text.
pub open spec fn told<T>(r: Result<T, String>) -> Result<T, Seq<char>> {
    match r {
        Ok(x) => Ok(x),
        Err(e) => Err(e@),
    }
}

/// An outcome that is a text, or an error, as text.
pub open spec fn told_text(r: Result<String, String>) -> Result<Seq<char>, Seq<char>> {
    match r {
        Ok(s) => Ok(s@),
        Err(e) => Err(e@),
    }
}

// -- characters --

/// Unicode's `White_Space` property.
pub open spec fn white(c: char) -> bool {
    ||| '\u{9}' <= c <= '\u{d}'
    ||| c == ' '
    ||| c == '\u{85}'
    ||| c == '\u{a0}'
    ||| c == '\u{1680}'
    ||| '\u{2000}' <= c <= '\u{200a}'
    ||| c == '\u{2028}'
    ||| c == '\u{2029}'
    ||| c == '\u{202f}'
    ||| c == '\u{205f}'
    ||| c == '\u{3000}'
}

pub fn is_white(c: char) -> (r: bool)
    ensures
        r == white(c),
{
    let u: u32 = c as u32;
    (0x9 <= u && u <= 0xd) || u == 0x20 || u == 0x85 || u == 0xa0 || u == 0x1680
        || (0x2000 <= u && u <= 0x200a) || u == 0x2028 || u == 0x2029 || u == 0x202f
        || u == 0x205f || u == 0x3000
}

/// Unicode's general category `Cc`.
pub open spec fn control(c: char) -> bool {
    c <= '\u{1f}' || '\u{7f}' <= c <= '\u{9f}'
}

pub fn is_control(c: char) -> (r: bool)
    ensures
        r == control(c),
{
    let u: u32 = c as u32;
    u <= 0x1f || (0x7f <= u && u <= 0x9f)
}

// -- characters and strings --

pub fn chars_of(s: &str) -> (r: Vec<char>)
    ensures
        r@ == s@,
{
    let mut v: Vec<char> = Vec::new();
    for c in it: s.chars()
        invariant
            it.seq() == s@,
            v@ == s@.take(it.index() as int),
    {
        v.push(c);
    }
    v
}

pub fn string_of(v: &Vec<char>, from: usize, to: usize) -> (r: String)
    requires
        from <= to <= v.len(),
    ensures
        r@ == v@.subrange(from as int, to as int),
{
    let mut s = String::new();
    for i in from..to
        invariant
            from <= to <= v.len(),
            s@ == v@.subrange(from as int, i as int),
    {
        s.push(v[i]);
    }
    s
}

pub fn cat2(a: &str, b: &str) -> (r: String)
    ensures
        r@ == a@ + b@,
{
    let mut s = a.to_owned();
    s.append(b);
    s
}

pub fn cat3(a: &str, b: &str, c: &str) -> (r: String)
    ensures
        r@ == a@ + b@ + c@,
{
    let mut s = cat2(a, b);
    s.append(c);
    s
}

pub fn cat4(a: &str, b: &str, c: &str, d: &str) -> (r: String)
    ensures
        r@ == a@ + b@ + c@ + d@,
{
    let mut s = cat3(a, b, c);
    s.append(d);
    s
}

pub fn cat5(a: &str, b: &str, c: &str, d: &str, e: &str) -> (r: String)
    ensures
        r@ == a@ + b@ + c@ + d@ + e@,
{
    let mut s = cat4(a, b, c, d);
    s.append(e);
    s
}

// -- comparing and searching --

pub fn same(a: &str, b: &str) -> (r: bool)
    ensures
        r == (a@ == b@),
{
    a.to_owned() == b.to_owned()
}

/// `p` stands in `s` at `i`.
pub open spec fn stands_at(s: Seq<char>, p: Seq<char>, i: int) -> bool {
    0 <= i && i + p.len() <= s.len() && s.subrange(i, i + p.len()) == p
}

pub open spec fn begins(s: Seq<char>, p: Seq<char>) -> bool {
    stands_at(s, p, 0)
}

pub open spec fn ends(s: Seq<char>, p: Seq<char>) -> bool {
    stands_at(s, p, s.len() - p.len())
}

pub open spec fn holds(s: Seq<char>, p: Seq<char>) -> bool {
    exists|i: int| stands_at(s, p, i)
}

fn found_at(s: &Vec<char>, p: &Vec<char>, i: usize) -> (r: bool)
    ensures
        r == stands_at(s@, p@, i as int),
{
    if i > s.len() || p.len() > s.len() - i {
        return false;
    }
    for k in 0..p.len()
        invariant
            i + p.len() <= s.len(),
            forall|j: int| 0 <= j < k ==> s@[i + j] == p@[j],
    {
        if s[i + k] != p[k] {
            assert(s@.subrange(i as int, i + p.len())[k as int] != p@[k as int]);
            return false;
        }
    }
    assert(s@.subrange(i as int, i + p.len()) =~= p@);
    true
}

pub fn starts_with(s: &str, p: &str) -> (r: bool)
    ensures
        r == begins(s@, p@),
{
    found_at(&chars_of(s), &chars_of(p), 0)
}

pub fn ends_with(s: &str, p: &str) -> (r: bool)
    ensures
        r == ends(s@, p@),
{
    let (v, q) = (chars_of(s), chars_of(p));
    q.len() <= v.len() && found_at(&v, &q, v.len() - q.len())
}

pub fn contains(s: &str, p: &str) -> (r: bool)
    ensures
        r == holds(s@, p@),
{
    let (v, q) = (chars_of(s), chars_of(p));
    if q.len() > v.len() {
        return false;
    }
    let last: usize = v.len() - q.len();
    let mut i: usize = 0;
    while !found_at(&v, &q, i)
        invariant
            v@ == s@,
            q@ == p@,
            last == v.len() - q.len(),
            i <= last,
            forall|j: int| 0 <= j < i ==> !stands_at(s@, p@, j),
        decreases last - i,
    {
        if i == last {
            return false;
        }
        i = i + 1;
    }
    true
}

/// What follows the prefix, where the text begins with it.
pub fn strip_prefix(s: &str, p: &str) -> (r: Option<String>)
    ensures
        begins(s@, p@) ==> r.deep_view() == Some(s@.skip(p@.len() as int)),
        !begins(s@, p@) ==> r is None,
{
    let (v, q) = (chars_of(s), chars_of(p));
    if found_at(&v, &q, 0) {
        let rest = string_of(&v, q.len(), v.len());
        assert(rest@ =~= s@.skip(p@.len() as int));
        Some(rest)
    } else {
        None
    }
}

/// The first place of `c` in `s` from `from` on; the length where there is none.
pub open spec fn first(s: Seq<char>, c: char, from: int) -> int
    decreases s.len() - from,
{
    if from >= s.len() {
        s.len() as int
    } else if s[from] == c {
        from
    } else {
        first(s, c, from + 1)
    }
}

pub proof fn lemma_first(s: Seq<char>, c: char, from: int)
    requires
        0 <= from <= s.len(),
    ensures
        from <= first(s, c, from) <= s.len(),
        forall|i: int| from <= i < first(s, c, from) ==> s[i] != c,
        first(s, c, from) < s.len() ==> s[first(s, c, from)] == c,
    decreases s.len() - from,
{
    if from < s.len() && s[from] != c {
        lemma_first(s, c, from + 1);
    }
}

pub proof fn lemma_first_is(s: Seq<char>, c: char, from: int, at: int)
    requires
        0 <= from <= at <= s.len(),
        forall|i: int| from <= i < at ==> s[i] != c,
        at < s.len() ==> s[at] == c,
    ensures
        first(s, c, from) == at,
{
    lemma_first(s, c, from);
    let f = first(s, c, from);
    if f < at {
        assert(s[f] == c);
    }
}

pub(crate) fn find_char(v: &Vec<char>, c: char, from: usize) -> (r: usize)
    requires
        from <= v.len(),
    ensures
        r == first(v@, c, from as int),
        from <= r <= v.len(),
{
    let mut i: usize = from;
    while i < v.len() && v[i] != c
        invariant
            from <= i <= v.len(),
            first(v@, c, from as int) == first(v@, c, i as int),
        decreases v.len() - i,
    {
        i = i + 1;
    }
    i
}

/// The text before the first `c`: all of it where there is none.
pub open spec fn before(s: Seq<char>, c: char) -> Seq<char> {
    s.take(first(s, c, 0))
}

pub fn until(s: &str, c: char) -> (r: String)
    ensures
        r@ == before(s@, c),
{
    let v = chars_of(s);
    let n: usize = find_char(&v, c, 0);
    let r = string_of(&v, 0, n);
    assert(r@ =~= before(s@, c));
    r
}

// -- order --

/// `a` stands before `b` in the order of code points, character by character.
pub open spec fn precedes(a: Seq<char>, b: Seq<char>) -> bool
    decreases a.len(),
{
    if b.len() == 0 {
        false
    } else if a.len() == 0 {
        true
    } else if a[0] != b[0] {
        a[0] < b[0]
    } else {
        precedes(a.drop_first(), b.drop_first())
    }
}

pub fn is_before(a: &str, b: &str) -> (r: bool)
    ensures
        r == precedes(a@, b@),
{
    let (v, w) = (chars_of(a), chars_of(b));
    let mut i: usize = 0;
    assert(v@.skip(0) =~= v@ && w@.skip(0) =~= w@);
    while i < v.len() && i < w.len() && v[i] == w[i]
        invariant
            i <= v.len(),
            i <= w.len(),
            precedes(v@.skip(i as int), w@.skip(i as int)) == precedes(v@, w@),
        decreases v.len() - i,
    {
        assert(v@.skip(i as int).drop_first() =~= v@.skip(i + 1));
        assert(w@.skip(i as int).drop_first() =~= w@.skip(i + 1));
        i = i + 1;
    }
    if i == w.len() {
        false
    } else if i == v.len() {
        true
    } else {
        v[i] < w[i]
    }
}

/// The order is strict and total.
pub proof fn lemma_order(a: Seq<char>, b: Seq<char>)
    ensures
        !(precedes(a, b) && precedes(b, a)),
        a == b || precedes(a, b) || precedes(b, a),
        !precedes(a, a),
    decreases a.len(),
{
    if a.len() > 0 {
        if b.len() > 0 {
            lemma_order(a.drop_first(), b.drop_first());
            if a[0] == b[0] && a.drop_first() == b.drop_first() {
                assert(a =~= seq![a[0]] + a.drop_first());
                assert(b =~= seq![b[0]] + b.drop_first());
            }
        } else {
            lemma_order(a.drop_first(), a.drop_first());
        }
    } else if b.len() == 0 {
        assert(a =~= b);
    }
}

pub proof fn lemma_order_chain(a: Seq<char>, b: Seq<char>, c: Seq<char>)
    requires
        precedes(a, b),
        precedes(b, c),
    ensures
        precedes(a, c),
    decreases a.len(),
{
    if a.len() > 0 && a[0] == b[0] && b[0] == c[0] {
        lemma_order_chain(a.drop_first(), b.drop_first(), c.drop_first());
    }
}

// -- trimming --

pub open spec fn trimmed_start(s: Seq<char>) -> Seq<char>
    decreases s.len(),
{
    if s.len() > 0 && white(s[0]) {
        trimmed_start(s.drop_first())
    } else {
        s
    }
}

pub open spec fn trimmed_end(s: Seq<char>) -> Seq<char>
    decreases s.len(),
{
    if s.len() > 0 && white(s.last()) {
        trimmed_end(s.drop_last())
    } else {
        s
    }
}

pub open spec fn trimmed(s: Seq<char>) -> Seq<char> {
    trimmed_end(trimmed_start(s))
}

pub fn trim_start(s: &str) -> (r: String)
    ensures
        r@ == trimmed_start(s@),
{
    let v = chars_of(s);
    let mut i: usize = 0;
    assert(v@.skip(0) =~= v@);
    while i < v.len() && is_white(v[i])
        invariant
            i <= v.len(),
            trimmed_start(v@.skip(i as int)) == trimmed_start(v@),
        decreases v.len() - i,
    {
        assert(v@.skip(i as int).drop_first() =~= v@.skip(i + 1));
        i = i + 1;
    }
    let r = string_of(&v, i, v.len());
    assert(r@ =~= v@.skip(i as int));
    r
}

pub fn trim_end(s: &str) -> (r: String)
    ensures
        r@ == trimmed_end(s@),
{
    let v = chars_of(s);
    let mut n: usize = v.len();
    assert(v@.take(n as int) =~= v@);
    while n > 0 && is_white(v[n - 1])
        invariant
            n <= v.len(),
            trimmed_end(v@.take(n as int)) == trimmed_end(v@),
        decreases n,
    {
        assert(v@.take(n as int).drop_last() =~= v@.take(n - 1));
        n = n - 1;
    }
    let r = string_of(&v, 0, n);
    assert(r@ =~= v@.take(n as int));
    r
}

pub fn trim(s: &str) -> (r: String)
    ensures
        r@ == trimmed(s@),
{
    let t = trim_start(s);
    trim_end(t.as_str())
}

// -- lines, parts, joins --

pub open spec fn chomped(l: Seq<char>) -> Seq<char> {
    if l.len() > 0 && l.last() == '\r' {
        l.drop_last()
    } else {
        l
    }
}

/// The lines of a text: each ends at a line feed, or at a carriage return and a
/// line feed; the last may end with the text.
pub open spec fn lines(s: Seq<char>) -> Seq<Seq<char>>
    decreases s.len(),
    via lines_decreases
{
    if s.len() == 0 {
        Seq::empty()
    } else {
        let n = first(s, '\n', 0);
        if n < s.len() {
            seq![chomped(s.take(n))] + lines(s.skip(n + 1))
        } else {
            seq![s]
        }
    }
}

#[via_fn]
proof fn lines_decreases(s: Seq<char>) {
    lemma_first(s, '\n', 0);
}

pub fn lines_of(s: &str) -> (r: Vec<String>)
    ensures
        r.deep_view() == lines(s@),
{
    let v = chars_of(s);
    let mut out: Vec<String> = Vec::new();
    let mut at: usize = 0;
    assert(v@.skip(0) =~= v@);
    assert(out.deep_view() + lines(v@.skip(0)) =~= lines(v@));
    while at < v.len()
        invariant
            at <= v.len(),
            out.deep_view() + lines(v@.skip(at as int)) == lines(v@),
        decreases v.len() - at,
    {
        let n: usize = find_char(&v, '\n', at);
        let ghost rest = v@.skip(at as int);
        let ghost was = out.deep_view();
        proof {
            lemma_first(v@, '\n', at as int);
            assert forall|i: int| 0 <= i < n - at implies rest[i] != '\n' by {
                assert(rest[i] == v@[at + i]);
            }
            lemma_first_is(rest, '\n', 0, n - at);
        }
        if n < v.len() {
            let end: usize = if n > at && v[n - 1] == '\r' { n - 1 } else { n };
            let l = string_of(&v, at, end);
            assert(l@ =~= chomped(rest.take(n - at)));
            out.push(l);
            assert(out.deep_view() =~= was.push(l@));
            assert(rest.skip(n - at + 1) =~= v@.skip(n + 1));
            assert(was.push(l@) + lines(v@.skip(n + 1)) =~= was + (seq![l@] + lines(v@.skip(n + 1))));
            at = n + 1;
        } else {
            let l = string_of(&v, at, n);
            assert(l@ =~= rest);
            out.push(l);
            assert(out.deep_view() =~= was.push(l@));
            assert(was.push(l@) + Seq::<Seq<char>>::empty() =~= was + seq![rest]);
            at = n;
            assert(v@.skip(at as int) =~= Seq::<char>::empty());
        }
    }
    assert(v@.skip(at as int) =~= Seq::<char>::empty());
    assert(out.deep_view() =~= lines(v@));
    out
}

/// Lines put together again, a line feed after each.
pub open spec fn unlines(ls: Seq<Seq<char>>) -> Seq<char>
    decreases ls.len(),
{
    if ls.len() == 0 {
        Seq::empty()
    } else {
        ls[0].push('\n') + unlines(ls.drop_first())
    }
}

pub fn unlines_of(ls: &Vec<String>) -> (r: String)
    ensures
        r@ == unlines(ls.deep_view()),
{
    let mut s = String::new();
    let ghost all = ls.deep_view();
    assert(all.skip(0) =~= all);
    assert(s@ + unlines(all) =~= unlines(all));
    for i in 0..ls.len()
        invariant
            all == ls.deep_view(),
            s@ + unlines(all.skip(i as int)) == unlines(all),
    {
        let ghost was = s@;
        s.append(ls[i].as_str());
        s.push('\n');
        assert(all.skip(i as int).drop_first() =~= all.skip(i + 1));
        assert(s@ + unlines(all.skip(i + 1)) =~= was + (all[i as int].push('\n') + unlines(
            all.skip(i + 1),
        )));
    }
    assert(s@ =~= s@ + unlines(all.skip(ls.len() as int)));
    s
}

/// The parts of a text between the separators: one more than there are of them.
pub open spec fn split(s: Seq<char>, c: char) -> Seq<Seq<char>>
    decreases s.len(),
    via split_decreases
{
    let n = first(s, c, 0);
    if n < s.len() {
        seq![s.take(n)] + split(s.skip(n + 1), c)
    } else {
        seq![s]
    }
}

#[via_fn]
proof fn split_decreases(s: Seq<char>, c: char) {
    lemma_first(s, c, 0);
}

pub fn split_of(s: &str, c: char) -> (r: Vec<String>)
    ensures
        r.deep_view() == split(s@, c),
        r.len() > 0,
{
    let v = chars_of(s);
    let mut out: Vec<String> = Vec::new();
    let mut at: usize = 0;
    assert(v@.skip(0) =~= v@);
    assert(out.deep_view() + split(v@.skip(0), c) =~= split(v@, c));
    loop
        invariant
            v@ == s@,
            at <= v.len(),
            out.deep_view() + split(v@.skip(at as int), c) == split(v@, c),
        decreases v.len() - at,
    {
        let n: usize = find_char(&v, c, at);
        let ghost rest = v@.skip(at as int);
        let ghost was = out.deep_view();
        proof {
            lemma_first(v@, c, at as int);
            assert forall|i: int| 0 <= i < n - at implies rest[i] != c by {
                assert(rest[i] == v@[at + i]);
            }
            lemma_first_is(rest, c, 0, n - at);
        }
        let l = string_of(&v, at, n);
        out.push(l);
        assert(out.deep_view() =~= was.push(l@));
        if n == v.len() {
            assert(l@ =~= rest);
            assert(was + seq![rest] =~= was.push(rest));
            return out;
        }
        assert(l@ =~= rest.take(n - at));
        assert(rest.skip(n - at + 1) =~= v@.skip(n + 1));
        assert(was.push(l@) + split(v@.skip(n + 1), c) =~= was + (seq![l@] + split(
            v@.skip(n + 1),
            c,
        )));
        at = n + 1;
    }
}

pub open spec fn joined(parts: Seq<Seq<char>>, sep: Seq<char>) -> Seq<char>
    decreases parts.len(),
{
    if parts.len() == 0 {
        Seq::empty()
    } else if parts.len() == 1 {
        parts[0]
    } else {
        joined(parts.drop_last(), sep) + sep + parts.last()
    }
}

pub fn join(parts: &Vec<String>, sep: &str) -> (r: String)
    ensures
        r@ == joined(parts.deep_view(), sep@),
{
    let mut s = String::new();
    let ghost all = parts.deep_view();
    for i in 0..parts.len()
        invariant
            all == parts.deep_view(),
            s@ == joined(all.take(i as int), sep@),
    {
        assert(all.take(i + 1).drop_last() =~= all.take(i as int));
        if i > 0 {
            s.append(sep);
            s.append(parts[i].as_str());
        } else {
            s = parts[i].clone();
        }
    }
    assert(all.take(parts.len() as int) =~= all);
    s
}

/// The text without the places where `p` stands, taken from the left.
pub open spec fn without(s: Seq<char>, p: Seq<char>) -> Seq<char>
    decreases s.len(),
{
    if s.len() == 0 || p.len() == 0 {
        s
    } else if begins(s, p) {
        without(s.skip(p.len() as int), p)
    } else {
        seq![s[0]] + without(s.drop_first(), p)
    }
}

pub fn remove(s: &str, p: &str) -> (r: String)
    ensures
        r@ == without(s@, p@),
{
    if p.is_empty() {
        return s.to_owned();
    }
    let (v, q) = (chars_of(s), chars_of(p));
    let mut out = String::new();
    let mut at: usize = 0;
    assert(v@.skip(0) =~= v@);
    assert(out@ + without(v@, q@) =~= without(v@, q@));
    while at < v.len()
        invariant
            q.len() > 0,
            at <= v.len(),
            out@ + without(v@.skip(at as int), q@) == without(v@, q@),
        decreases v.len() - at,
    {
        let ghost rest = v@.skip(at as int);
        let hit = found_at(&v, &q, at);
        proof {
            if at + q.len() <= v.len() {
                assert(rest.subrange(0, q.len() as int) =~= v@.subrange(at as int, at + q.len()));
            }
            assert(hit == begins(rest, q@));
        }
        if hit {
            assert(rest.skip(q.len() as int) =~= v@.skip(at + q.len()));
            at = at + q.len();
        } else {
            let ghost was = out@;
            out.push(v[at]);
            assert(rest.drop_first() =~= v@.skip(at + 1));
            assert(out@ + without(v@.skip(at + 1), q@) =~= was + (seq![rest[0]] + without(
                v@.skip(at + 1),
                q@,
            )));
            at = at + 1;
        }
    }
    assert(v@.skip(at as int) =~= Seq::<char>::empty());
    assert(out@ =~= without(v@, q@));
    out
}

/// The text and as many spaces as make it `width` characters long.
pub open spec fn padded(s: Seq<char>, width: nat) -> Seq<char> {
    s + Seq::new((if width > s.len() { width - s.len() } else { 0 }) as nat, |i: int| ' ')
}

pub fn pad(s: &str, width: usize) -> (r: String)
    ensures
        r@ == padded(s@, width as nat),
{
    let mut out = s.to_owned();
    let mut n: usize = s.unicode_len();
    assert(out@ =~= padded(s@, s@.len()));
    while n < width
        invariant
            s@.len() <= n,
            n <= width || n == s@.len(),
            out@ == padded(s@, n as nat),
        decreases width - n,
    {
        out.push(' ');
        assert(out@ =~= padded(s@, (n + 1) as nat));
        n = n + 1;
    }
    assert(out@ =~= padded(s@, width as nat));
    out
}

/// `n` spaces.
pub open spec fn spaces(n: nat) -> Seq<char> {
    Seq::new(n, |i: int| ' ')
}

pub fn blank(n: usize) -> (r: String)
    ensures
        r@ == spaces(n as nat),
{
    let r = pad("", n);
    proof {
        reveal_strlit("");
        assert(r@ =~= spaces(n as nat));
    }
    r
}

// -- letters --

/// `A` to `Z` as `a` to `z`; every other character as it is.
pub open spec fn small(c: char) -> char {
    if 'A' <= c <= 'Z' {
        (c as u8 + 32) as u8 as char
    } else {
        c
    }
}

pub open spec fn all_small(s: Seq<char>) -> Seq<char> {
    s.map_values(|c: char| small(c))
}

pub fn to_small(s: &str) -> (r: String)
    ensures
        r@ == all_small(s@),
{
    let v = chars_of(s);
    let mut out = String::new();
    assert(out@ =~= all_small(v@.take(0)));
    for i in 0..v.len()
        invariant
            out@ == all_small(v@.take(i as int)),
    {
        let c = v[i];
        if 'A' <= c && c <= 'Z' {
            out.push((c as u8 + 32) as char);
        } else {
            out.push(c);
        }
        assert(v@.take(i + 1) =~= v@.take(i as int).push(c));
        assert(out@ =~= all_small(v@.take(i + 1)));
    }
    assert(v@.take(v.len() as int) =~= v@);
    out
}

// -- numbers --

const DIGITS: [char; 10] = ['0', '1', '2', '3', '4', '5', '6', '7', '8', '9'];

pub open spec fn digit(d: nat) -> char {
    (('0' as nat) + d) as char
}

pub open spec fn is_digit(c: char) -> bool {
    '0' <= c <= '9'
}

pub open spec fn digit_value(c: char) -> nat {
    (c as nat - '0' as nat) as nat
}

/// A number in decimal, without leading zeros.
pub open spec fn decimal(n: nat) -> Seq<char>
    decreases n,
{
    if n < 10 {
        seq![digit(n)]
    } else {
        decimal(n / 10).push(digit(n % 10))
    }
}

pub fn number(n: u64) -> (r: String)
    ensures
        r@ == decimal(n as nat),
    decreases n,
{
    let d = DIGITS[(n % 10) as usize];
    assert(d == digit((n % 10) as nat));
    if n < 10 {
        let mut s = String::new();
        s.push(d);
        assert(s@ =~= seq![digit(n as nat)]);
        s
    } else {
        let mut s = number(n / 10);
        s.push(d);
        s
    }
}

pub open spec fn all_digits(s: Seq<char>) -> bool {
    forall|i: int| 0 <= i < s.len() ==> is_digit(#[trigger] s[i])
}

pub open spec fn value(s: Seq<char>) -> nat
    decreases s.len(),
{
    if s.len() == 0 {
        0
    } else {
        10 * value(s.drop_last()) + digit_value(s.last())
    }
}

/// The number that a text writes in decimal, with a plus sign or without one,
/// where it is no more than `max`.
pub open spec fn parsed(s: Seq<char>, max: nat) -> Option<nat> {
    let d = if s.len() > 0 && s[0] == '+' {
        s.drop_first()
    } else {
        s
    };
    if d.len() > 0 && all_digits(d) && value(d) <= max {
        Some(value(d))
    } else {
        None
    }
}

proof fn lemma_value_prefix(s: Seq<char>, k: int)
    requires
        0 <= k <= s.len(),
    ensures
        value(s.take(k)) <= value(s),
    decreases s.len(),
{
    if k == s.len() {
        assert(s.take(k) =~= s);
    } else {
        lemma_value_prefix(s.drop_last(), k);
        assert(s.drop_last().take(k) =~= s.take(k));
    }
}

pub fn parse(s: &str, max: u64) -> (r: Option<u64>)
    ensures
        (match r {
            Some(n) => Some(n as nat),
            None => None,
        }) == parsed(s@, max as nat),
{
    let v = chars_of(s);
    let from: usize = if v.len() > 0 && v[0] == '+' { 1 } else { 0 };
    let ghost d = v@.skip(from as int);
    assert(v@.skip(0) =~= v@);
    assert(v.len() > 0 ==> v@.skip(1) =~= v@.drop_first());
    if from == v.len() {
        return None;
    }
    let mut n: u64 = 0;
    for i in from..v.len()
        invariant
            d == v@.skip(from as int),
            from <= i <= v.len(),
            d == (if v@.len() > 0 && v@[0] == '+' { v@.drop_first() } else { v@ }),
            v@ == s@,
            d.len() == v.len() - from,
            n == value(d.take(i - from)),
            n <= max,
            forall|j: int| 0 <= j < i - from ==> is_digit(#[trigger] d[j]),
    {
        let c = v[i];
        assert(c == d[i - from]);
        if c < '0' || c > '9' {
            return None;
        }
        let x: u64 = c as u64 - '0' as u64;
        proof {
            assert(d.take(i + 1 - from).drop_last() =~= d.take(i - from));
            assert(value(d.take(i + 1 - from)) == 10 * n + x);
            lemma_value_prefix(d, i + 1 - from);
        }
        if n > max / 10 || x > max - 10 * n {
            return None;
        }
        n = 10 * n + x;
    }
    assert(d.take(d.len() as int) =~= d);
    Some(n)
}

/// Reading a number back gives the number that was written.
pub proof fn lemma_parse_decimal(n: nat, max: nat)
    requires
        n <= max,
    ensures
        parsed(decimal(n), max) == Some(n),
{
    lemma_decimal(n);
}

/// A decimal is made of digits, at least one, and stands for its number.
pub proof fn lemma_decimal(n: nat)
    ensures
        decimal(n).len() > 0,
        all_digits(decimal(n)),
        value(decimal(n)) == n,
    decreases n,
{
    if n < 10 {
        assert(decimal(n).drop_last() =~= Seq::<char>::empty());
        assert(value(Seq::<char>::empty()) == 0);
    } else {
        lemma_decimal(n / 10);
        assert(decimal(n).drop_last() =~= decimal(n / 10));
        assert forall|i: int| 0 <= i < decimal(n).len() implies is_digit(#[trigger] decimal(n)[i]) by {
            if i < decimal(n / 10).len() {
                assert(decimal(n)[i] == decimal(n / 10)[i]);
            }
        }
    }
}

// -- what holds of texts --

/// A text begins with another where something may be written behind that, ends
/// with it where something may be written before, and holds it between two parts.
pub proof fn law_parts_of_a_text(a: Seq<char>, p: Seq<char>, b: Seq<char>)
    ensures
        begins(p + b, p),
        ends(a + p, p),
        holds(a + p + b, p),
{
    assert((p + b).subrange(0, p.len() as int) =~= p);
    assert((a + p).subrange(a.len() as int, (a + p).len() as int) =~= p);
    assert((a + p + b).subrange(a.len() as int, (a.len() + p.len()) as int) =~= p);
    assert(stands_at(a + p + b, p, a.len() as int));
}

/// And only there.
pub proof fn law_parted(s: Seq<char>, p: Seq<char>)
    ensures
        begins(s, p) ==> s == p + s.skip(p.len() as int),
        ends(s, p) ==> s == s.take(s.len() - p.len()) + p,
        holds(s, p) ==> exists|i: int|
            0 <= i && i + p.len() <= s.len() && s == #[trigger] s.take(i) + p + s.skip(
                i + p.len(),
            ),
{
    if begins(s, p) {
        assert(s =~= s.subrange(0, p.len() as int) + s.skip(p.len() as int));
    }
    if ends(s, p) {
        assert(s =~= s.take(s.len() - p.len()) + s.subrange(s.len() - p.len(), s.len() as int));
    }
    if holds(s, p) {
        let i = choose|i: int| stands_at(s, p, i);
        assert(s =~= s.take(i) + s.subrange(i, i + p.len()) + s.skip(i + p.len()));
    }
}

/// Trimming takes blanks off both ends, and nothing but blanks.
pub proof fn law_trimmed(s: Seq<char>)
    ensures
        exists|a: int, b: int|
            0 <= a <= b <= s.len() && trimmed(s) == #[trigger] s.subrange(a, b) && (forall|i: int|
                0 <= i < a ==> white(#[trigger] s[i])) && (forall|i: int|
                b <= i < s.len() ==> white(#[trigger] s[i])),
        trimmed(s).len() > 0 ==> !white(trimmed(s)[0]) && !white(trimmed(s).last()),
{
    law_trimmed_start(s);
    let t = trimmed_start(s);
    law_trimmed_end(t);
    let a = s.len() - t.len();
    let b = a + trimmed_end(t).len();
    assert(trimmed(s) =~= s.subrange(a, b));
    assert forall|i: int| b <= i < s.len() implies white(#[trigger] s[i]) by {
        assert(t[i - a] == s[i]);
    }
    if trimmed(s).len() > 0 {
        assert(trimmed(s)[0] == t[0]);
    }
}

/// Nothing is left exactly of a text that is all blank.
pub proof fn law_blank(s: Seq<char>)
    ensures
        trimmed(s).len() == 0 <==> forall|i: int| 0 <= i < s.len() ==> white(#[trigger] s[i]),
{
    law_trimmed_start(s);
    let t = trimmed_start(s);
    law_trimmed_end(t);
    let a = s.len() - t.len();
    if trimmed(s).len() == 0 {
        assert forall|i: int| 0 <= i < s.len() implies white(#[trigger] s[i]) by {
            if i >= a {
                assert(t[i - a] == s[i]);
            }
        }
    } else {
        assert(t[0] == s[a]);
    }
}

pub proof fn law_trimmed_start(s: Seq<char>)
    ensures
        trimmed_start(s).len() <= s.len(),
        trimmed_start(s) == s.skip(s.len() - trimmed_start(s).len()),
        forall|i: int| 0 <= i < s.len() - trimmed_start(s).len() ==> white(#[trigger] s[i]),
        trimmed_start(s).len() > 0 ==> !white(trimmed_start(s)[0]),
    decreases s.len(),
{
    if s.len() > 0 && white(s[0]) {
        let m = s.drop_first();
        law_trimmed_start(m);
        assert(m.skip(m.len() - trimmed_start(m).len()) =~= s.skip(
            s.len() - trimmed_start(m).len(),
        ));
        assert forall|i: int| 0 <= i < s.len() - trimmed_start(s).len() implies white(
            #[trigger] s[i],
        ) by {
            if i > 0 {
                assert(m[i - 1] == s[i]);
            }
        }
    } else {
        assert(s.skip(0) =~= s);
    }
}

pub proof fn law_trimmed_end(s: Seq<char>)
    ensures
        trimmed_end(s).len() <= s.len(),
        trimmed_end(s) == s.take(trimmed_end(s).len() as int),
        forall|i: int| trimmed_end(s).len() <= i < s.len() ==> white(#[trigger] s[i]),
        trimmed_end(s).len() > 0 ==> !white(trimmed_end(s).last()),
    decreases s.len(),
{
    if s.len() > 0 && white(s.last()) {
        let m = s.drop_last();
        law_trimmed_end(m);
        assert(m.take(trimmed_end(m).len() as int) =~= s.take(trimmed_end(m).len() as int));
        assert forall|i: int| trimmed_end(s).len() <= i < s.len() implies white(#[trigger] s[i]) by {
            if i < m.len() {
                assert(m[i] == s[i]);
            }
        }
    } else {
        assert(s.take(s.len() as int) =~= s);
    }
}

/// Splitting loses nothing: the parts joined by what they were split at are the
/// text, and no part holds it.
pub proof fn law_split_and_join(s: Seq<char>, c: char)
    ensures
        joined(split(s, c), seq![c]) == s,
        forall|i: int| 0 <= i < split(s, c).len() ==> !(#[trigger] split(s, c)[i]).contains(c),
        split(s, c).len() > 0,
    decreases s.len(),
{
    lemma_first(s, c, 0);
    let n = first(s, c, 0);
    let parts = split(s, c);
    if n < s.len() {
        let rest = split(s.skip(n + 1), c);
        law_split_and_join(s.skip(n + 1), c);
        lemma_joined_first(seq![s.take(n)] + rest, seq![c]);
        assert((seq![s.take(n)] + rest).drop_first() =~= rest);
        assert(s =~= s.take(n) + seq![c] + s.skip(n + 1));
        assert forall|i: int| 0 <= i < parts.len() implies !(#[trigger] parts[i]).contains(c) by {
            if i > 0 {
                assert(parts[i] == rest[i - 1]);
            } else if parts[0].contains(c) {
                let k = choose|k: int| 0 <= k < n && s.take(n)[k] == c;
                assert(s[k] == c);
            }
        }
    } else {
        assert(joined(parts, seq![c]) =~= s) by {
            lemma_joined_first(parts, seq![c]);
        }
        assert forall|i: int| 0 <= i < parts.len() implies !(#[trigger] parts[i]).contains(c) by {
            if s.contains(c) {
                let k = choose|k: int| 0 <= k < s.len() && s[k] == c;
                assert(s[k] == c);
            }
        }
    }
}

/// The parts stand one after the other with the separator between them.
pub proof fn lemma_joined_first(parts: Seq<Seq<char>>, sep: Seq<char>)
    requires
        parts.len() > 0,
    ensures
        parts.len() == 1 ==> joined(parts, sep) == parts[0],
        parts.len() > 1 ==> joined(parts, sep) == parts[0] + sep + joined(parts.drop_first(), sep),
    decreases parts.len(),
{
    if parts.len() > 1 {
        let (front, back) = (parts.drop_last(), parts.drop_first());
        lemma_joined_first(front, sep);
        assert(back.last() == parts.last());
        if parts.len() > 2 {
            assert(front.drop_first() =~= back.drop_last());
        }
        assert(joined(parts, sep) =~= parts[0] + sep + joined(back, sep));
    }
}

/// A padded text is the text and spaces behind it, as wide as asked for or as the
/// text is.
pub proof fn law_padded(s: Seq<char>, width: nat)
    ensures
        padded(s, width).take(s.len() as int) == s,
        forall|i: int| s.len() <= i < padded(s, width).len() ==> #[trigger] padded(s, width)[i] == ' ',
        width >= s.len() ==> padded(s, width).len() == width,
        width < s.len() ==> padded(s, width) == s,
{
    assert(padded(s, width).take(s.len() as int) =~= s);
    if width < s.len() {
        assert(padded(s, width) =~= s);
    }
}

/// What is removed from a text is gone where it stands, and all else stays.
pub proof fn law_removed(s: Seq<char>, p: Seq<char>)
    requires
        p.len() > 0,
    ensures
        without(p + s, p) == without(s, p),
        !holds(s, p) ==> without(s, p) == s,
        s.len() > 0 && !begins(s, p) ==> without(s, p) == seq![s[0]] + without(s.drop_first(), p),
    decreases s.len(),
{
    assert((p + s).subrange(0, p.len() as int) =~= p);
    assert((p + s).skip(p.len() as int) =~= s);
    if !holds(s, p) && s.len() > 0 {
        assert(!begins(s, p)) by {
            if begins(s, p) {
                assert(stands_at(s, p, 0));
            }
        }
        let d = s.drop_first();
        assert(!holds(d, p)) by {
            if holds(d, p) {
                let i = choose|i: int| stands_at(d, p, i);
                assert(s.subrange(i + 1, i + 1 + p.len()) =~= d.subrange(i, i + p.len()));
                assert(stands_at(s, p, i + 1));
            }
        }
        law_removed(d, p);
        assert(seq![s[0]] + d =~= s);
    }
}

/// Lines that hold no break are read back as they were written.
pub proof fn law_lines_are_read_back(l: Seq<char>, rest: Seq<char>)
    requires
        !l.contains('\n'),
        l.len() > 0 ==> l.last() != '\r',
    ensures
        lines(l.push('\n') + rest) == seq![l] + lines(rest),
        lines(l + seq!['\r', '\n'] + rest) == seq![l] + lines(rest),
        l.len() > 0 ==> lines(l) == seq![l],
{
    let n = l.len() as int;
    let a = l.push('\n') + rest;
    assert forall|i: int| 0 <= i < l.len() implies a[i] != '\n' by {
        assert(a[i] == l[i]);
        assert(l.contains(l[i]));
    }
    assert(a[n] == '\n');
    lemma_first_is(a, '\n', 0, n);
    assert(a.take(n) =~= l);
    assert(a.skip(n + 1) =~= rest);
    let b = l + seq!['\r', '\n'] + rest;
    assert forall|i: int| 0 <= i < n + 1 implies b[i] != '\n' by {
        if i < l.len() {
            assert(b[i] == l[i]);
            assert(l.contains(l[i]));
        } else {
            assert(b[i] == '\r');
        }
    }
    assert(b[n + 1] == '\n');
    lemma_first_is(b, '\n', 0, n + 1);
    assert(b.take(n + 1) =~= l.push('\r'));
    assert(l.push('\r').drop_last() =~= l);
    assert(b.skip(n + 2) =~= rest);
    if l.len() > 0 {
        assert forall|i: int| 0 <= i < l.len() implies l[i] != '\n' by {
            assert(l.contains(l[i]));
        }
        lemma_first_is(l, '\n', 0, n);
    }
}

/// What stands before a character is all of the text up to its first place.
pub proof fn law_before(a: Seq<char>, c: char, b: Seq<char>)
    requires
        forall|i: int| 0 <= i < a.len() ==> a[i] != c,
    ensures
        before(a + seq![c] + b, c) == a,
        before(a, c) == a,
{
    let s = a + seq![c] + b;
    assert forall|i: int| 0 <= i < a.len() implies s[i] != c by {
        assert(s[i] == a[i]);
    }
    lemma_first_is(s, c, 0, a.len() as int);
    lemma_first_is(a, c, 0, a.len() as int);
    assert(s.take(a.len() as int) =~= a);
    assert(a.take(a.len() as int) =~= a);
}

/// Texts are ordered by the first character in which they differ, and a text
/// stands before what is longer and begins with it.
pub proof fn law_order(p: Seq<char>, x: char, a: Seq<char>, y: char, b: Seq<char>)
    ensures
        x != y ==> (precedes(p + seq![x] + a, p + seq![y] + b) <==> x < y),
        precedes(p, p + seq![y] + b),
        !precedes(p + seq![x] + a, p),
    decreases p.len(),
{
    let (s, t) = (p + seq![x] + a, p + seq![y] + b);
    if p.len() > 0 {
        let q = p.drop_first();
        law_order(q, x, a, y, b);
        assert(s.drop_first() =~= q + seq![x] + a);
        assert(t.drop_first() =~= q + seq![y] + b);
        assert(s[0] == p[0] && t[0] == p[0]);
    } else {
        assert(s[0] == x && t[0] == y);
    }
}

/// A number is written without a zero in front, and its last digit is what is
/// left of it by tens.
pub proof fn law_decimals(n: nat, d: nat)
    requires
        d < 10,
    ensures
        n == 0 ==> decimal(d) == seq![(48 + d) as char],
        n > 0 ==> decimal(10 * n + d) == decimal(n).push((48 + d) as char),
        n > 0 ==> decimal(n)[0] != '0',
    decreases n,
{
    if n > 0 {
        assert((10 * n + d) / 10 == n && (10 * n + d) % 10 == d);
        if n >= 10 {
            law_decimals(n / 10, n % 10);
            lemma_decimal(n / 10);
            assert(decimal(n)[0] == decimal(n / 10)[0]);
        }
    }
}

/// A text is read as a number where it is one that is written in digits alone and
/// is not too large; a plus sign may stand in front.
pub proof fn law_numbers_are_read(s: Seq<char>, n: nat, max: nat)
    ensures
        n <= max ==> parsed(decimal(n), max) == Some(n),
        n <= max ==> parsed(seq!['+'] + decimal(n), max) == Some(n),
        n > max ==> parsed(decimal(n), max) is None,
        s.len() == 0 ==> parsed(s, max) is None,
        (exists|i: int| 0 < i < s.len() && !('0' <= #[trigger] s[i] <= '9')) ==> parsed(s, max)
            is None,
        s.len() > 0 && s[0] != '+' && !('0' <= s[0] <= '9') ==> parsed(s, max) is None,
        parsed(s, max) matches Some(k) ==> k <= max,
{
    lemma_decimal(n);
    let t = seq!['+'] + decimal(n);
    assert(t.drop_first() =~= decimal(n));
    assert(is_digit(decimal(n)[0]));
    if exists|i: int| 0 < i < s.len() && !('0' <= #[trigger] s[i] <= '9') {
        let i = choose|i: int| 0 < i < s.len() && !('0' <= #[trigger] s[i] <= '9');
        assert(s.drop_first()[i - 1] == s[i]);
        assert(!is_digit(s.drop_first()[i - 1]));
        assert(!is_digit(s[i]));
    }
    if s.len() > 0 && s[0] != '+' && !('0' <= s[0] <= '9') {
        assert(!is_digit(s[0]));
    }
}

/// Only the letters from `A` to `Z` change, each to the one that is as far from
/// `a`.
pub proof fn law_small_letters(s: Seq<char>, i: int)
    requires
        0 <= i < s.len(),
    ensures
        all_small(s).len() == s.len(),
        'A' <= s[i] <= 'Z' ==> all_small(s)[i] as nat - 'a' as nat == s[i] as nat - 'A' as nat,
        !('A' <= s[i] <= 'Z') ==> all_small(s)[i] == s[i],
{
    let c = s[i];
    if 'A' <= c <= 'Z' {
        assert(c as u8 == c as nat);
    }
}

/// Spaces are as many as asked for, and nothing else.
pub proof fn law_spaces(n: nat, i: int)
    requires
        0 <= i < n,
    ensures
        spaces(n).len() == n,
        spaces(n)[i] == ' ',
{
}

/// Each line is written out whole, with a line feed behind it.
pub proof fn law_lines_are_written(l: Seq<char>, rest: Seq<Seq<char>>)
    ensures
        unlines(seq![l] + rest) == l + seq!['\n'] + unlines(rest),
        unlines(Seq::<Seq<char>>::empty()) == Seq::<char>::empty(),
{
    assert((seq![l] + rest).drop_first() =~= rest);
    assert(l.push('\n') + unlines(rest) =~= l + seq!['\n'] + unlines(rest));
}

} // verus!
