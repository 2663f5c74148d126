//! Sketch folders, and the baud rate that a `sketch.yaml` sets for the port.
use vstd::prelude::*;
use vstd::string::*;

use crate::lists::{self, insert_item, push_item, set_item};
use crate::text;

verus! {

broadcast use vstd::string::group_string_axioms;

pub const PORT_CONFIG: &'static str = "default_port_config:";

pub const BAUDRATE: &'static str = "baudrate:";

// -- discovery --

/// A folder that may hold a sketch: how it is shown, its own name, and whether
/// the file of `main_file` stands in it.
pub struct Folder {
    pub shown: String,
    pub name: Option<String>,
    pub has_main: bool,
}

/// What a path leads to: a file with the folder around it, or something that is
/// a folder itself.
pub struct Resolved {
    pub is_file: bool,
    pub itself: Folder,
    pub parent: Option<Folder>,
}

/// Which folder a sketch was found in.
#[derive(Clone, Copy, PartialEq, Eq, Structural, Debug)]
pub enum Spot {
    Itself,
    Parent,
}

/// The file that makes a folder of that name a sketch.
pub open spec fn main_file_of(name: Seq<char>) -> Seq<char> {
    name + ".ino"@
}

pub fn main_file(name: &str) -> (r: String)
    ensures
        r@ == main_file_of(name@),
{
    text::cat2(name, ".ino")
}

/// Why there is no sketch in a folder, if there is none.
pub open spec fn no_sketch(shown: Seq<char>, name: Option<Seq<char>>, has_main: bool) -> Option<
    Seq<char>,
> {
    match name {
        None => Some("sketch folder has no name"@),
        Some(n) => if has_main {
            None
        } else {
            Some("no sketch: "@ + shown + " has no "@ + main_file_of(n))
        },
    }
}

/// The folder that a path means, or why it means none.
pub open spec fn found(path: Seq<char>, at: Option<Resolved>) -> Result<Spot, Seq<char>> {
    match at {
        None => Err(path + " not found"@),
        Some(r) => if r.is_file {
            match r.parent {
                None => Err("sketch has no parent folder"@),
                Some(f) => match no_sketch(f.shown@, f.name.deep_view(), f.has_main) {
                    None => Ok(Spot::Parent),
                    Some(e) => Err(e),
                },
            }
        } else {
            match no_sketch(r.itself.shown@, r.itself.name.deep_view(), r.itself.has_main) {
                None => Ok(Spot::Itself),
                Some(e) => Err(e),
            }
        },
    }
}

fn check_folder(f: &Folder) -> (r: Option<String>)
    ensures
        r.deep_view() == no_sketch(f.shown@, f.name.deep_view(), f.has_main),
{
    match &f.name {
        None => Some("sketch folder has no name".to_owned()),
        Some(n) => {
            if f.has_main {
                None
            } else {
                let file = main_file(n.as_str());
                Some(text::cat4("no sketch: ", f.shown.as_str(), " has no ", file.as_str()))
            }
        },
    }
}

/// The sketch folder of a path: the folder itself, or the one around a file.
/// `at` is `None` where the path leads nowhere.
pub fn find(path: &str, at: &Option<Resolved>) -> (r: Result<Spot, String>)
    ensures
        (match r {
            Ok(s) => Ok(s),
            Err(e) => Err(e@),
        }) == found(path@, *at),
{
    let resolved = match at {
        None => {
            return Err(text::cat2(path, " not found"));
        },
        Some(x) => x,
    };
    if resolved.is_file {
        match &resolved.parent {
            None => Err("sketch has no parent folder".to_owned()),
            Some(f) => match check_folder(f) {
                None => Ok(Spot::Parent),
                Some(e) => Err(e),
            },
        }
    } else {
        match check_folder(&resolved.itself) {
            None => Ok(Spot::Itself),
            Some(e) => Err(e),
        }
    }
}

/// A sketch is a folder, unless its path names a loose file.
pub open spec fn folder(rel: Seq<char>) -> bool {
    !text::ends(rel, ".ino"@)
}

pub fn is_folder(rel: &str) -> (r: bool)
    ensures
        r == folder(rel@),
{
    !text::ends_with(rel, ".ino")
}

// -- lines of sketch.yaml --

/// The line starts an entry of its own: it is not indented, not blank and not a
/// comment.
pub open spec fn heads(l: Seq<char>) -> bool {
    &&& !(l.len() > 0 && (l[0] == ' ' || l[0] == '\t' || l[0] == '#'))
    &&& text::trimmed(l).len() > 0
}

pub fn top_level(line: &str) -> (r: bool)
    ensures
        r == heads(line@),
{
    let v = text::chars_of(line);
    if v.len() > 0 && (v[0] == ' ' || v[0] == '\t' || v[0] == '#') {
        return false;
    }
    let t = text::trim(line);
    !t.as_str().is_empty()
}

pub open spec fn quote(c: char) -> bool {
    c == '"' || c == '\''
}

pub open spec fn unquoted_start(s: Seq<char>) -> Seq<char>
    decreases s.len(),
{
    if s.len() > 0 && quote(s[0]) {
        unquoted_start(s.drop_first())
    } else {
        s
    }
}

pub open spec fn unquoted_end(s: Seq<char>) -> Seq<char>
    decreases s.len(),
{
    if s.len() > 0 && quote(s.last()) {
        unquoted_end(s.drop_last())
    } else {
        s
    }
}

/// A value as it stands after its key: without a comment, blanks and quotes
/// around it.
pub open spec fn bare(rest: Seq<char>) -> Seq<char> {
    unquoted_end(unquoted_start(text::trimmed(text::before(rest, '#'))))
}

fn bare_value(rest: &str) -> (r: String)
    ensures
        r@ == bare(rest@),
{
    let plain = text::until(rest, '#');
    let t = text::trim(plain.as_str());
    let v = text::chars_of(t.as_str());
    let mut from: usize = 0;
    assert(v@.skip(0) =~= v@);
    while from < v.len() && (v[from] == '"' || v[from] == '\'')
        invariant
            from <= v.len(),
            unquoted_start(v@.skip(from as int)) == unquoted_start(v@),
        decreases v.len() - from,
    {
        assert(v@.skip(from as int).drop_first() =~= v@.skip(from + 1));
        from = from + 1;
    }
    let ghost s = unquoted_start(v@);
    assert(s == v@.skip(from as int));
    let mut to: usize = v.len();
    assert(s.take(to - from) =~= s);
    while to > from && (v[to - 1] == '"' || v[to - 1] == '\'')
        invariant
            from <= to <= v.len(),
            s == v@.skip(from as int),
            unquoted_end(s.take(to - from)) == unquoted_end(s),
        decreases to,
    {
        assert(s.take(to - from).drop_last() =~= s.take(to - from - 1));
        to = to - 1;
    }
    let r = text::string_of(&v, from, to);
    assert(r@ =~= s.take(to - from));
    r
}

/// The line starts the entry of `key`.
pub open spec fn heads_key(ls: Seq<Seq<char>>, key: Seq<char>) -> spec_fn(int) -> bool {
    |i: int| heads(ls[i]) && text::begins(ls[i], key)
}

/// The value of a top-level `key: value` line, where there is one and it is not
/// empty; `key` ends with its colon.
pub open spec fn value_at(yaml: Seq<char>, key: Seq<char>) -> Option<Seq<char>> {
    let ls = text::lines(yaml);
    match lists::place(ls.len() as int, heads_key(ls, key)) {
        None => None,
        Some(i) => {
            let v = bare(ls[i].skip(key.len() as int));
            if v.len() > 0 {
                Some(v)
            } else {
                None
            }
        },
    }
}

pub fn yaml_value(yaml: &str, key: &str) -> (r: Option<String>)
    ensures
        r.deep_view() == value_at(yaml@, key@),
{
    let lines = text::lines_of(yaml);
    let ghost ls = text::lines(yaml@);
    let ghost p = heads_key(ls, key@);
    for i in 0..lines.len()
        invariant
            ls == lines.deep_view(),
            ls == text::lines(yaml@),
            p == heads_key(ls, key@),
            lists::seek(0, ls.len() as int, p) == lists::seek(i as int, ls.len() as int, p),
    {
        let l = lines[i].as_str();
        assert(l@ == ls[i as int]);
        if top_level(l) {
            if let Some(rest) = text::strip_prefix(l, key) {
                let v = bare_value(rest.as_str());
                return if v.as_str().is_empty() {
                    None
                } else {
                    Some(v)
                };
            }
        }
    }
    None
}

// -- baud in sketch.yaml --

/// The entry that line `i` belongs to sets up the port.
pub open spec fn in_block(ls: Seq<Seq<char>>, i: int) -> bool
    decreases i,
{
    if i <= 0 {
        false
    } else if heads(ls[i - 1]) {
        text::begins(ls[i - 1], PORT_CONFIG@)
    } else {
        in_block(ls, i - 1)
    }
}

/// Line `i` sets the baud rate.
pub open spec fn sets_baud(ls: Seq<Seq<char>>) -> spec_fn(int) -> bool {
    |i: int| !heads(ls[i]) && in_block(ls, i) && text::begins(text::trimmed(ls[i]), BAUDRATE@)
}

/// The number in a line that sets the baud rate.
pub open spec fn baud_in(l: Seq<char>) -> Option<nat> {
    text::parsed(bare(text::trimmed(l).skip(BAUDRATE@.len() as int)), u32::MAX as nat)
}

pub open spec fn baud_of(ls: Seq<Seq<char>>) -> Option<nat> {
    match lists::place(ls.len() as int, sets_baud(ls)) {
        Some(i) => baud_in(ls[i]),
        None => None,
    }
}

pub open spec fn bauds(b: Option<u32>) -> Option<nat> {
    match b {
        Some(n) => Some(n as nat),
        None => None,
    }
}

/// The baud rate that a `sketch.yaml` sets, if it sets one.
pub fn get_baud(yaml: &str) -> (r: Option<u32>)
    ensures
        bauds(r) == baud_of(text::lines(yaml@)),
{
    let lines = text::lines_of(yaml);
    let ghost ls = text::lines(yaml@);
    let ghost p = sets_baud(ls);
    let mut inside = false;
    for i in 0..lines.len()
        invariant
            ls == lines.deep_view(),
            ls == text::lines(yaml@),
            p == sets_baud(ls),
            inside == in_block(ls, i as int),
            lists::seek(0, ls.len() as int, p) == lists::seek(i as int, ls.len() as int, p),
    {
        let l = lines[i].as_str();
        assert(l@ == ls[i as int]);
        if top_level(l) {
            inside = text::starts_with(l, PORT_CONFIG);
        } else if inside {
            let t = text::trim(l);
            if let Some(rest) = text::strip_prefix(t.as_str(), BAUDRATE) {
                assert(p(i as int));
                let v = bare_value(rest.as_str());
                return match text::parse(v.as_str(), u32::MAX as u64) {
                    Some(n) => Some(n as u32),
                    None => None,
                };
            }
        }
    }
    None
}

/// Line `i` starts the entry that sets up the port.
pub open spec fn is_header(ls: Seq<Seq<char>>) -> spec_fn(int) -> bool {
    |i: int| text::begins(ls[i], PORT_CONFIG@)
}

pub open spec fn header(ls: Seq<Seq<char>>) -> Option<int> {
    lists::place(ls.len() as int, is_header(ls))
}

/// The entry at line `h` has its value on that line.
pub open spec fn inline_entry(ls: Seq<Seq<char>>, h: int) -> bool {
    text::trimmed(text::before(ls[h].skip(PORT_CONFIG@.len() as int), '#')).len() > 0
}

pub open spec fn heads_at(ls: Seq<Seq<char>>) -> spec_fn(int) -> bool {
    |i: int| heads(ls[i])
}

/// Where the entry at line `h` ends.
pub open spec fn block_end(ls: Seq<Seq<char>>, h: int) -> int {
    lists::seek(h + 1, ls.len() as int, heads_at(ls))
}

pub open spec fn baud_key_at(ls: Seq<Seq<char>>) -> spec_fn(int) -> bool {
    |i: int| text::begins(text::trimmed_start(ls[i]), BAUDRATE@)
}

/// The line of the entry at `h` that sets the baud rate; its end where none does.
pub open spec fn baud_line(ls: Seq<Seq<char>>, h: int) -> int {
    lists::seek(h + 1, block_end(ls, h), baud_key_at(ls))
}

pub open spec fn indent(l: Seq<char>) -> Seq<char> {
    l.take(l.len() - text::trimmed_start(l).len())
}

pub open spec fn setting(baud: u32) -> Seq<char> {
    "baudrate: "@ + text::decimal(baud as nat)
}

/// The lines with the baud rate set: in its line where there is one, in a line
/// right under the entry where that is there, in a new entry otherwise.
pub open spec fn with_baud(ls: Seq<Seq<char>>, baud: u32) -> Seq<Seq<char>> {
    match header(ls) {
        None => ls.push(PORT_CONFIG@).push("  "@ + setting(baud)),
        Some(h) => {
            let i = baud_line(ls, h);
            if i < block_end(ls, h) {
                ls.update(i, indent(ls[i]) + setting(baud))
            } else {
                ls.insert(h + 1, "  "@ + setting(baud))
            }
        },
    }
}

/// The entry is there with its value on the same line.
pub open spec fn baud_is_inline(ls: Seq<Seq<char>>) -> bool {
    header(ls) matches Some(h) && inline_entry(ls, h)
}

pub open spec fn inline_error() -> Seq<char> {
    "default_port_config in sketch.yaml is inline; set the baud there by hand"@
}

/// A `sketch.yaml` with the baud rate set and every other line kept.
pub fn set_baud(yaml: &str, baud: u32) -> (r: Result<String, String>)
    ensures
        r is Err <==> baud_is_inline(text::lines(yaml@)),
        r matches Ok(out) ==> out@ == text::unlines(with_baud(text::lines(yaml@), baud)),
        r matches Err(e) ==> e@ == inline_error(),
{
    let mut lines = text::lines_of(yaml);
    let ghost ls = text::lines(yaml@);
    let digits = text::number(baud as u64);
    let set = text::cat2("baudrate: ", digits.as_str());
    let ghost p = is_header(ls);
    let mut h: usize = 0;
    while h < lines.len() && !text::starts_with(lines[h].as_str(), PORT_CONFIG)
        invariant
            ls == lines.deep_view(),
            p == is_header(ls),
            h <= lines.len(),
            lists::seek(0, ls.len() as int, p) == lists::seek(h as int, ls.len() as int, p),
        decreases lines.len() - h,
    {
        assert(lines@[h as int]@ == ls[h as int]);
        h = h + 1;
    }
    let under = text::cat2("  ", set.as_str());
    if h == lines.len() {
        push_item(&mut lines, PORT_CONFIG.to_owned());
        push_item(&mut lines, under);
        return Ok(text::unlines_of(&lines));
    }
    assert(lines@[h as int]@ == ls[h as int]);
    assert(p(h as int));
    assert(header(ls) == Some(h as int));
    let rest = match text::strip_prefix(lines[h].as_str(), PORT_CONFIG) {
        Some(x) => x,
        None => String::new(),
    };
    let plain = text::until(rest.as_str(), '#');
    let value = text::trim(plain.as_str());
    if !value.as_str().is_empty() {
        return Err(
            "default_port_config in sketch.yaml is inline; set the baud there by hand".to_owned(),
        );
    }
    let ghost q = heads_at(ls);
    let mut end: usize = h + 1;
    while end < lines.len() && !top_level(lines[end].as_str())
        invariant
            ls == lines.deep_view(),
            q == heads_at(ls),
            h < end <= lines.len(),
            lists::seek(h + 1, ls.len() as int, q) == lists::seek(end as int, ls.len() as int, q),
        decreases lines.len() - end,
    {
        assert(lines@[end as int]@ == ls[end as int]);
        end = end + 1;
    }
    assert(end < lines.len() ==> lines@[end as int]@ == ls[end as int]);
    assert(end == block_end(ls, h as int));
    let ghost k = baud_key_at(ls);
    let mut i: usize = h + 1;
    let mut body = String::new();
    while i < end
        invariant_except_break
            lists::seek(h + 1, end as int, k) == lists::seek(i as int, end as int, k),
        invariant
            ls == lines.deep_view(),
            k == baud_key_at(ls),
            h < i <= end <= lines.len(),
        ensures
            i == lists::seek(h + 1, end as int, k),
            i < end ==> body@ == text::trimmed_start(ls[i as int]),
        decreases end - i,
    {
        assert(lines@[i as int]@ == ls[i as int]);
        body = text::trim_start(lines[i].as_str());
        if text::starts_with(body.as_str(), BAUDRATE) {
            break;
        }
        i = i + 1;
    }
    if i < end {
        assert(lines@[i as int]@ == ls[i as int]);
        let v = text::chars_of(lines[i].as_str());
        let n: usize = body.as_str().unicode_len();
        proof {
            lemma_trimmed_start(ls[i as int]);
        }
        let gap = text::string_of(&v, 0, v.len() - n);
        assert(gap@ =~= indent(ls[i as int]));
        let line = text::cat2(gap.as_str(), set.as_str());
        set_item(&mut lines, i, line);
    } else {
        insert_item(&mut lines, h + 1, under);
    }
    Ok(text::unlines_of(&lines))
}

/// The baud rate in a sketch folder whose `sketch.yaml` reads `yaml`.
pub fn load_baud(yaml: &Option<String>) -> (r: Option<u32>)
    ensures
        bauds(r) == (match *yaml {
            Some(y) => baud_of(text::lines(y@)),
            None => None,
        }),
{
    match yaml {
        Some(y) => get_baud(y.as_str()),
        None => None,
    }
}

/// What is to be written to a `sketch.yaml` that reads `yaml` so that it sets
/// the baud rate: nothing where it does so already. A missing file reads as empty.
pub fn save_baud(yaml: &str, baud: u32) -> (r: Result<Option<String>, String>)
    ensures
        ({
            let ls = text::lines(yaml@);
            if baud_of(ls) == Some(baud as nat) {
                r matches Ok(None)
            } else if baud_is_inline(ls) {
                r matches Err(e) && e@ == inline_error()
            } else {
                r matches Ok(Some(out)) && out@ == text::unlines(with_baud(ls, baud))
            }
        }),
{
    match get_baud(yaml) {
        Some(b) if b == baud => Ok(None),
        _ => match set_baud(yaml, baud) {
            Ok(out) => Ok(Some(out)),
            Err(e) => Err(e),
        },
    }
}

// -- what holds of the baud rate --

proof fn lemma_trimmed_start(l: Seq<char>)
    ensures
        text::trimmed_start(l).len() <= l.len(),
        l == indent(l) + text::trimmed_start(l),
        forall|i: int| 0 <= i < indent(l).len() ==> text::white(#[trigger] indent(l)[i]),
        text::trimmed_start(l).len() > 0 ==> !text::white(text::trimmed_start(l)[0]),
    decreases l.len(),
{
    if l.len() > 0 && text::white(l[0]) {
        let m = l.drop_first();
        lemma_trimmed_start(m);
        assert(indent(l) =~= seq![l[0]] + indent(m));
        assert(l =~= seq![l[0]] + m);
        assert(l =~= indent(l) + text::trimmed_start(l));
    } else {
        assert(indent(l) =~= Seq::<char>::empty());
        assert(l =~= indent(l) + text::trimmed_start(l));
    }
}

/// Blanks before a text that does not start with one are what trimming takes off.
proof fn lemma_trim_indented(gap: Seq<char>, body: Seq<char>)
    requires
        forall|i: int| 0 <= i < gap.len() ==> text::white(#[trigger] gap[i]),
        body.len() > 0,
        !text::white(body[0]),
    ensures
        text::trimmed_start(gap + body) == body,
    decreases gap.len(),
{
    if gap.len() > 0 {
        assert((gap + body)[0] == gap[0]);
        assert((gap + body).drop_first() =~= gap.drop_first() + body);
        lemma_trim_indented(gap.drop_first(), body);
    } else {
        assert(gap + body =~= body);
    }
}

proof fn lemma_trimmed_end(s: Seq<char>)
    ensures
        text::trimmed_end(s).len() <= s.len(),
        text::trimmed_end(s) == s.take(text::trimmed_end(s).len() as int),
        forall|i: int|
            text::trimmed_end(s).len() <= i < s.len() ==> text::white(#[trigger] s[i]),
    decreases s.len(),
{
    if s.len() > 0 && text::white(s.last()) {
        lemma_trimmed_end(s.drop_last());
        assert(s.drop_last().take(text::trimmed_end(s).len() as int) =~= s.take(
            text::trimmed_end(s).len() as int,
        ));
        assert forall|i: int| text::trimmed_end(s).len() <= i < s.len() implies text::white(
            #[trigger] s[i],
        ) by {
            if i < s.len() - 1 {
                assert(s.drop_last()[i] == s[i]);
            }
        }
    } else {
        assert(s.take(s.len() as int) =~= s);
    }
}

/// Trimming the end takes nothing off a prefix that ends with no blank.
proof fn lemma_begins_trimmed_end(s: Seq<char>, p: Seq<char>)
    requires
        p.len() > 0,
        !text::white(p.last()),
    ensures
        text::begins(text::trimmed_end(s), p) == text::begins(s, p),
{
    lemma_trimmed_end(s);
    let t = text::trimmed_end(s);
    if text::begins(s, p) {
        assert(s[p.len() - 1] == s.subrange(0, p.len() as int)[p.len() - 1]);
        assert(p.len() <= t.len());
        assert(t.subrange(0, p.len() as int) =~= s.subrange(0, p.len() as int));
    }
    if text::begins(t, p) {
        assert(t.subrange(0, p.len() as int) =~= s.subrange(0, p.len() as int));
    }
}

/// A blank at the end makes no difference to a trimmed text.
proof fn lemma_trim_drop_last(l: Seq<char>)
    requires
        l.len() > 0,
        text::white(l.last()),
    ensures
        text::trimmed(l.drop_last()) == text::trimmed(l),
    decreases l.len(),
{
    let d = l.drop_last();
    if text::white(l[0]) {
        if l.len() == 1 {
            assert(d =~= Seq::<char>::empty());
            assert(l.drop_first() =~= Seq::<char>::empty());
        } else {
            assert(d.drop_first() =~= l.drop_first().drop_last());
            assert(l.drop_first().last() == l.last());
            lemma_trim_drop_last(l.drop_first());
        }
    }
}

proof fn lemma_chomped(l: Seq<char>)
    ensures
        text::trimmed(text::chomped(l)) == text::trimmed(l),
        heads(text::chomped(l)) == heads(l),
        text::begins(text::chomped(l), PORT_CONFIG@) == text::begins(l, PORT_CONFIG@),
{
    reveal_strlit("default_port_config:");
    let c = text::chomped(l);
    if l.len() > 0 && l.last() == '\r' {
        lemma_trim_drop_last(l);
        assert(c == l.drop_last());
        if l.len() > 1 {
            assert(c[0] == l[0]);
        } else {
            assert(l[0] == '\r');
            assert(l.drop_first() =~= Seq::<char>::empty());
        }
        let n = PORT_CONFIG@.len() as int;
        if text::begins(l, PORT_CONFIG@) {
            assert(l.subrange(0, n)[n - 1] == ':');
            assert(c.subrange(0, n) =~= l.subrange(0, n));
        }
        if text::begins(c, PORT_CONFIG@) {
            assert(c.subrange(0, n) =~= l.subrange(0, n));
        }
    }
}

pub open spec fn chomped_all(ls: Seq<Seq<char>>) -> Seq<Seq<char>> {
    ls.map_values(|l: Seq<char>| text::chomped(l))
}

/// No line holds a line feed.
pub open spec fn unbroken(ls: Seq<Seq<char>>) -> bool {
    forall|i: int| 0 <= i < ls.len() ==> !(#[trigger] ls[i]).contains('\n')
}

proof fn lemma_lines_unbroken(s: Seq<char>)
    ensures
        unbroken(text::lines(s)),
    decreases s.len(),
{
    text::lemma_first(s, '\n', 0);
    let n = text::first(s, '\n', 0);
    if s.len() > 0 {
        if n < s.len() {
            let l = text::chomped(s.take(n));
            assert(!l.contains('\n')) by {
                if l.contains('\n') {
                    let k = choose|k: int| 0 <= k < l.len() && l[k] == '\n';
                    assert(s[k] == '\n');
                }
            }
            lemma_lines_unbroken(s.skip(n + 1));
            let rest = text::lines(s.skip(n + 1));
            assert forall|i: int| 0 <= i < text::lines(s).len() implies !(#[trigger] text::lines(
                s,
            )[i]).contains('\n') by {
                if i > 0 {
                    assert(text::lines(s)[i] == rest[i - 1]);
                }
            }
        } else {
            assert(!s.contains('\n')) by {
                if s.contains('\n') {
                    let k = choose|k: int| 0 <= k < s.len() && s[k] == '\n';
                }
            }
        }
    }
}

/// Reading lines that were put together gives the lines back, but for a carriage
/// return at the end of one.
proof fn lemma_lines_of_unlines(ls: Seq<Seq<char>>)
    requires
        unbroken(ls),
    ensures
        text::lines(text::unlines(ls)) == chomped_all(ls),
    decreases ls.len(),
{
    let s = text::unlines(ls);
    if ls.len() > 0 {
        let l = ls[0];
        let rest = text::unlines(ls.drop_first());
        assert(s == l.push('\n') + rest);
        assert forall|i: int| 0 <= i < l.len() implies s[i] != '\n' by {
            assert(s[i] == l[i]);
            assert(l.contains(l[i]));
        }
        assert(s[l.len() as int] == '\n');
        text::lemma_first_is(s, '\n', 0, l.len() as int);
        assert(s.take(l.len() as int) =~= l);
        assert(s.skip((l.len() + 1) as int) =~= rest);
        assert forall|i: int| 0 <= i < ls.drop_first().len() implies !(#[trigger] ls.drop_first()[i]).contains(
            '\n',
        ) by {
            assert(ls.drop_first()[i] == ls[i + 1]);
        }
        lemma_lines_of_unlines(ls.drop_first());
        assert(text::lines(s) =~= chomped_all(ls)) by {
            assert(text::lines(s) == seq![text::chomped(l)] + chomped_all(ls.drop_first()));
        }
    } else {
        assert(text::lines(s) =~= chomped_all(ls));
    }
}

proof fn lemma_in_block_chomped(ls: Seq<Seq<char>>, i: int)
    requires
        i <= ls.len(),
    ensures
        in_block(chomped_all(ls), i) == in_block(ls, i),
    decreases i,
{
    if i > 0 {
        lemma_chomped(ls[i - 1]);
        lemma_in_block_chomped(ls, i - 1);
    }
}

proof fn lemma_seek_same(from: int, n: int, p: spec_fn(int) -> bool, q: spec_fn(int) -> bool)
    requires
        forall|i: int| from <= i < n ==> #[trigger] p(i) == q(i),
    ensures
        lists::seek(from, n, p) == lists::seek(from, n, q),
    decreases n - from,
{
    if from < n {
        assert(p(from) == q(from));
        lemma_seek_same(from + 1, n, p, q);
    }
}

proof fn lemma_baud_of_chomped(ls: Seq<Seq<char>>)
    ensures
        baud_of(chomped_all(ls)) == baud_of(ls),
{
    let cs = chomped_all(ls);
    let (p, q) = (sets_baud(cs), sets_baud(ls));
    assert forall|i: int| 0 <= i < ls.len() implies #[trigger] p(i) == q(i) by {
        lemma_chomped(ls[i]);
        lemma_in_block_chomped(ls, i);
    }
    lemma_seek_same(0, ls.len() as int, p, q);
    lists::lemma_seek(0, ls.len() as int, q);
    if lists::place(ls.len() as int, q) is Some {
        lemma_chomped(ls[lists::seek(0, ls.len() as int, q)]);
    }
}

/// A line that starts with no blank and is no comment heads an entry.
proof fn lemma_heads(l: Seq<char>)
    requires
        l.len() > 0,
        !text::white(l[0]),
        l[0] != '#',
    ensures
        heads(l),
{
    lemma_trimmed_end(l);
    assert(text::trimmed_end(l).len() > 0);
}

/// The line that sets a baud rate says it, however far it is indented.
proof fn lemma_setting(gap: Seq<char>, baud: u32)
    requires
        forall|i: int| 0 <= i < gap.len() ==> text::white(#[trigger] gap[i]),
        gap.len() > 0,
        gap[0] == ' ' || gap[0] == '\t',
    ensures
        !heads(gap + setting(baud)),
        text::begins(text::trimmed(gap + setting(baud)), BAUDRATE@),
        baud_in(gap + setting(baud)) == Some(baud as nat),
        text::trimmed_start(gap + setting(baud)) == setting(baud),
        indent(gap + setting(baud)) == gap,
{
    reveal_strlit("baudrate:");
    reveal_strlit("baudrate: ");
    let d = text::decimal(baud as nat);
    let body = setting(baud);
    let l = gap + body;
    text::lemma_decimal(baud as nat);
    assert(body[0] == 'b');
    lemma_trim_indented(gap, body);
    assert(indent(l) =~= gap);
    assert(body.last() == d.last());
    assert(text::is_digit(d[d.len() - 1]));
    assert(text::trimmed(l) == body);
    assert(body.subrange(0, 9) =~= BAUDRATE@);
    let rest = body.skip(9);
    assert(rest =~= seq![' '] + d);
    assert forall|i: int| 0 <= i < rest.len() implies rest[i] != '#' by {
        if i > 0 {
            assert(rest[i] == d[i - 1]);
        }
    }
    text::lemma_first_is(rest, '#', 0, rest.len() as int);
    assert(text::before(rest, '#') =~= rest);
    assert(rest.drop_first() =~= d);
    assert(text::is_digit(d[0]));
    assert(text::trimmed_start(d) == d);
    assert(text::trimmed_start(rest) == d);
    assert(text::trimmed_end(d) == d);
    assert(unquoted_start(d) == d);
    assert(unquoted_end(d) == d);
    text::lemma_parse_decimal(baud as nat, u32::MAX as nat);
    assert(l[0] == gap[0]);
}

/// Before the first header no line is inside the entry.
proof fn lemma_no_block(ls: Seq<Seq<char>>, h: int, i: int)
    requires
        0 <= i <= h <= ls.len(),
        forall|k: int| 0 <= k < h ==> !text::begins(#[trigger] ls[k], PORT_CONFIG@),
    ensures
        !in_block(ls, i),
    decreases i,
{
    if i > 0 {
        assert(!text::begins(ls[i - 1], PORT_CONFIG@));
        lemma_no_block(ls, h, i - 1);
    }
}

/// Under a header, up to the next line that heads an entry, every line is inside.
proof fn lemma_block(ls: Seq<Seq<char>>, h: int, i: int)
    requires
        0 <= h < i <= ls.len(),
        heads(ls[h]),
        text::begins(ls[h], PORT_CONFIG@),
        forall|k: int| h < k < i ==> !heads(#[trigger] ls[k]),
    ensures
        in_block(ls, i),
    decreases i,
{
    if i > h + 1 {
        assert(!heads(ls[i - 1]));
        lemma_block(ls, h, i - 1);
    }
}

proof fn lemma_header_heads(l: Seq<char>)
    requires
        text::begins(l, PORT_CONFIG@),
    ensures
        heads(l),
{
    reveal_strlit("default_port_config:");
    assert(l[0] == l.subrange(0, PORT_CONFIG@.len() as int)[0]);
    lemma_heads(l);
}

/// The one line that says the baud rate is the first to do so.
proof fn lemma_baud_at(ls: Seq<Seq<char>>, h: int, i: int, gap: Seq<char>, baud: u32)
    requires
        0 <= h < i < ls.len(),
        forall|k: int| 0 <= k < h ==> !text::begins(#[trigger] ls[k], PORT_CONFIG@),
        text::begins(ls[h], PORT_CONFIG@),
        forall|k: int| h < k < i ==> !heads(#[trigger] ls[k]),
        forall|k: int| h < k < i ==> !text::begins(text::trimmed(#[trigger] ls[k]), BAUDRATE@),
        ls[i] == gap + setting(baud),
        forall|j: int| 0 <= j < gap.len() ==> text::white(#[trigger] gap[j]),
        gap.len() > 0,
        gap[0] == ' ' || gap[0] == '\t',
    ensures
        baud_of(ls) == Some(baud as nat),
{
    lemma_setting(gap, baud);
    lemma_header_heads(ls[h]);
    lemma_block(ls, h, i);
    let p = sets_baud(ls);
    assert(p(i));
    lists::lemma_seek(0, ls.len() as int, p);
    let f = lists::seek(0, ls.len() as int, p);
    assert(f <= i);
    assert(p(f));
    if f <= h {
        lemma_no_block(ls, h, f);
    } else if f < i {
        assert(!heads(ls[f]));
    }
}

/// The blanks before a baud line of the entry start with one that indents it.
proof fn lemma_indent(l: Seq<char>)
    requires
        !heads(l),
        text::begins(text::trimmed_start(l), BAUDRATE@),
    ensures
        indent(l).len() > 0,
        indent(l)[0] == ' ' || indent(l)[0] == '\t',
        forall|i: int| 0 <= i < indent(l).len() ==> text::white(#[trigger] indent(l)[i]),
{
    reveal_strlit("baudrate:");
    lemma_trimmed_start(l);
    let t = text::trimmed_start(l);
    assert(t[0] == t.subrange(0, 9)[0]);
    assert(t[0] == 'b');
    if indent(l).len() == 0 {
        assert(l =~= t);
        lemma_heads(l);
    } else {
        assert(indent(l)[0] == l[0]);
        if l[0] != ' ' && l[0] != '\t' {
            lemma_begins_trimmed_end(t, BAUDRATE@);
            assert(text::trimmed(l).len() > 0);
            assert(text::white(l[0]));
        }
    }
}

/// What setting the baud rate does to the lines: where a line of the entry sets
/// it, that line is replaced; where the entry is there without one, a line is
/// added under it; otherwise the entry is added with its line. Every other line
/// is kept, in its order.
pub proof fn law_rest_is_kept(ls: Seq<Seq<char>>, baud: u32)
    ensures
        ({
            let out = with_baud(ls, baud);
            match header(ls) {
                None => out.len() == ls.len() + 2 && out.take(ls.len() as int) == ls,
                Some(h) => {
                    let i = baud_line(ls, h);
                    if i < block_end(ls, h) {
                        &&& 0 <= h < i < ls.len()
                        &&& out.len() == ls.len()
                        &&& out.remove(i) == ls.remove(i)
                    } else {
                        out.len() == ls.len() + 1 && out.remove(h + 1) == ls
                    }
                },
            }
        }),
{
    let out = with_baud(ls, baud);
    let n = ls.len() as int;
    lists::lemma_seek(0, n, is_header(ls));
    match header(ls) {
        None => {
            assert(out.take(n) =~= ls);
        },
        Some(h) => {
            lists::lemma_seek(h + 1, n, heads_at(ls));
            lists::lemma_seek(h + 1, block_end(ls, h), baud_key_at(ls));
            let i = baud_line(ls, h);
            if i < block_end(ls, h) {
                assert(out.remove(i) =~= ls.remove(i));
            } else {
                assert(out.remove(h + 1) =~= ls);
            }
        },
    }
}

proof fn lemma_baud_of_with_baud(ls: Seq<Seq<char>>, baud: u32)
    requires
        unbroken(ls),
    ensures
        baud_of(with_baud(ls, baud)) == Some(baud as nat),
        unbroken(with_baud(ls, baud)),
{
    reveal_strlit("  ");
    reveal_strlit("baudrate: ");
    reveal_strlit("baudrate:");
    reveal_strlit("default_port_config:");
    let n = ls.len() as int;
    let out = with_baud(ls, baud);
    let gap = "  "@;
    text::lemma_decimal(baud as nat);
    assert(!setting(baud).contains('\n')) by {
        let s = setting(baud);
        if s.contains('\n') {
            let k = choose|k: int| 0 <= k < s.len() && s[k] == '\n';
            if k >= 10 {
                assert(s[k] == text::decimal(baud as nat)[k - 10]);
            }
        }
    }
    assert(!(gap + setting(baud)).contains('\n')) by {
        let s = gap + setting(baud);
        if s.contains('\n') {
            let k = choose|k: int| 0 <= k < s.len() && s[k] == '\n';
            if k >= 2 {
                assert(setting(baud)[k - 2] == '\n');
            }
        }
    }
    lists::lemma_seek(0, n, is_header(ls));
    match header(ls) {
        None => {
            assert forall|k: int| 0 <= k < n implies !text::begins(#[trigger] out[k], PORT_CONFIG@) by {
                assert(out[k] == ls[k]);
                assert(!is_header(ls)(k));
            }
            assert(PORT_CONFIG@.subrange(0, PORT_CONFIG@.len() as int) =~= PORT_CONFIG@);
            lemma_baud_at(out, n, n + 1, gap, baud);
            assert(!PORT_CONFIG@.contains('\n'));
            assert forall|k: int| 0 <= k < out.len() implies !(#[trigger] out[k]).contains('\n') by {
                if k < n {
                    assert(out[k] == ls[k]);
                }
            }
        },
        Some(h) => {
            assert(is_header(ls)(h));
            let end = block_end(ls, h);
            lists::lemma_seek(h + 1, n, heads_at(ls));
            lists::lemma_seek(h + 1, end, baud_key_at(ls));
            let i = baud_line(ls, h);
            assert forall|k: int| 0 <= k < h implies !text::begins(#[trigger] out[k], PORT_CONFIG@) by {
                assert(out[k] == ls[k]);
                assert(!is_header(ls)(k));
            }
            assert(out[h] == ls[h]);
            if i < end {
                assert(!heads_at(ls)(i));
                assert(baud_key_at(ls)(i));
                lemma_indent(ls[i]);
                lemma_trimmed_start(ls[i]);
                assert forall|k: int| h < k < i implies !heads(#[trigger] out[k]) by {
                    assert(out[k] == ls[k]);
                    assert(!heads_at(ls)(k));
                }
                assert forall|k: int| h < k < i implies !text::begins(
                    text::trimmed(#[trigger] out[k]),
                    BAUDRATE@,
                ) by {
                    assert(out[k] == ls[k]);
                    assert(!baud_key_at(ls)(k));
                    lemma_begins_trimmed_end(text::trimmed_start(ls[k]), BAUDRATE@);
                }
                lemma_baud_at(out, h, i, indent(ls[i]), baud);
                assert(!out[i].contains('\n')) by {
                    let s = out[i];
                    if s.contains('\n') {
                        let k = choose|k: int| 0 <= k < s.len() && s[k] == '\n';
                        if k < indent(ls[i]).len() {
                            assert(ls[i][k] == '\n');
                        } else {
                            assert(setting(baud)[k - indent(ls[i]).len()] == '\n');
                        }
                    }
                }
                assert forall|k: int| 0 <= k < out.len() implies !(#[trigger] out[k]).contains('\n') by {
                    if k != i {
                        assert(out[k] == ls[k]);
                    }
                }
            } else {
                lemma_baud_at(out, h, h + 1, gap, baud);
                assert forall|k: int| 0 <= k < out.len() implies !(#[trigger] out[k]).contains('\n') by {
                    if k <= h {
                        assert(out[k] == ls[k]);
                    } else if k > h + 1 {
                        assert(out[k] == ls[k - 1]);
                    }
                }
            }
        },
    }
}

/// Whatever a `sketch.yaml` read before, once the baud rate is set it is the baud
/// rate that is read back, and setting it again is not needed.
pub proof fn law_baud_reads_back(yaml: Seq<char>, baud: u32)
    ensures
        baud_of(text::lines(text::unlines(with_baud(text::lines(yaml), baud)))) == Some(
            baud as nat,
        ),
{
    let ls = text::lines(yaml);
    lemma_lines_unbroken(yaml);
    lemma_baud_of_with_baud(ls, baud);
    lemma_lines_of_unlines(with_baud(ls, baud));
    lemma_baud_of_chomped(with_baud(ls, baud));
}

/// No line ends with a carriage return.
pub open spec fn unreturned(ls: Seq<Seq<char>>) -> bool {
    forall|i: int| 0 <= i < ls.len() && (#[trigger] ls[i]).len() > 0 ==> ls[i].last() != '\r'
}

/// Setting another rate where one was set by `with_baud` replaces it alone.
proof fn lemma_with_baud_again(ls: Seq<Seq<char>>, a: u32, b: u32)
    requires
        !baud_is_inline(ls),
    ensures
        !baud_is_inline(with_baud(ls, a)),
        with_baud(with_baud(ls, a), b) == with_baud(ls, b),
{
    reveal_strlit("  ");
    reveal_strlit("baudrate: ");
    reveal_strlit("baudrate:");
    reveal_strlit("default_port_config:");
    let n = ls.len() as int;
    let w = with_baud(ls, a);
    let m = w.len() as int;
    let two = "  "@;
    lemma_setting(two, a);
    assert(setting(a).subrange(0, 9) =~= BAUDRATE@);
    lists::lemma_seek(0, n, is_header(ls));
    lists::lemma_seek(0, m, is_header(w));
    match header(ls) {
        None => {
            assert(w[n] == PORT_CONFIG@ && w[n + 1] == two + setting(a));
            assert(PORT_CONFIG@.subrange(0, PORT_CONFIG@.len() as int) =~= PORT_CONFIG@);
            assert forall|k: int| 0 <= k < n implies !text::begins(#[trigger] w[k], PORT_CONFIG@) by {
                assert(w[k] == ls[k]);
                assert(!is_header(ls)(k));
            }
            lemma_header_at(w, n);
            let rest = PORT_CONFIG@.skip(PORT_CONFIG@.len() as int);
            assert(rest =~= Seq::<char>::empty());
            text::lemma_first(rest, '#', 0);
            assert(text::before(rest, '#') =~= Seq::<char>::empty());
            lemma_baud_line_at(w, n, n + 1);
            assert(with_baud(w, b) =~= with_baud(ls, b));
        },
        Some(h) => {
            let end = block_end(ls, h);
            lists::lemma_seek(h + 1, n, heads_at(ls));
            lists::lemma_seek(h + 1, end, baud_key_at(ls));
            let i = baud_line(ls, h);
            assert(is_header(ls)(h));
            assert(w[h] == ls[h]);
            assert forall|k: int| 0 <= k < h implies !text::begins(#[trigger] w[k], PORT_CONFIG@) by {
                assert(w[k] == ls[k]);
                assert(!is_header(ls)(k));
            }
            lemma_header_at(w, h);
            if i < end {
                let gap = indent(ls[i]);
                assert(!heads_at(ls)(i));
                assert(baud_key_at(ls)(i));
                lemma_indent(ls[i]);
                lemma_setting(gap, a);
                assert forall|k: int| h < k < i implies !heads(#[trigger] w[k]) && !text::begins(
                    text::trimmed_start(w[k]),
                    BAUDRATE@,
                ) by {
                    assert(w[k] == ls[k]);
                    assert(!heads_at(ls)(k));
                    assert(!baud_key_at(ls)(k));
                }
                lemma_baud_line_at(w, h, i);
                assert(with_baud(w, b) =~= with_baud(ls, b));
            } else {
                lemma_baud_line_at(w, h, h + 1);
                assert(with_baud(w, b) =~= with_baud(ls, b));
            }
        },
    }
}

/// The first line that starts the entry is its header.
proof fn lemma_header_at(ls: Seq<Seq<char>>, h: int)
    requires
        0 <= h < ls.len(),
        text::begins(ls[h], PORT_CONFIG@),
        forall|k: int| 0 <= k < h ==> !text::begins(#[trigger] ls[k], PORT_CONFIG@),
    ensures
        header(ls) == Some(h),
{
    let p = is_header(ls);
    lists::lemma_seek(0, ls.len() as int, p);
    let f = lists::seek(0, ls.len() as int, p);
    assert(p(h));
    if f < h {
        assert(p(f));
        assert(!text::begins(ls[f], PORT_CONFIG@));
    }
}

/// The first line of the entry that names the baud rate is its baud line.
proof fn lemma_baud_line_at(ls: Seq<Seq<char>>, h: int, i: int)
    requires
        0 <= h < i < ls.len(),
        forall|k: int| h < k < i ==> !heads(#[trigger] ls[k]) && !text::begins(
            text::trimmed_start(ls[k]),
            BAUDRATE@,
        ),
        !heads(ls[i]),
        text::begins(text::trimmed_start(ls[i]), BAUDRATE@),
    ensures
        baud_line(ls, h) == i,
        i < block_end(ls, h),
{
    let (q, k) = (heads_at(ls), baud_key_at(ls));
    let end = block_end(ls, h);
    lists::lemma_seek(h + 1, ls.len() as int, q);
    if end <= i {
        assert(q(end));
        assert(!heads(ls[end]));
    }
    lists::lemma_seek(h + 1, end, k);
    let f = baud_line(ls, h);
    assert(k(i));
    if f < i {
        assert(k(f));
        assert(!heads(ls[f]));
    }
}

/// Text without carriage returns has no line that ends with one, before and after
/// its baud rate is set.
pub proof fn lemma_unreturned(yaml: Seq<char>, baud: u32)
    requires
        !yaml.contains('\r'),
    ensures
        unreturned(text::lines(yaml)),
        unreturned(with_baud(text::lines(yaml), baud)),
{
    let ls = text::lines(yaml);
    lemma_lines_hold(yaml);
    assert forall|i: int| 0 <= i < ls.len() && (#[trigger] ls[i]).len() > 0 implies ls[i].last()
        != '\r' by {
        assert(yaml.contains(ls[i][ls[i].len() - 1]));
    }
    lemma_with_baud_unreturned(ls, baud);
}

/// Every character of a line is one of the text.
proof fn lemma_lines_hold(s: Seq<char>)
    ensures
        forall|i: int, k: int|
            0 <= i < text::lines(s).len() && 0 <= k < text::lines(s)[i].len() ==> s.contains(
                #[trigger] text::lines(s)[i][k],
            ),
    decreases s.len(),
{
    text::lemma_first(s, '\n', 0);
    let n = text::first(s, '\n', 0);
    let ls = text::lines(s);
    if s.len() > 0 && n < s.len() {
        let tail = s.skip(n + 1);
        lemma_lines_hold(tail);
        assert forall|i: int, k: int| 0 <= i < ls.len() && 0 <= k < ls[i].len() implies s.contains(
            #[trigger] ls[i][k],
        ) by {
            if i == 0 {
                assert(s[k] == ls[i][k]);
            } else {
                assert(ls[i] == text::lines(tail)[i - 1]);
                let c = text::lines(tail)[i - 1][k];
                let m = choose|m: int| 0 <= m < tail.len() && tail[m] == c;
                assert(s[n + 1 + m] == c);
            }
        }
    } else if s.len() > 0 {
        assert forall|i: int, k: int| 0 <= i < ls.len() && 0 <= k < ls[i].len() implies s.contains(
            #[trigger] ls[i][k],
        ) by {
            assert(s[k] == ls[i][k]);
        }
    }
}

proof fn lemma_with_baud_unreturned(ls: Seq<Seq<char>>, baud: u32)
    requires
        unreturned(ls),
    ensures
        unreturned(with_baud(ls, baud)),
{
    reveal_strlit("  ");
    reveal_strlit("default_port_config:");
    text::lemma_decimal(baud as nat);
    let d = text::decimal(baud as nat);
    let out = with_baud(ls, baud);
    let n = ls.len() as int;
    assert(text::is_digit(d[d.len() - 1]));
    assert(setting(baud).last() == d[d.len() - 1]);
    lists::lemma_seek(0, n, is_header(ls));
    match header(ls) {
        None => {
            assert forall|k: int| 0 <= k < out.len() && (#[trigger] out[k]).len() > 0 implies
                out[k].last() != '\r' by {
                if k < n {
                    assert(out[k] == ls[k]);
                }
            }
        },
        Some(h) => {
            lists::lemma_seek(h + 1, n, heads_at(ls));
            lists::lemma_seek(h + 1, block_end(ls, h), baud_key_at(ls));
            let i = baud_line(ls, h);
            assert forall|k: int| 0 <= k < out.len() && (#[trigger] out[k]).len() > 0 implies
                out[k].last() != '\r' by {
                if i < block_end(ls, h) {
                    if k != i {
                        assert(out[k] == ls[k]);
                    }
                } else if k <= h {
                    assert(out[k] == ls[k]);
                } else if k > h + 1 {
                    assert(out[k] == ls[k - 1]);
                }
            }
        },
    }
}

/// The last rate that is set wins, and no trace of the one before is left; setting
/// the same rate again changes nothing.
pub proof fn law_last_baud_wins(yaml: Seq<char>, a: u32, b: u32)
    requires
        !baud_is_inline(text::lines(yaml)),
        unreturned(with_baud(text::lines(yaml), a)),
    ensures
        ({
            let x = text::unlines(with_baud(text::lines(yaml), a));
            &&& !baud_is_inline(text::lines(x))
            &&& text::unlines(with_baud(text::lines(x), b)) == text::unlines(
                with_baud(text::lines(yaml), b),
            )
            &&& text::unlines(with_baud(text::lines(x), a)) == x
        }),
{
    let ls = text::lines(yaml);
    let w = with_baud(ls, a);
    lemma_lines_unbroken(yaml);
    lemma_baud_of_with_baud(ls, a);
    lemma_lines_of_unlines(w);
    assert forall|i: int| 0 <= i < w.len() implies text::chomped(#[trigger] w[i]) == w[i] by {}
    assert(chomped_all(w) =~= w);
    lemma_with_baud_again(ls, a, b);
    lemma_with_baud_again(ls, a, a);
}

// -- what holds of what is read --

/// The line is not indented, no comment, and not blank.
pub open spec fn own_entry(l: Seq<char>) -> bool {
    &&& l.len() > 0
    &&& l[0] != ' '
    &&& l[0] != '\t'
    &&& l[0] != '#'
    &&& exists|i: int| 0 <= i < l.len() && !text::white(#[trigger] l[i])
}

/// A line starts an entry exactly where it is not indented, no comment and not
/// blank.
pub proof fn law_entries(l: Seq<char>)
    ensures
        heads(l) <==> own_entry(l),
{
    text::law_blank(l);
}

/// The text after a key is its value, without the blanks around it, a comment
/// behind it and the quotes around it.
pub proof fn law_values_are_bare(
    a: Seq<char>,
    v: Seq<char>,
    b: Seq<char>,
    comment: Seq<char>,
)
    requires
        forall|i: int| 0 <= i < a.len() ==> text::white(#[trigger] a[i]),
        forall|i: int| 0 <= i < b.len() ==> text::white(#[trigger] b[i]),
        v.len() > 0,
        forall|i: int| 0 <= i < v.len() ==> #[trigger] v[i] != '#',
        !text::white(v[0]) && v[0] != '"' && v[0] != '\'',
        !text::white(v.last()) && v.last() != '"' && v.last() != '\'',
    ensures
        bare(a + v + b) == v,
        bare(a + v + b + seq!['#'] + comment) == v,
        bare(a + (seq!['"'] + v + seq!['"']) + b) == v,
        bare(a + (seq!['\''] + v + seq!['\'']) + b + seq!['#'] + comment) == v,
{
    lemma_bare_word(a, v, b, comment);
    assert(unquoted_start(v) == v && unquoted_end(v) == v);
    let q = seq!['"'] + v + seq!['"'];
    let r = seq!['\''] + v + seq!['\''];
    lemma_bare_word(a, q, b, comment);
    lemma_bare_word(a, r, b, comment);
    lemma_unquoted(v, '"');
    lemma_unquoted(v, '\'');
}

proof fn lemma_unquoted(v: Seq<char>, c: char)
    requires
        c == '"' || c == '\'',
        v.len() > 0,
        !quote(v[0]),
        !quote(v.last()),
    ensures
        unquoted_end(unquoted_start(seq![c] + v + seq![c])) == v,
{
    let q = seq![c] + v + seq![c];
    assert(q.drop_first() =~= v + seq![c]);
    let t = v + seq![c];
    assert(t[0] == v[0]);
    assert(unquoted_start(t) == t);
    assert(unquoted_start(q) == t);
    assert(t.drop_last() =~= v);
    assert(t.last() == c);
    assert(unquoted_end(v) == v);
}

proof fn lemma_bare_word(a: Seq<char>, v: Seq<char>, b: Seq<char>, comment: Seq<char>)
    requires
        forall|i: int| 0 <= i < a.len() ==> text::white(#[trigger] a[i]),
        forall|i: int| 0 <= i < b.len() ==> text::white(#[trigger] b[i]),
        v.len() > 0,
        forall|i: int| 0 <= i < v.len() ==> #[trigger] v[i] != '#',
        !text::white(v[0]),
        !text::white(v.last()),
    ensures
        bare(a + v + b) == unquoted_end(unquoted_start(v)),
        bare(a + v + b + seq!['#'] + comment) == unquoted_end(unquoted_start(v)),
{
    let s = a + v + b;
    assert forall|i: int| 0 <= i < s.len() implies s[i] != '#' by {
        if i < a.len() {
            assert(s[i] == a[i]);
        } else if i < a.len() + v.len() {
            assert(s[i] == v[i - a.len()]);
        } else {
            assert(s[i] == b[i - a.len() - v.len()]);
        }
    }
    text::law_before(s, '#', comment);
    lemma_trimmed_word(a, v, b);
}

proof fn lemma_trimmed_word(a: Seq<char>, v: Seq<char>, b: Seq<char>)
    requires
        forall|i: int| 0 <= i < a.len() ==> text::white(#[trigger] a[i]),
        forall|i: int| 0 <= i < b.len() ==> text::white(#[trigger] b[i]),
        v.len() > 0,
        !text::white(v[0]),
        !text::white(v.last()),
    ensures
        text::trimmed(a + v + b) == v,
{
    let s = a + v + b;
    let t = text::trimmed_start(s);
    text::law_trimmed_start(s);
    let k = s.len() - t.len();
    assert(s[a.len() as int] == v[0]);
    assert(k <= a.len()) by {
        if k > a.len() {
            assert(text::white(s[a.len() as int]));
        }
    }
    assert(k >= a.len()) by {
        if k < a.len() {
            assert(t[0] == s[k]);
            assert(s[k] == a[k]);
        }
    }
    assert(t =~= v + b);
    text::law_trimmed_end(t);
    let u = text::trimmed_end(t);
    assert(u.len() >= v.len()) by {
        if u.len() < v.len() {
            assert(t[v.len() - 1] == v.last());
            assert(text::white(t[v.len() - 1]));
        }
    }
    assert(u.len() <= v.len()) by {
        if u.len() > v.len() {
            assert(u.last() == t[u.len() - 1]);
            assert(t[u.len() - 1] == b[u.len() - 1 - v.len()]);
        }
    }
    assert(u =~= v);
}

/// The value of a key is what stands behind it on the first line of its own that
/// begins with it, where that is not empty.
pub proof fn law_the_first_entry_is_read(yaml: Seq<char>, key: Seq<char>, i: int)
    ensures
        ({
            let ls = text::lines(yaml);
            &&& 0 <= i < ls.len() && own_entry(ls[i]) && text::begins(ls[i], key) && (forall|k: int|
                0 <= k < i ==> !(own_entry(#[trigger] ls[k]) && text::begins(ls[k], key))) ==> {
                let v = bare(ls[i].skip(key.len() as int));
                if v.len() > 0 {
                    value_at(yaml, key) == Some(v)
                } else {
                    value_at(yaml, key) is None
                }
            }
            &&& (forall|k: int|
                0 <= k < ls.len() ==> !(own_entry(#[trigger] ls[k]) && text::begins(ls[k], key)))
                ==> value_at(yaml, key) is None
        }),
{
    let ls = text::lines(yaml);
    let n = ls.len() as int;
    let p = heads_key(ls, key);
    lists::lemma_seek(0, n, p);
    let f = lists::seek(0, n, p);
    if f < n {
        assert(p(f));
        law_entries(ls[f]);
    }
    if 0 <= i < n {
        law_entries(ls[i]);
        if own_entry(ls[i]) && text::begins(ls[i], key) {
            assert(p(i));
        }
    }
}

/// Line `i` is one of the entry that sets up the port, which starts at line `h`,
/// and says a rate.
pub open spec fn says_rate(ls: Seq<Seq<char>>, h: int, i: int) -> bool {
    &&& 0 <= h < i < ls.len()
    &&& own_entry(ls[h])
    &&& text::begins(ls[h], "default_port_config:"@)
    &&& forall|k: int| h < k <= i ==> !own_entry(#[trigger] ls[k])
    &&& text::begins(text::trimmed(ls[i]), "baudrate:"@)
}

/// The rate that is read is the one on the first line that says one in an entry
/// that sets up the port. What other lines say does not count.
pub proof fn law_the_rate_of_the_port_is_read(ls: Seq<Seq<char>>, h: int, i: int)
    ensures
        says_rate(ls, h, i) && (forall|g: int, k: int| k < i ==> !#[trigger] says_rate(ls, g, k))
            ==> baud_of(ls) == text::parsed(
            bare(text::trimmed(ls[i]).skip("baudrate:"@.len() as int)),
            u32::MAX as nat,
        ),
        (forall|g: int, k: int| !#[trigger] says_rate(ls, g, k)) ==> baud_of(ls) is None,
{
    let n = ls.len() as int;
    let p = sets_baud(ls);
    lists::lemma_seek(0, n, p);
    let f = lists::seek(0, n, p);
    if f < n {
        assert(p(f));
        let g = lemma_block_start(ls, f);
        law_entries(ls[f]);
        assert(says_rate(ls, g, f));
    }
    if says_rate(ls, h, i) {
        lemma_inside(ls, h, i);
        law_entries(ls[i]);
        assert(p(i));
    }
}

proof fn lemma_block_start(ls: Seq<Seq<char>>, i: int) -> (h: int)
    requires
        in_block(ls, i),
    ensures
        0 <= h < i,
        own_entry(ls[h]),
        text::begins(ls[h], "default_port_config:"@),
        forall|k: int| h < k < i ==> !own_entry(#[trigger] ls[k]),
    decreases i,
{
    law_entries(ls[i - 1]);
    if heads(ls[i - 1]) {
        i - 1
    } else {
        lemma_block_start(ls, i - 1)
    }
}

proof fn lemma_inside(ls: Seq<Seq<char>>, h: int, i: int)
    requires
        0 <= h < i,
        own_entry(ls[h]),
        text::begins(ls[h], "default_port_config:"@),
        forall|k: int| h < k < i ==> !own_entry(#[trigger] ls[k]),
    ensures
        in_block(ls, i),
    decreases i,
{
    law_entries(ls[i - 1]);
    if i - 1 > h {
        lemma_inside(ls, h, i - 1);
    }
}

// -- what holds of what is set --

/// Line `h` is the first that begins the entry that sets up the port.
pub open spec fn first_config(ls: Seq<Seq<char>>, h: int) -> bool {
    &&& 0 <= h < ls.len()
    &&& text::begins(ls[h], "default_port_config:"@)
    &&& forall|k: int| 0 <= k < h ==> !text::begins(#[trigger] ls[k], "default_port_config:"@)
}

/// Line `i` is the first of the lines under line `h` that says a rate.
pub open spec fn first_rate(ls: Seq<Seq<char>>, h: int, i: int) -> bool {
    &&& h < i < ls.len()
    &&& forall|k: int| h < k <= i ==> !own_entry(#[trigger] ls[k])
    &&& text::begins(text::trimmed_start(ls[i]), "baudrate:"@)
    &&& forall|k: int|
        h < k < i ==> !text::begins(text::trimmed_start(#[trigger] ls[k]), "baudrate:"@)
}

proof fn lemma_header_is(ls: Seq<Seq<char>>, h: int)
    ensures
        first_config(ls, h) ==> header(ls) == Some(h),
        header(ls) matches Some(g) ==> first_config(ls, g),
{
    let n = ls.len() as int;
    let p = is_header(ls);
    lists::lemma_seek(0, n, p);
    let f = lists::seek(0, n, p);
    if f < n {
        assert(p(f));
        assert forall|k: int| 0 <= k < f implies !text::begins(
            #[trigger] ls[k],
            "default_port_config:"@,
        ) by {
            assert(!p(k));
        }
    }
    if first_config(ls, h) {
        assert(p(h));
    }
}

/// Where the entry says a rate, its line says the new one and keeps its blanks in
/// front; where it says none, a line under it does; where there is no entry, one
/// is added at the end. No other line changes.
pub proof fn law_the_rate_is_set(ls: Seq<Seq<char>>, baud: u32, h: int, i: int, gap: int)
    ensures
        first_config(ls, h) && first_rate(ls, h, i) && 0 <= gap < ls[i].len() && !text::white(
            ls[i][gap],
        ) && (forall|k: int| 0 <= k < gap ==> text::white(#[trigger] ls[i][k])) ==> with_baud(
            ls,
            baud,
        ) == ls.update(i, ls[i].take(gap) + ("baudrate: "@ + text::decimal(baud as nat))),
        first_config(ls, h) && (forall|k: int| !#[trigger] first_rate(ls, h, k)) ==> with_baud(
            ls,
            baud,
        ) == ls.insert(h + 1, "  "@ + ("baudrate: "@ + text::decimal(baud as nat))),
        (forall|k: int| !#[trigger] first_config(ls, k)) ==> with_baud(ls, baud) == ls + seq![
            "default_port_config:"@,
            "  "@ + ("baudrate: "@ + text::decimal(baud as nat)),
        ],
{
    let n = ls.len() as int;
    lemma_header_is(ls, h);
    if first_config(ls, h) {
        let e = block_end(ls, h);
        let p = baud_key_at(ls);
        lists::lemma_seek(h + 1, n, heads_at(ls));
        lists::lemma_seek(h + 1, e, p);
        let f = baud_line(ls, h);
        if f < e {
            assert(p(f));
            assert forall|k: int| h < k <= f implies !own_entry(#[trigger] ls[k]) by {
                assert(!heads_at(ls)(k));
                law_entries(ls[k]);
            }
            assert forall|k: int| h < k < f implies !text::begins(
                text::trimmed_start(#[trigger] ls[k]),
                "baudrate:"@,
            ) by {
                assert(!p(k));
            }
            assert(first_rate(ls, h, f));
        }
        if first_rate(ls, h, i) {
            if e <= i {
                assert(heads_at(ls)(e));
                law_entries(ls[e]);
            }
            assert(p(i));
            assert(f <= i);
            if f < i {
                assert(p(f));
            }
            if 0 <= gap < ls[i].len() && !text::white(ls[i][gap]) && (forall|k: int|
                0 <= k < gap ==> text::white(#[trigger] ls[i][k])) {
                lemma_gap(ls[i], gap);
            }
        }
    } else if forall|k: int| !#[trigger] first_config(ls, k) {
        assert(header(ls) is None);
        assert(with_baud(ls, baud) =~= ls + seq![
            "default_port_config:"@,
            "  "@ + ("baudrate: "@ + text::decimal(baud as nat)),
        ]);
    }
}

proof fn lemma_gap(l: Seq<char>, gap: int)
    requires
        0 <= gap < l.len(),
        !text::white(l[gap]),
        forall|k: int| 0 <= k < gap ==> text::white(#[trigger] l[k]),
    ensures
        indent(l) == l.take(gap),
{
    let t = text::trimmed_start(l);
    text::law_trimmed_start(l);
    let k = l.len() - t.len();
    if k > gap {
        assert(text::white(l[gap]));
    }
    if k < gap {
        assert(t[0] == l[k]);
    }
}

/// The rate has to be set by hand exactly where something other than a comment
/// stands behind the key of the entry.
pub proof fn law_inline_entries_are_left_alone(ls: Seq<Seq<char>>, h: int)
    ensures
        first_config(ls, h) ==> (baud_is_inline(ls) <==> exists|i: int|
            "default_port_config:"@.len() <= i < ls[h].len() && !text::white(#[trigger] ls[h][i])
                && forall|k: int| "default_port_config:"@.len() <= k <= i ==> ls[h][k] != '#'),
        (forall|k: int| !#[trigger] first_config(ls, k)) ==> !baud_is_inline(ls),
{
    lemma_header_is(ls, h);
    if first_config(ls, h) {
        let m = "default_port_config:"@.len() as int;
        let l = ls[h];
        let rest = l.skip(m);
        let b = text::before(rest, '#');
        text::lemma_first(rest, '#', 0);
        text::law_blank(b);
        if baud_is_inline(ls) {
            let i = choose|i: int| 0 <= i < b.len() && !text::white(#[trigger] b[i]);
            assert(l[m + i] == b[i]);
            assert forall|k: int| m <= k <= m + i implies l[k] != '#' by {
                assert(rest[k - m] == l[k]);
            }
        }
        if exists|i: int|
            m <= i < l.len() && !text::white(#[trigger] l[i]) && forall|k: int|
                m <= k <= i ==> l[k] != '#' {
            let i = choose|i: int|
                m <= i < l.len() && !text::white(#[trigger] l[i]) && forall|k: int|
                    m <= k <= i ==> l[k] != '#';
            if b.len() <= i - m {
                assert(rest[b.len() as int] == '#');
                assert(l[m + b.len()] == '#');
            }
            assert(b[i - m] == l[i]);
        }
    }
}

// -- what holds of paths --

/// A path means the folder that it leads to, or the one around the file that it
/// leads to, where that folder holds the file of its own name.
pub proof fn law_paths_lead_to_sketches(path: Seq<char>, r: Resolved)
    ensures
        found(path, None) == Err::<Spot, Seq<char>>(path + " not found"@),
        !r.is_file && r.itself.name is Some && r.itself.has_main ==> found(path, Some(r)) == Ok::<
            Spot,
            Seq<char>,
        >(Spot::Itself),
        !r.is_file && r.itself.name is Some && !r.itself.has_main ==> found(path, Some(r)) == Err::<
            Spot,
            Seq<char>,
        >("no sketch: "@ + r.itself.shown@ + " has no "@ + (r.itself.name->0@ + ".ino"@)),
        !r.is_file && r.itself.name is None ==> found(path, Some(r)) == Err::<Spot, Seq<char>>(
            "sketch folder has no name"@,
        ),
        r.is_file && r.parent is None ==> found(path, Some(r)) == Err::<Spot, Seq<char>>(
            "sketch has no parent folder"@,
        ),
        r.is_file && r.parent is Some && r.parent->0.name is Some && r.parent->0.has_main ==> found(
            path,
            Some(r),
        ) == Ok::<Spot, Seq<char>>(Spot::Parent),
        r.is_file && r.parent is Some && r.parent->0.name is Some && !r.parent->0.has_main
            ==> found(path, Some(r)) == Err::<Spot, Seq<char>>(
            "no sketch: "@ + r.parent->0.shown@ + " has no "@ + (r.parent->0.name->0@ + ".ino"@),
        ),
        r.is_file && r.parent is Some && r.parent->0.name is None ==> found(path, Some(r)) == Err::<
            Spot,
            Seq<char>,
        >("sketch folder has no name"@),
{
}

/// A sketch is a loose file exactly where its path ends as such files do.
pub proof fn law_loose_sketches(rel: Seq<char>, stem: Seq<char>)
    ensures
        !folder(stem + ".ino"@),
        !folder(rel) ==> rel == rel.take(rel.len() - ".ino"@.len()) + ".ino"@,
{
    let s = stem + ".ino"@;
    assert(s.subrange(s.len() - ".ino"@.len(), s.len() as int) =~= ".ino"@);
    text::law_parted(rel, ".ino"@);
}

} // verus!
