//! A pane of the serial monitor: the lines that a board has sent.
use vstd::prelude::*;
use vstd::string::*;

use crate::lists::{lemma_filter_take, push_item};
use crate::text;

verus! {

/// How many lines a pane keeps.
pub const SERIAL_CAP: usize = 5000;

/// An open connection to a board.
#[derive(Debug)]
pub struct Link {
    pub port: String,
    pub id: u64,
}

#[verifier::ext_equal]
pub struct LinkView {
    pub port: Seq<char>,
    pub id: int,
}

impl DeepView for Link {
    type V = LinkView;

    open spec fn deep_view(&self) -> LinkView {
        LinkView { port: self.port@, id: self.id as int }
    }
}

#[derive(Debug)]
pub struct Pane {
    pub lines: Vec<String>,
    pub scroll: usize,
    pub baud: u32,
    pub link: Option<Link>,
}

#[verifier::ext_equal]
pub struct PaneView {
    pub lines: Seq<Seq<char>>,
    pub scroll: int,
    pub baud: u32,
    pub link: Option<LinkView>,
}

impl DeepView for Pane {
    type V = PaneView;

    open spec fn deep_view(&self) -> PaneView {
        PaneView {
            lines: self.lines.deep_view(),
            scroll: self.scroll as int,
            baud: self.baud,
            link: self.link.deep_view(),
        }
    }
}

// -- what arrives --

/// The characters that reach a pane: line feeds, and all that are no controls.
pub open spec fn shown() -> spec_fn(char) -> bool {
    |c: char| c == '\n' || !text::control(c)
}

pub open spec fn feeds() -> spec_fn(char) -> bool {
    |c: char| c == '\n'
}

/// How many line feeds a chunk holds.
pub open spec fn newlines(chunk: Seq<char>) -> nat {
    chunk.filter(feeds()).len()
}

/// `parts` written on from the end of the last line: the first goes on with it,
/// each other is a line of its own.
pub open spec fn glue(lines: Seq<Seq<char>>, parts: Seq<Seq<char>>) -> Seq<Seq<char>> {
    lines.drop_last().push(lines.last() + parts[0]) + parts.drop_first()
}

/// Lines with one to write on.
pub open spec fn opened(lines: Seq<Seq<char>>) -> Seq<Seq<char>> {
    if lines.len() == 0 {
        seq![Seq::<char>::empty()]
    } else {
        lines
    }
}

/// The last lines, as many as a pane keeps.
pub open spec fn capped(lines: Seq<Seq<char>>) -> Seq<Seq<char>> {
    if lines.len() > SERIAL_CAP {
        lines.skip(lines.len() - SERIAL_CAP)
    } else {
        lines
    }
}

impl PaneView {
    /// The pane after a chunk has arrived: what is shown of it goes on where the
    /// lines end, and a scrolled pane stays where it is.
    pub open spec fn push(self, chunk: Seq<char>) -> PaneView {
        PaneView {
            lines: capped(glue(opened(self.lines), text::split(chunk.filter(shown()), '\n'))),
            scroll: if self.scroll > 0 {
                self.scroll + newlines(chunk)
            } else {
                self.scroll
            },
            ..self
        }
    }

    /// The pane after a note: on a line of its own, the next one started.
    pub open spec fn note(self, note: Seq<char>) -> PaneView {
        let fresh = if self.lines.len() > 0 && self.lines.last().len() > 0 {
            self.push("\n"@)
        } else {
            self
        };
        fresh.push(note + "\n"@)
    }

    /// The scroll position stays a machine number when `n` lines more arrive.
    pub open spec fn room(self, n: int) -> bool {
        self.scroll > 0 ==> self.scroll + n <= usize::MAX
    }
}

// -- splitting what arrives --

pub proof fn lemma_split_len(s: Seq<char>, c: char)
    ensures
        text::split(s, c).len() > 0,
    decreases s.len(),
{
}

/// Splitting two texts in one is splitting each, the parts glued together.
proof fn lemma_split_add(a: Seq<char>, b: Seq<char>, c: char)
    ensures
        text::split(a + b, c) == glue(text::split(a, c), text::split(b, c)),
    decreases a.len(),
{
    let s = a + b;
    let (sa, sb) = (text::split(a, c), text::split(b, c));
    text::lemma_first(a, c, 0);
    text::lemma_first(b, c, 0);
    let (n, m) = (text::first(a, c, 0), text::first(b, c, 0));
    if n < a.len() {
        text::lemma_first_is(s, c, 0, n);
        assert(s.take(n) =~= a.take(n));
        assert(s.skip(n + 1) =~= a.skip(n + 1) + b);
        lemma_split_add(a.skip(n + 1), b, c);
        let rest = text::split(a.skip(n + 1), c);
        lemma_split_len(a.skip(n + 1), c);
        assert(sa == seq![a.take(n)] + rest);
        assert(seq![a.take(n)] + glue(rest, sb) =~= glue(seq![a.take(n)] + rest, sb));
    } else {
        assert(sa == seq![a]);
        assert forall|i: int| 0 <= i < a.len() + m implies s[i] != c by {
            if i >= a.len() {
                assert(s[i] == b[i - a.len()]);
            }
        }
        text::lemma_first_is(s, c, 0, a.len() + m);
        if m < b.len() {
            assert(s.take(a.len() + m) =~= a + b.take(m));
            assert(s.skip(a.len() + m + 1) =~= b.skip(m + 1));
            assert(text::split(s, c) =~= glue(sa, sb));
        } else {
            assert(text::split(s, c) =~= glue(sa, sb));
        }
    }
}

proof fn lemma_split_one(x: char, c: char)
    ensures
        x == c ==> text::split(seq![x], c) == seq![Seq::<char>::empty(), Seq::<char>::empty()],
        x != c ==> text::split(seq![x], c) == seq![seq![x]],
{
    let s = seq![x];
    if x == c {
        text::lemma_first_is(s, c, 0, 0);
        assert(s.take(0) =~= Seq::<char>::empty());
        assert(s.skip(1) =~= Seq::<char>::empty());
        text::lemma_first_is(Seq::<char>::empty(), c, 0, 0);
        assert(text::split(Seq::<char>::empty(), c) == seq![Seq::<char>::empty()]);
        assert(text::split(s, c) =~= seq![Seq::<char>::empty(), Seq::<char>::empty()]);
    } else {
        text::lemma_first_is(s, c, 0, 1);
    }
}

proof fn lemma_glue_glue(l: Seq<Seq<char>>, a: Seq<Seq<char>>, b: Seq<Seq<char>>)
    requires
        l.len() > 0,
        a.len() > 0,
        b.len() > 0,
    ensures
        glue(glue(l, a), b) == glue(l, glue(a, b)),
{
    if a.len() == 1 {
        assert(l.last() + (a[0] + b[0]) =~= (l.last() + a[0]) + b[0]);
    }
    assert(glue(glue(l, a), b) =~= glue(l, glue(a, b)));
}

/// Writing one more character.
proof fn lemma_glue_push(l: Seq<Seq<char>>, s: Seq<char>, x: char)
    requires
        l.len() > 0,
    ensures
        glue(l, text::split(s, '\n')).len() > 0,
        x == '\n' ==> glue(l, text::split(s.push(x), '\n')) == glue(l, text::split(s, '\n')).push(
            Seq::<char>::empty(),
        ),
        x != '\n' ==> glue(l, text::split(s.push(x), '\n')) == ({
            let g = glue(l, text::split(s, '\n'));
            g.update(g.len() - 1, g.last().push(x))
        }),
{
    lemma_split_len(s, '\n');
    lemma_split_add(s, seq![x], '\n');
    assert(s + seq![x] =~= s.push(x));
    lemma_split_one(x, '\n');
    let one = text::split(seq![x], '\n');
    lemma_glue_glue(l, text::split(s, '\n'), one);
    let g = glue(l, text::split(s, '\n'));
    if x == '\n' {
        assert(g.last() + Seq::<char>::empty() =~= g.last());
        assert(glue(g, one) =~= g.push(Seq::<char>::empty()));
    } else {
        assert(g.last() + seq![x] =~= g.last().push(x));
        assert(glue(g, one) =~= g.update(g.len() - 1, g.last().push(x)));
    }
}

impl Pane {
    /// A pane without lines, not connected.
    pub fn fresh(baud: u32) -> (r: Pane)
        ensures
            r.deep_view() == fresh_pane(baud),
    {
        let lines: Vec<String> = Vec::new();
        proof {
            crate::lists::lemma_empty(lines);
        }
        Pane { lines, scroll: 0, baud, link: None }
    }

    pub fn push(&mut self, chunk: &str)
        requires
            old(self).deep_view().room(newlines(chunk@) as int),
        ensures
            final(self).deep_view() == old(self).deep_view().push(chunk@),
    {
        let ghost o = self.deep_view();
        if self.lines.len() == 0 {
            push_item(&mut self.lines, String::new());
            assert(self.lines.deep_view() =~= opened(o.lines));
        }
        let chars = text::chars_of(chunk);
        proof {
            assert(chunk@.take(0).filter(shown()) =~= Seq::<char>::empty()) by {
                reveal(Seq::filter);
            }
            assert(chunk@.take(0).filter(feeds()).len() == 0) by {
                reveal(Seq::filter);
            }
            text::lemma_first_is(Seq::<char>::empty(), '\n', 0, 0);
            assert(glue(opened(o.lines), text::split(Seq::<char>::empty(), '\n')) =~= opened(
                o.lines,
            ));
        }
        for i in 0..chars.len()
            invariant
                chars@ == chunk@,
                o.room(newlines(chunk@) as int),
                self.link.deep_view() == o.link,
                self.baud == o.baud,
                self.scroll == (if o.scroll > 0 {
                    o.scroll + newlines(chunk@.take(i as int))
                } else {
                    o.scroll
                }),
                self.lines.deep_view() == glue(
                    opened(o.lines),
                    text::split(chunk@.take(i as int).filter(shown()), '\n'),
                ),
        {
            let c = chars[i];
            proof {
                let s = chunk@.take(i as int);
                lemma_filter_take(chunk@, shown(), i as int);
                lemma_filter_take(chunk@, feeds(), i as int);
                lemma_filter_take_le(chunk@, feeds(), i + 1);
                lemma_glue_push(opened(o.lines), s.filter(shown()), c);
            }
            if c == '\n' {
                push_item(&mut self.lines, String::new());
                if self.scroll > 0 {
                    self.scroll = self.scroll + 1;
                }
            } else if !text::is_control(c) {
                let last: usize = self.lines.len() - 1;
                let ghost was = self.lines.deep_view();
                self.lines[last].push(c);
                assert(self.lines.deep_view() =~= was.update(last as int, was[last as int].push(c)));
            }
        }
        assert(chunk@.take(chunk@.len() as int) =~= chunk@);
        if self.lines.len() > SERIAL_CAP {
            let cut: usize = self.lines.len() - SERIAL_CAP;
            let ghost was = self.lines.deep_view();
            let rest = self.lines.split_off(cut);
            self.lines = rest;
            assert(self.lines.deep_view() =~= capped(was));
        }
    }

    pub fn note(&mut self, note: &str)
        requires
            old(self).deep_view().room((newlines(note@) + 2) as int),
        ensures
            final(self).deep_view() == old(self).deep_view().note(note@),
    {
        proof {
            lemma_one_newline();
            Seq::filter_distributes_over_add(note@, "\n"@, feeds());
        }
        let n: usize = self.lines.len();
        assert(n > 0 ==> self.lines.deep_view().last() == self.lines@[n - 1]@);
        if n > 0 && !self.lines[n - 1].as_str().is_empty() {
            self.push("\n");
        }
        let text = text::cat2(note, "\n");
        self.push(text.as_str());
    }
}

pub open spec fn fresh_pane(baud: u32) -> PaneView {
    PaneView { lines: Seq::empty(), scroll: 0, baud, link: None }
}

proof fn lemma_one_newline()
    ensures
        newlines("\n"@) == 1,
{
    reveal_strlit("\n");
    reveal_with_fuel(Seq::filter, 2);
    assert("\n"@.drop_last() =~= Seq::<char>::empty());
}

proof fn lemma_filter_take_le(s: Seq<char>, p: spec_fn(char) -> bool, i: int)
    requires
        0 <= i <= s.len(),
    ensures
        s.take(i).filter(p).len() <= s.filter(p).len(),
{
    assert(s =~= s.take(i) + s.skip(i));
    Seq::filter_distributes_over_add(s.take(i), s.skip(i), p);
}

// -- what holds of a pane --

/// Chunks join into lines: what arrives in two pieces is shown as if it had come
/// in one.
pub proof fn law_chunks_join(p: PaneView, a: Seq<char>, b: Seq<char>)
    requires
        p.scroll >= 0,
    ensures
        p.push(a).push(b) == p.push(a + b),
{
    Seq::filter_distributes_over_add(a, b, shown());
    Seq::filter_distributes_over_add(a, b, feeds());
    let (fa, fb) = (a.filter(shown()), b.filter(shown()));
    let (sa, sb) = (text::split(fa, '\n'), text::split(fb, '\n'));
    lemma_split_len(fa, '\n');
    lemma_split_len(fb, '\n');
    lemma_split_add(fa, fb, '\n');
    let o = opened(p.lines);
    lemma_glue_glue(o, sa, sb);
    let g = glue(o, sa);
    let x = glue(g, sb);
    let k = if g.len() > SERIAL_CAP {
        g.len() - SERIAL_CAP
    } else {
        0
    };
    assert(capped(g) =~= g.skip(k));
    assert(glue(g.skip(k), sb) =~= x.skip(k));
    assert(capped(x.skip(k)) =~= capped(x));
    assert(p.push(a).push(b).lines =~= p.push(a + b).lines);
}

/// A pane never holds more lines than it keeps, and always one to write on.
pub proof fn law_pane_is_capped(p: PaneView, chunk: Seq<char>)
    ensures
        0 < p.push(chunk).lines.len() <= SERIAL_CAP,
{
    lemma_split_len(chunk.filter(shown()), '\n');
}

/// No control character stands in the lines.
pub open spec fn clean(lines: Seq<Seq<char>>) -> bool {
    forall|i: int, k: int|
        0 <= i < lines.len() && 0 <= k < lines[i].len() ==> !text::control(#[trigger] lines[i][k])
}

/// The parts of a text hold what the text holds, but for what it is split at.
proof fn lemma_split_parts(s: Seq<char>, c: char, i: int, k: int)
    requires
        0 <= i < text::split(s, c).len(),
        0 <= k < text::split(s, c)[i].len(),
    ensures
        text::split(s, c)[i][k] != c,
        s.contains(text::split(s, c)[i][k]),
    decreases s.len(),
{
    text::lemma_first(s, c, 0);
    let n = text::first(s, c, 0);
    if n < s.len() {
        let rest = s.skip(n + 1);
        if i == 0 {
            assert(text::split(s, c)[0] == s.take(n));
            assert(s[k] == s.take(n)[k]);
        } else {
            assert(text::split(s, c)[i] == text::split(rest, c)[i - 1]);
            lemma_split_parts(rest, c, i - 1, k);
            let x = text::split(rest, c)[i - 1][k];
            let m = choose|m: int| 0 <= m < rest.len() && rest[m] == x;
            assert(s[n + 1 + m] == x);
        }
    } else {
        assert(text::split(s, c)[i] == s);
        assert(s[k] == text::split(s, c)[i][k]);
    }
}

proof fn lemma_filter_passes(s: Seq<char>, p: spec_fn(char) -> bool, c: char)
    requires
        s.filter(p).contains(c),
    ensures
        p(c),
    decreases s.len(),
{
    reveal(Seq::filter);
    if s.len() > 0 {
        let fewer = s.drop_last().filter(p);
        let i = choose|i: int| 0 <= i < s.filter(p).len() && s.filter(p)[i] == c;
        if i < fewer.len() {
            assert(fewer[i] == c);
            lemma_filter_passes(s.drop_last(), p, c);
        }
    }
}

/// Whatever a board sends, no control character reaches its pane.
pub proof fn law_no_junk_on_a_pane(p: PaneView, chunk: Seq<char>)
    requires
        clean(p.lines),
    ensures
        clean(p.push(chunk).lines),
{
    let f = chunk.filter(shown());
    let parts = text::split(f, '\n');
    lemma_split_len(f, '\n');
    let o = opened(p.lines);
    let g = glue(o, parts);
    assert forall|i: int, k: int| 0 <= i < parts.len() && 0 <= k < parts[i].len() implies !text::control(
        #[trigger] parts[i][k],
    ) by {
        lemma_split_parts(f, '\n', i, k);
        lemma_filter_passes(chunk, shown(), parts[i][k]);
    }
    assert forall|i: int, k: int| 0 <= i < g.len() && 0 <= k < g[i].len() implies !text::control(
        #[trigger] g[i][k],
    ) by {
        if i < o.len() - 1 {
            assert(g[i] == p.lines[i]);
            assert(g[i][k] == p.lines[i][k]);
        } else if i == o.len() - 1 {
            assert(g[i] == o.last() + parts[0]);
            if k < o.last().len() {
                assert(g[i][k] == p.lines[i][k]);
            } else {
                assert(g[i][k] == parts[0][k - o.last().len()]);
            }
        } else {
            assert(g[i] == parts[i - o.len() + 1]);
            assert(g[i][k] == parts[i - o.len() + 1][k]);
        }
    }
    let c = capped(g);
    let from = g.len() - c.len();
    assert forall|i: int, k: int| 0 <= i < c.len() && 0 <= k < c[i].len() implies !text::control(
        #[trigger] c[i][k],
    ) by {
        assert(c[i] == g[i + from]);
        assert(c[i][k] == g[i + from][k]);
    }
}

proof fn lemma_filter_keeps(s: Seq<char>, p: spec_fn(char) -> bool)
    requires
        forall|i: int| 0 <= i < s.len() ==> p(#[trigger] s[i]),
    ensures
        s.filter(p) == s,
    decreases s.len(),
{
    reveal(Seq::filter);
    if s.len() > 0 {
        let m = s.drop_last();
        assert forall|i: int| 0 <= i < m.len() implies p(#[trigger] m[i]) by {
            assert(m[i] == s[i]);
        }
        lemma_filter_keeps(m, p);
        assert(p(s[s.len() - 1]));
        assert(m.push(s.last()) =~= s);
    } else {
        assert(s.filter(p) =~= s);
    }
}

proof fn lemma_filter_drops(s: Seq<char>, p: spec_fn(char) -> bool)
    requires
        forall|i: int| 0 <= i < s.len() ==> !p(#[trigger] s[i]),
    ensures
        s.filter(p) == Seq::<char>::empty(),
    decreases s.len(),
{
    reveal(Seq::filter);
    if s.len() > 0 {
        let m = s.drop_last();
        assert forall|i: int| 0 <= i < m.len() implies !p(#[trigger] m[i]) by {
            assert(m[i] == s[i]);
        }
        lemma_filter_drops(m, p);
        assert(!p(s[s.len() - 1]));
    } else {
        assert(s.filter(p) =~= Seq::<char>::empty());
    }
}

/// A text that can be shown on one line: no control characters, and so no breaks.
pub open spec fn one_line(s: Seq<char>) -> bool {
    forall|i: int| 0 <= i < s.len() ==> #[trigger] s[i] != '\n' && !text::control(s[i])
}

proof fn lemma_one_line(s: Seq<char>)
    requires
        one_line(s),
    ensures
        s.filter(shown()) == s,
        s.filter(feeds()) == Seq::<char>::empty(),
        text::split(s, '\n') == seq![s],
{
    lemma_filter_keeps(s, shown());
    lemma_filter_drops(s, feeds());
    text::lemma_first_is(s, '\n', 0, s.len() as int);
}

/// The lines that a pane starts to write on.
pub open spec fn begun(p: PaneView) -> Seq<Seq<char>> {
    if p.lines.len() == 0 {
        seq![Seq::<char>::empty()]
    } else {
        p.lines
    }
}

/// What a board sends is on the pane to the last character: text without control
/// characters goes on with the last line, all of it and in its order, and nothing
/// else changes.
pub proof fn law_all_that_is_sent_is_shown(p: PaneView, chunk: Seq<char>)
    requires
        one_line(chunk),
        p.lines.len() <= SERIAL_CAP,
    ensures
        p.push(chunk) == (PaneView {
            lines: begun(p).update(begun(p).len() - 1, begun(p).last() + chunk),
            ..p
        }),
{
    lemma_one_line(chunk);
    let b = begun(p);
    assert(opened(p.lines) == b);
    let parts = seq![chunk];
    assert(parts.drop_first() =~= Seq::<Seq<char>>::empty());
    assert(glue(b, parts) =~= b.update(b.len() - 1, b.last() + chunk));
}

/// A line feed starts the next line. A pane that is full gives up its first one,
/// and one that is scrolled stays where it is.
pub proof fn law_a_line_feed_starts_a_line(p: PaneView)
    requires
        0 < p.lines.len() <= SERIAL_CAP,
    ensures
        p.push(seq!['\n']) == (PaneView {
            lines: if p.lines.len() < SERIAL_CAP {
                p.lines.push(Seq::empty())
            } else {
                p.lines.drop_first().push(Seq::empty())
            },
            scroll: if p.scroll > 0 {
                p.scroll + 1
            } else {
                p.scroll
            },
            ..p
        }),
{
    let chunk = seq!['\n'];
    lemma_filter_keeps(chunk, shown());
    lemma_filter_keeps(chunk, feeds());
    lemma_split_one('\n', '\n');
    let parts = seq![Seq::<char>::empty(), Seq::<char>::empty()];
    let g = glue(p.lines, parts);
    assert(p.lines.last() + parts[0] =~= p.lines.last());
    assert(g =~= p.lines.push(Seq::empty()));
    if p.lines.len() == SERIAL_CAP {
        assert(g.skip(1) =~= p.lines.drop_first().push(Seq::empty()));
    }
}

/// No other control character leaves a trace.
pub proof fn law_controls_leave_no_trace(p: PaneView, c: char)
    requires
        text::control(c),
        c != '\n',
        0 < p.lines.len() <= SERIAL_CAP,
    ensures
        p.push(seq![c]) == p,
{
    let chunk = seq![c];
    lemma_filter_drops(chunk, shown());
    lemma_filter_drops(chunk, feeds());
    text::lemma_first_is(Seq::<char>::empty(), '\n', 0, 0);
    let parts = seq![Seq::<char>::empty()];
    assert(p.lines.last() + parts[0] =~= p.lines.last());
    assert(parts.drop_first() =~= Seq::<Seq<char>>::empty());
    assert(glue(p.lines, parts) =~= p.lines);
}

/// A note stands on a line of its own, behind all that was there, and the next
/// line is started; a full pane gives up its first lines.
pub proof fn law_a_note_has_its_own_line(p: PaneView, note: Seq<char>)
    requires
        one_line(note),
        p.lines.len() <= SERIAL_CAP,
    ensures
        ({
            let kept = if p.lines.len() > 0 && p.lines.last().len() == 0 {
                p.lines.drop_last()
            } else {
                p.lines
            };
            let all = kept.push(note).push(Seq::<char>::empty());
            p.note(note).lines == if all.len() > SERIAL_CAP {
                all.skip(all.len() - SERIAL_CAP)
            } else {
                all
            }
        }),
        p.note(note).link == p.link,
        p.note(note).baud == p.baud,
{
    reveal_strlit("\n");
    let feed = seq!['\n'];
    assert("\n"@ =~= feed);
    let fresh = if p.lines.len() > 0 && p.lines.last().len() > 0 {
        p.push(feed)
    } else {
        p
    };
    if p.lines.len() > 0 && p.lines.last().len() > 0 {
        law_a_line_feed_starts_a_line(p);
    }
    let f0 = PaneView { scroll: 0, ..fresh };
    law_chunks_join(f0, note, feed);
    law_all_that_is_sent_is_shown(f0, note);
    let q = f0.push(note);
    law_a_line_feed_starts_a_line(q);
    assert(f0.push(note + feed).lines == fresh.push(note + feed).lines);
    assert(p.note(note) == fresh.push(note + feed));
    let b = begun(fresh);
    assert(b.last().len() == 0);
    assert(b.last() + note =~= note);
    assert(q.lines =~= b.drop_last().push(note));
    let kept = if p.lines.len() > 0 && p.lines.last().len() == 0 {
        p.lines.drop_last()
    } else {
        p.lines
    };
    let all = kept.push(note).push(Seq::<char>::empty());
    let want = if all.len() > SERIAL_CAP {
        all.skip(all.len() - SERIAL_CAP)
    } else {
        all
    };
    assert(p.note(note).lines =~= want);
}

} // verus!
