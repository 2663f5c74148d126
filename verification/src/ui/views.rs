//! The log of a run, the monitors, and how far they are scrolled.
use ratatui::text::Line;
use ratatui::widgets::{Paragraph, Wrap};
use vstd::prelude::*;
use vstd::string::*;

use super::spans::{add_span, one_span, toned, Span, SpanView, Tone};
use crate::app::keys::{least, less_by};
use crate::app::pane::PaneView;
use crate::app::state::{App, AppView};
use crate::lists::nums;
use crate::text;

verus! {

// -- scrolling --

/// What is in view of a text: from which row on, and whether rows follow.
#[derive(Clone, Copy, PartialEq, Eq, Structural, Debug)]
pub struct Window {
    pub top: u16,
    pub scrolled: bool,
}

/// The window on `count` rows that ends `scroll` rows above the last one.
pub open spec fn window(count: int, height: int, scroll: int) -> Window {
    let bottom = less_by(count, height);
    let top = less_by(bottom, scroll);
    Window { top: least(top, u16::MAX as int) as u16, scrolled: top < bottom }
}

pub fn window_on(count: usize, height: u16, scroll: usize) -> (r: Window)
    ensures
        r == window(count as int, height as int, scroll as int),
{
    let h: usize = height as usize;
    let bottom: usize = if count > h {
        count - h
    } else {
        0
    };
    let top: usize = if bottom > scroll {
        bottom - scroll
    } else {
        0
    };
    let shown: u16 = if top < u16::MAX as usize {
        top as u16
    } else {
        u16::MAX
    };
    Window { top: shown, scrolled: top < bottom }
}

pub open spec fn texts(lines: Seq<SpanView>) -> Seq<Seq<char>> {
    lines.map_values(|s: SpanView| s.text)
}

/// How many rows `Paragraph::line_count` gives a text of these lines.
pub uninterp spec fn row_count(lines: Seq<Seq<char>>, width: u16) -> nat;

/// The widest frame that rows are counted in: a quarter of what a `u16` holds.
pub const WIDEST: u16 = 16383;

/// `Paragraph::line_count` of a paragraph that wraps without trimming: the rows
/// that the lines take at a width. They depend on lines and width alone, and at
/// no width there are none. While it wraps, it adds up widths in a `u16`, less
/// than four times the width of the frame in all.
#[verifier::external_body]
fn count_rows(lines: &Vec<Span>, width: u16) -> (r: usize)
    requires
        width <= WIDEST,
    ensures
        r == row_count(texts(lines.deep_view()), width),
        width == 0 ==> r == 0,
{
    let text: Vec<Line> = lines.iter().map(|s| Line::raw(s.text.as_str())).collect();
    Paragraph::new(text).wrap(Wrap { trim: false }).line_count(width)
}

/// What is in view of some lines in a frame of this size inside.
pub fn scrollback(lines: &Vec<Span>, width: u16, height: u16, scroll: usize) -> (r: Window)
    requires
        width <= WIDEST,
    ensures
        r == window(
            row_count(texts(lines.deep_view()), width) as int,
            height as int,
            scroll as int,
        ),
{
    window_on(count_rows(lines, width), height, scroll)
}

/// Scrolled to the end, the last rows are in view, and they fill the frame as far
/// as there are any.
pub proof fn law_the_end_is_in_view(count: int, height: int)
    requires
        0 <= count,
        0 <= height,
        count - height <= u16::MAX,
    ensures
        !window(count, height, 0).scrolled,
        count <= window(count, height, 0).top + height,
        height <= count ==> window(count, height, 0).top + height == count,
{
}

// -- what a frame holds --

#[derive(Debug, PartialEq, Eq)]
pub enum Content {
    /// What can be done, where there is nothing to show.
    Hint(String),
    /// Lines, one span each.
    Text { lines: Vec<Span>, scroll: usize },
}

#[verifier::ext_equal]
pub enum ContentView {
    Hint(Seq<char>),
    Text { lines: Seq<SpanView>, scroll: int },
}

impl DeepView for Content {
    type V = ContentView;

    open spec fn deep_view(&self) -> ContentView {
        match self {
            Content::Hint(s) => ContentView::Hint(s@),
            Content::Text { lines, scroll } => ContentView::Text {
                lines: lines.deep_view(),
                scroll: *scroll as int,
            },
        }
    }
}

#[derive(Debug)]
pub struct Framed {
    pub title: Vec<Span>,
    /// The frame is the one at hand.
    pub active: bool,
    pub content: Content,
}

#[verifier::ext_equal]
pub struct FramedView {
    pub title: Seq<SpanView>,
    pub active: bool,
    pub content: ContentView,
}

impl DeepView for Framed {
    type V = FramedView;

    open spec fn deep_view(&self) -> FramedView {
        FramedView {
            title: self.title.deep_view(),
            active: self.active,
            content: self.content.deep_view(),
        }
    }
}

// -- the log --

/// The tone of a line of the log.
pub open spec fn log_tone(line: Seq<char>) -> Tone {
    let lower = text::all_small(line);
    if text::begins(line, "✗"@) || text::begins(line, "Error"@) || text::holds(lower, "error:"@) {
        Tone::Bad
    } else if text::holds(lower, "warning:"@) {
        Tone::Gold
    } else if text::begins(line, "✓"@) || text::begins(line, "Sketch uses"@) || text::begins(
        line,
        "Global variables"@,
    ) {
        Tone::Good
    } else if text::begins(line, "$ "@) {
        Tone::Accent
    } else {
        Tone::Plain
    }
}

pub fn log_style(line: &str) -> (r: Tone)
    ensures
        r == log_tone(line@),
{
    let lower = text::to_small(line);
    if text::starts_with(line, "✗") || text::starts_with(line, "Error") || text::contains(
        lower.as_str(),
        "error:",
    ) {
        Tone::Bad
    } else if text::contains(lower.as_str(), "warning:") {
        Tone::Gold
    } else if text::starts_with(line, "✓") || text::starts_with(line, "Sketch uses")
        || text::starts_with(line, "Global variables") {
        Tone::Good
    } else if text::starts_with(line, "$ ") {
        Tone::Accent
    } else {
        Tone::Plain
    }
}

impl AppView {
    pub open spec fn build_view(self) -> FramedView {
        FramedView {
            title: match self.job {
                Some(name) => seq![toned(" build — "@ + name + "… "@, Tone::Gold)],
                None => seq![toned(" build "@, Tone::Plain)],
            },
            active: false,
            content: if self.log.len() == 0 {
                ContentView::Hint("press c to compile, u to upload"@)
            } else {
                ContentView::Text {
                    lines: self.log.map_values(|l: Seq<char>| toned(l, log_tone(l))),
                    scroll: self.log_scroll,
                }
            },
        }
    }
}

/// The log of the run that is going on, or of the last one.
pub fn build(app: &App) -> (r: Framed)
    ensures
        r.deep_view() == app@.build_view(),
{
    let title = match &app.job {
        Some(j) => one_span(text::cat3(" build — ", j.name.as_str(), "… "), Tone::Gold),
        None => one_span(" build ".to_owned(), Tone::Plain),
    };
    if app.log.len() == 0 {
        return Framed {
            title,
            active: false,
            content: Content::Hint("press c to compile, u to upload".to_owned()),
        };
    }
    let ghost want = app@.log.map_values(|l: Seq<char>| toned(l, log_tone(l)));
    let mut lines: Vec<Span> = Vec::new();
    for i in 0..app.log.len()
        invariant
            want == app@.log.map_values(|l: Seq<char>| toned(l, log_tone(l))),
            lines.deep_view() == want.take(i as int),
    {
        assert(app@.log[i as int] == app.log@[i as int]@);
        add_span(&mut lines, app.log[i].clone(), log_style(app.log[i].as_str()));
        assert(lines.deep_view() =~= want.take(i + 1));
    }
    assert(lines.deep_view() =~= want);
    Framed { title, active: false, content: Content::Text { lines, scroll: app.log_scroll } }
}

// -- the monitors --

pub open spec fn root_from(n: nat, c: nat) -> nat
    decreases n - c,
{
    if c * c >= n || c >= n {
        c
    } else {
        root_from(n, c + 1)
    }
}

/// How many frames stand side by side: up to three in one row, more in a square.
pub open spec fn columns(n: nat) -> nat {
    if n <= 3 {
        n
    } else {
        root_from(n, 0)
    }
}

proof fn lemma_root(n: nat, c: nat)
    requires
        c == 0 || (c - 1) * (c - 1) < n,
        c <= n,
        n > 1,
    ensures
        ({
            let r = root_from(n, c);
            &&& c <= r <= n
            &&& n <= r * r
            &&& r > 0
            &&& (r - 1) * (r - 1) < n
        }),
    decreases n - c,
{
    if c * c >= n || c >= n {
        assert(c >= n ==> c * c >= n) by (nonlinear_arith)
            requires
                n > 1,
        ;
        if c == 0 {
            assert(c * c == 0);
        }
    } else {
        assert((c + 1 - 1) * (c + 1 - 1) == c * c);
        lemma_root(n, c + 1);
    }
}

/// More than three frames stand in the smallest square that holds them.
pub proof fn law_the_grid_is_square(n: nat)
    requires
        n > 3,
    ensures
        n <= columns(n) * columns(n),
        (columns(n) - 1) * (columns(n) - 1) < n,
{
    lemma_root(n, 0);
}

pub fn grid_columns(n: usize) -> (r: usize)
    ensures
        r == columns(n as nat),
{
    if n <= 3 {
        return n;
    }
    let mut c: usize = 0;
    assert((c as u128) * (c as u128) == 0) by (nonlinear_arith)
        requires
            c == 0,
    ;
    while (c as u128) * (c as u128) < n as u128 && c < n
        invariant
            c <= n,
            n > 3,
            root_from(n as nat, 0) == root_from(n as nat, c as nat),
            (c as u128) * (c as u128) <= u128::MAX,
        decreases n - c,
    {
        c = c + 1;
        assert(c * c <= u128::MAX) by (nonlinear_arith)
            requires
                0 <= c <= u64::MAX,
        ;
    }
    c
}

/// Frames in rows of `c`.
pub open spec fn in_rows(shown: Seq<int>, c: int) -> Seq<Seq<int>>
    decreases shown.len(),
{
    if shown.len() == 0 || c <= 0 {
        Seq::empty()
    } else if shown.len() <= c {
        seq![shown]
    } else {
        seq![shown.take(c)] + in_rows(shown.skip(c), c)
    }
}

pub open spec fn num_rows(v: Seq<Vec<usize>>) -> Seq<Seq<int>> {
    v.map_values(|r: Vec<usize>| nums(r@))
}

fn rows_of(shown: &Vec<usize>, c: usize) -> (r: Vec<Vec<usize>>)
    requires
        c > 0,
    ensures
        num_rows(r@) == in_rows(nums(shown@), c as int),
{
    let ghost all = nums(shown@);
    let mut out: Vec<Vec<usize>> = Vec::new();
    let mut i: usize = 0;
    assert(all.skip(0) =~= all);
    assert(num_rows(out@) + in_rows(all, c as int) =~= in_rows(all, c as int));
    while i < shown.len()
        invariant
            c > 0,
            i <= shown.len(),
            all == nums(shown@),
            num_rows(out@) + in_rows(all.skip(i as int), c as int) == in_rows(all, c as int),
        decreases shown.len() - i,
    {
        let left: usize = shown.len() - i;
        let n: usize = if left < c {
            left
        } else {
            c
        };
        let mut row: Vec<usize> = Vec::new();
        for k in 0..n
            invariant
                i + n <= shown.len(),
                all == nums(shown@),
                nums(row@) == all.subrange(i as int, i + k),
        {
            let ghost before = row@;
            row.push(shown[i + k]);
            assert(nums(row@) =~= nums(before).push(all[i + k]));
            assert(nums(row@) =~= all.subrange(i as int, i + k + 1));
        }
        let ghost rest = all.skip(i as int);
        assert(nums(row@) =~= rest.take(n as int));
        assert(rest.skip(n as int) =~= all.skip(i + n));
        let ghost before = num_rows(out@);
        out.push(row);
        assert(num_rows(out@) =~= before.push(rest.take(n as int)));
        if left <= c {
            assert(rest.take(n as int) =~= rest);
        }
        assert(in_rows(rest, c as int) =~= seq![rest.take(n as int)] + in_rows(
            rest.skip(n as int),
            c as int,
        ));
        assert(before + (seq![rest.take(n as int)] + in_rows(rest.skip(n as int), c as int))
            =~= before.push(rest.take(n as int)) + in_rows(rest.skip(n as int), c as int));
        i = i + n;
    }
    assert(num_rows(out@) + in_rows(all.skip(i as int), c as int) =~= num_rows(out@));
    out
}

pub open spec fn all_of(rows: Seq<Seq<int>>) -> Seq<int>
    decreases rows.len(),
{
    if rows.len() == 0 {
        Seq::empty()
    } else {
        rows[0] + all_of(rows.drop_first())
    }
}

/// The rows show every frame once, in order, and no row is empty or too long.
pub proof fn law_rows_show_every_frame(shown: Seq<int>, c: int)
    requires
        c > 0,
    ensures
        all_of(in_rows(shown, c)) == shown,
        forall|k: int|
            0 <= k < in_rows(shown, c).len() ==> 0 < (#[trigger] in_rows(shown, c)[k]).len() <= c,
    decreases shown.len(),
{
    let rows = in_rows(shown, c);
    if shown.len() > c {
        let rest = in_rows(shown.skip(c), c);
        law_rows_show_every_frame(shown.skip(c), c);
        assert(rows.drop_first() =~= rest);
        assert(shown.take(c) + shown.skip(c) =~= shown);
        assert forall|k: int| 0 <= k < rows.len() implies 0 < (#[trigger] rows[k]).len() <= c by {
            if k > 0 {
                assert(rows[k] == rest[k - 1]);
            }
        }
    } else if shown.len() > 0 {
        assert(rows.drop_first() =~= Seq::<Seq<int>>::empty());
        assert(all_of(rows.drop_first()) =~= Seq::<int>::empty());
        assert(all_of(rows) =~= shown);
    }
}

/// The line that is being typed.
#[derive(Debug)]
pub struct Input {
    pub title: String,
    pub line: Vec<Span>,
}

#[verifier::ext_equal]
pub struct InputView {
    pub title: Seq<char>,
    pub line: Seq<SpanView>,
}

impl DeepView for Input {
    type V = InputView;

    open spec fn deep_view(&self) -> InputView {
        InputView { title: self.title@, line: self.line.deep_view() }
    }
}

/// The monitors that are shown, in rows; without any, a hint.
#[derive(Debug)]
pub struct Grid {
    pub hint: Option<String>,
    pub rows: Vec<Vec<usize>>,
    /// There is more than one.
    pub many: bool,
    pub input: Option<Input>,
}

#[verifier::ext_equal]
pub struct GridView {
    pub hint: Option<Seq<char>>,
    pub rows: Seq<Seq<int>>,
    pub many: bool,
    pub input: Option<InputView>,
}

impl DeepView for Grid {
    type V = GridView;

    open spec fn deep_view(&self) -> GridView {
        GridView {
            hint: self.hint.deep_view(),
            rows: num_rows(self.rows@),
            many: self.many,
            input: self.input.deep_view(),
        }
    }
}

impl AppView {
    pub open spec fn input_view(self) -> Option<InputView> {
        match self.input {
            Some(buf) => Some(
                InputView {
                    title: match self.target() {
                        Some(t) => " send to "@ + t.name + " "@,
                        None => " send "@,
                    },
                    line: seq![toned(buf, Tone::Plain), toned("▏"@, Tone::Accent)],
                },
            ),
            None => None,
        }
    }

    pub open spec fn grid(self) -> GridView {
        let shown = self.shown_panes();
        GridView {
            hint: if shown.len() == 0 {
                Some("add a board in Project (3), then press m"@)
            } else {
                None
            },
            rows: in_rows(shown, columns(shown.len()) as int),
            many: shown.len() > 1,
            input: self.input_view(),
        }
    }
}

pub fn serial(app: &App) -> (r: Grid)
    ensures
        r.deep_view() == app@.grid(),
{
    let shown = app.shown_panes();
    assert(nums(shown@).len() == shown.len());
    let input = match &app.input {
        Some(buf) => {
            let mut line: Vec<Span> = Vec::new();
            add_span(&mut line, buf.clone(), Tone::Plain);
            add_span(&mut line, "▏".to_owned(), Tone::Accent);
            assert(line.deep_view() =~= seq![toned(buf@, Tone::Plain), toned("▏"@, Tone::Accent)]);
            let title = if app.active < app.boards.len() {
                assert(app@.boards[app.active as int] == app.boards@[app.active as int].deep_view());
                text::cat3(" send to ", app.boards[app.active].name.as_str(), " ")
            } else {
                " send ".to_owned()
            };
            Some(Input { title, line })
        },
        None => None,
    };
    if shown.len() == 0 {
        let rows: Vec<Vec<usize>> = Vec::new();
        assert(num_rows(rows@) =~= in_rows(nums(shown@), 0));
        return Grid {
            hint: Some("add a board in Project (3), then press m".to_owned()),
            rows,
            many: false,
            input,
        };
    }
    let c = grid_columns(shown.len());
    proof {
        if shown.len() > 3 {
            lemma_root(shown.len() as nat, 0);
        }
    }
    let rows = rows_of(&shown, c);
    Grid { hint: None, rows, many: shown.len() > 1, input }
}

/// The tone of a line of a monitor: notes and what was sent stand out.
pub open spec fn serial_tone(l: Seq<char>) -> Tone {
    if l.len() > 0 && l[0] == '─' {
        Tone::Dim
    } else if l.len() > 0 && l[0] == '→' {
        Tone::Accent
    } else {
        Tone::Plain
    }
}

fn tone_of(l: &str) -> (r: Tone)
    ensures
        r == serial_tone(l@),
{
    if l.unicode_len() == 0 {
        return Tone::Plain;
    }
    let c = l.get_char(0);
    if c == '─' {
        Tone::Dim
    } else if c == '→' {
        Tone::Accent
    } else {
        Tone::Plain
    }
}

/// Nothing has been written on the pane.
pub open spec fn silent(p: PaneView) -> bool {
    forall|k: int| 0 <= k < p.lines.len() ==> (#[trigger] p.lines[k]).len() == 0
}

impl AppView {
    pub open spec fn pane_view(self, i: int, many: bool) -> FramedView {
        let p = self.panes[i];
        let rate = text::decimal(p.baud as nat);
        FramedView {
            title: seq![
                toned(
                    " "@ + (if i < self.boards.len() {
                        self.boards[i].name
                    } else {
                        "monitor"@
                    }) + " "@,
                    Tone::Plain,
                ),
                match p.link {
                    Some(l) => toned(l.port + " @ "@ + rate + " "@, Tone::Good),
                    None => toned("closed @ "@ + rate + " "@, Tone::Dim),
                },
            ],
            active: many && i == self.active,
            content: if silent(p) {
                ContentView::Hint("press m to open the serial monitor"@)
            } else {
                ContentView::Text {
                    lines: p.lines.map_values(|l: Seq<char>| toned(l, serial_tone(l))),
                    scroll: p.scroll,
                }
            },
        }
    }
}

/// One monitor.
pub fn pane(app: &App, i: usize, many: bool) -> (r: Framed)
    requires
        i < app@.panes.len(),
    ensures
        r.deep_view() == app@.pane_view(i as int, many),
{
    let p = &app.panes[i];
    let ghost pv = app@.panes[i as int];
    assert(pv == p.deep_view());
    let name = if i < app.boards.len() {
        assert(app@.boards[i as int] == app.boards@[i as int].deep_view());
        app.boards[i].name.clone()
    } else {
        "monitor".to_owned()
    };
    let rate = text::number(p.baud as u64);
    let mut title: Vec<Span> = Vec::new();
    add_span(&mut title, text::cat3(" ", name.as_str(), " "), Tone::Plain);
    match &p.link {
        Some(l) => add_span(
            &mut title,
            text::cat4(l.port.as_str(), " @ ", rate.as_str(), " "),
            Tone::Good,
        ),
        None => add_span(&mut title, text::cat3("closed @ ", rate.as_str(), " "), Tone::Dim),
    }
    assert(title.deep_view() =~= app@.pane_view(i as int, many).title);
    let active = many && i == app.active;
    let ghost want = pv.lines.map_values(|l: Seq<char>| toned(l, serial_tone(l)));
    let mut lines: Vec<Span> = Vec::new();
    let mut quiet = true;
    for k in 0..p.lines.len()
        invariant
            pv == p.deep_view(),
            want == pv.lines.map_values(|l: Seq<char>| toned(l, serial_tone(l))),
            lines.deep_view() == want.take(k as int),
            quiet == (forall|j: int| 0 <= j < k ==> (#[trigger] pv.lines[j]).len() == 0),
    {
        assert(pv.lines[k as int] == p.lines@[k as int]@);
        let l = p.lines[k].as_str();
        if !l.is_empty() {
            quiet = false;
        }
        add_span(&mut lines, l.to_owned(), tone_of(l));
        assert(lines.deep_view() =~= want.take(k + 1));
    }
    assert(lines.deep_view() =~= want);
    if quiet {
        Framed {
            title,
            active,
            content: Content::Hint("press m to open the serial monitor".to_owned()),
        }
    } else {
        Framed { title, active, content: Content::Text { lines, scroll: p.scroll } }
    }
}

} // verus!
