//! The boards of the project, the ports that no board has, and the settings.
use vstd::prelude::*;
use vstd::string::*;
use vstd::utf8::encode_utf8;

use super::bars::{error_line, error_spans};
use super::spans::{add_span, maybe, one_span, span, toned, Span, SpanView, Tone};
use crate::app::keys::least;
use crate::app::picking::{find_known_board, known_board};
use crate::app::state::{App, AppView};
use crate::cli::{Detected, DetectedView};
use crate::lists::{nums, push_item};
use crate::project::{spot, spots};
use crate::text;

verus! {

// -- widths --

pub open spec fn widest(ws: Seq<nat>) -> nat
    decreases ws.len(),
{
    if ws.len() == 0 {
        0
    } else {
        let rest = widest(ws.drop_last());
        if ws.last() > rest {
            ws.last()
        } else {
            rest
        }
    }
}

/// The width of a column: that of its widest entry, and two spaces.
pub open spec fn column(ws: Seq<nat>) -> nat {
    least((widest(ws) + 2) as int, usize::MAX as int) as nat
}

pub open spec fn sizes(ws: Seq<usize>) -> Seq<nat> {
    ws.map_values(|w: usize| w as nat)
}

fn column_of(ws: &Vec<usize>) -> (r: usize)
    ensures
        r == column(sizes(ws@)),
{
    let ghost all = sizes(ws@);
    let mut most: usize = 0;
    assert(all.take(0) =~= Seq::<nat>::empty());
    for i in 0..ws.len()
        invariant
            all == sizes(ws@),
            most == widest(all.take(i as int)),
    {
        assert(all.take(i + 1).drop_last() =~= all.take(i as int));
        if ws[i] > most {
            most = ws[i];
        }
    }
    assert(all.take(all.len() as int) =~= all);
    if most < usize::MAX - 2 {
        most + 2
    } else {
        usize::MAX
    }
}

// -- boards --

/// The port of board `i`: there, gone, or none.
pub open spec fn port_entry(s: AppView, i: int) -> SpanView {
    match s.links()[i] {
        Some(j) => toned("● "@ + s.ports[j].port.address, Tone::Good),
        None => match s.boards[i].port {
            Some(p) => toned("○ "@ + p, Tone::Bad),
            None => toned("○ not connected"@, Tone::Dim),
        },
    }
}

pub open spec fn name_widths(s: AppView) -> Seq<nat> {
    Seq::new(s.boards.len(), |i: int| s.boards[i].name.len())
}

/// Kinds are as wide as their bytes are many.
pub open spec fn kind_widths(s: AppView) -> Seq<nat> {
    Seq::new(s.boards.len(), |i: int| (encode_utf8(s.boards[i].fqbn).len() as usize) as nat)
}

pub open spec fn port_widths(s: AppView) -> Seq<nat> {
    Seq::new(s.boards.len(), |i: int| port_entry(s, i).text.len())
}

pub open spec fn board_row(s: AppView, i: int) -> Seq<SpanView> {
    let t = s.boards[i];
    let port = port_entry(s, i);
    seq![
        toned(
            if i == s.active {
                " ▸ "@
            } else {
                "   "@
            },
            Tone::Accent,
        ),
        toned(text::padded(t.name, column(name_widths(s))), Tone::Gold),
        toned(text::padded(t.fqbn, column(kind_widths(s))), Tone::Dim),
        toned(text::padded(port.text, column(port_widths(s))), port.tone),
        match t.sketch {
            Some(p) => toned(p, Tone::Plain),
            None => toned("no sketch"@, Tone::Dim),
        },
    ]
}

// -- ports --

pub open spec fn port_row(d: DetectedView) -> Seq<SpanView> {
    let port = seq![
        toned("   "@ + text::padded(d.port.address, 34), Tone::Plain),
        toned(text::padded(d.port.protocol_label, 20), Tone::Dim),
    ];
    match known_board(d) {
        Some(b) => port + seq![toned(b.name, Tone::Good), toned("  "@ + b.fqbn, Tone::Dim)],
        None => port + seq![toned("unknown board — you pick the type"@, Tone::Dim)],
    }
}

fn port_spans(d: &Detected) -> (r: Vec<Span>)
    ensures
        r.deep_view() == port_row(d.deep_view()),
{
    let mut line: Vec<Span> = Vec::new();
    let at = text::pad(d.port.address.as_str(), 34);
    add_span(&mut line, text::cat2("   ", at.as_str()), Tone::Plain);
    add_span(&mut line, text::pad(d.port.protocol_label.as_str(), 20), Tone::Dim);
    match find_known_board(d) {
        Some(k) => {
            let b = &d.matching_boards[k];
            add_span(&mut line, b.name.clone(), Tone::Good);
            add_span(&mut line, text::cat2("  ", b.fqbn.as_str()), Tone::Dim);
        },
        None => add_span(&mut line, "unknown board — you pick the type".to_owned(), Tone::Dim),
    }
    assert(line.deep_view() =~= port_row(d.deep_view()));
    line
}

// -- both --

/// A list with what is selected in it.
#[derive(Debug)]
pub struct Table {
    pub title: Vec<Span>,
    pub bottom: Option<Vec<Span>>,
    pub rows: Vec<Vec<Span>>,
    pub sel: Option<usize>,
}

#[verifier::ext_equal]
pub struct TableView {
    pub title: Seq<SpanView>,
    pub bottom: Option<Seq<SpanView>>,
    pub rows: Seq<Seq<SpanView>>,
    pub sel: Option<int>,
}

impl DeepView for Table {
    type V = TableView;

    open spec fn deep_view(&self) -> TableView {
        TableView {
            title: self.title.deep_view(),
            bottom: maybe(self.bottom),
            rows: self.rows.deep_view(),
            sel: spot(self.sel),
        }
    }
}

impl AppView {
    /// The boards of the project.
    pub open spec fn board_table(self) -> TableView {
        TableView {
            title: seq![
                toned(" boards ("@ + text::decimal(self.boards.len()) + ") "@, Tone::Plain),
            ],
            bottom: None,
            rows: Seq::new(self.boards.len(), |i: int| board_row(self, i)),
            sel: if self.sel < self.boards.len() {
                Some(self.sel)
            } else {
                None
            },
        }
    }

    /// The ports that no board has.
    pub open spec fn port_table(self) -> TableView {
        let free = self.free_ports();
        TableView {
            title: if self.scanned {
                seq![
                    toned(" new ports ("@ + text::decimal(free.len()) + ") "@, Tone::Plain),
                    toned("enter adds to project "@, Tone::Dim),
                ]
            } else {
                seq![toned(" new ports — scanning… "@, Tone::Plain)]
            },
            bottom: error_line(self.ports_err),
            rows: free.map_values(|j: int| port_row(self.ports[j])),
            sel: if self.sel >= self.boards.len() {
                Some(self.sel - self.boards.len())
            } else {
                None
            },
        }
    }
}

/// What is shown in place of boards where there are none.
pub const NO_BOARDS: &'static str = "pick a detected port below, or press a to add a board by hand";

fn board_table(app: &App) -> (r: Table)
    ensures
        r.deep_view() == app@.board_table(),
{
    let ghost s = app@;
    let links = app.links();
    let mut ports: Vec<Span> = Vec::new();
    let mut names: Vec<usize> = Vec::new();
    let mut kinds: Vec<usize> = Vec::new();
    let mut widths: Vec<usize> = Vec::new();
    for i in 0..app.boards.len()
        invariant
            s == app@,
            spots(links@) == s.links(),
            links.len() == app.boards.len(),
            forall|k: int|
                0 <= k < links.len() ==> (#[trigger] links@[k] matches Some(j) ==> j
                    < app.ports.len()),
            ports.len() == i,
            names.len() == i,
            kinds.len() == i,
            widths.len() == i,
            forall|k: int| 0 <= k < i ==> (#[trigger] ports@[k]).deep_view() == port_entry(s, k),
            forall|k: int| 0 <= k < i ==> #[trigger] names@[k] == name_widths(s)[k],
            forall|k: int| 0 <= k < i ==> #[trigger] kinds@[k] == kind_widths(s)[k],
            forall|k: int| 0 <= k < i ==> #[trigger] widths@[k] == port_widths(s)[k],
    {
        let t = &app.boards[i];
        assert(s.boards[i as int] == t.deep_view());
        assert(s.links()[i as int] == spot(links@[i as int]));
        let entry = match links[i] {
            Some(j) => {
                assert(s.ports[j as int] == app.ports@[j as int].deep_view());
                span(
                    text::cat2("● ", app.ports[j].port.address.as_str()),
                    Tone::Good,
                )
            },
            None => match &t.port {
                Some(p) => span(text::cat2("○ ", p.as_str()), Tone::Bad),
                None => span("○ not connected".to_owned(), Tone::Dim),
            },
        };
        widths.push(entry.text.as_str().unicode_len());
        names.push(t.name.as_str().unicode_len());
        kinds.push(t.fqbn.as_str().len());
        ports.push(entry);
    }
    assert(sizes(names@) =~= name_widths(s));
    assert(sizes(kinds@) =~= kind_widths(s));
    assert(sizes(widths@) =~= port_widths(s));
    let (wn, wf, wp) = (column_of(&names), column_of(&kinds), column_of(&widths));
    let ghost want = s.board_table().rows;
    let mut rows: Vec<Vec<Span>> = Vec::new();
    for i in 0..app.boards.len()
        invariant
            s == app@,
            want == s.board_table().rows,
            rows.deep_view() == want.take(i as int),
            ports.len() == app.boards.len(),
            forall|k: int|
                0 <= k < ports.len() ==> (#[trigger] ports@[k]).deep_view() == port_entry(s, k),
            wn == column(name_widths(s)),
            wf == column(kind_widths(s)),
            wp == column(port_widths(s)),
    {
        let t = &app.boards[i];
        assert(s.boards[i as int] == t.deep_view());
        assert(ports@[i as int].deep_view() == port_entry(s, i as int));
        let mut line: Vec<Span> = Vec::new();
        let mark = if i == app.active {
            " ▸ "
        } else {
            "   "
        };
        add_span(&mut line, mark.to_owned(), Tone::Accent);
        add_span(&mut line, text::pad(t.name.as_str(), wn), Tone::Gold);
        add_span(&mut line, text::pad(t.fqbn.as_str(), wf), Tone::Dim);
        add_span(&mut line, text::pad(ports[i].text.as_str(), wp), ports[i].tone);
        match &t.sketch {
            Some(p) => add_span(&mut line, p.clone(), Tone::Plain),
            None => add_span(&mut line, "no sketch".to_owned(), Tone::Dim),
        }
        assert(line.deep_view() =~= board_row(s, i as int));
        push_item(&mut rows, line);
        assert(rows.deep_view() =~= want.take(i + 1));
    }
    assert(rows.deep_view() =~= want);
    let n = text::number(app.boards.len() as u64);
    let title = one_span(text::cat3(" boards (", n.as_str(), ") "), Tone::Plain);
    let sel = if app.sel < app.boards.len() {
        Some(app.sel)
    } else {
        None
    };
    Table { title, bottom: None, rows, sel }
}

fn port_table(app: &App) -> (r: Table)
    ensures
        r.deep_view() == app@.port_table(),
{
    let ghost s = app@;
    let free = app.free_ports();
    let ghost want = s.port_table().rows;
    let mut rows: Vec<Vec<Span>> = Vec::new();
    assert(nums(free@).len() == free.len());
    for k in 0..free.len()
        invariant
            s == app@,
            want == s.port_table().rows,
            nums(free@) == s.free_ports(),
            forall|k: int| 0 <= k < free.len() ==> (#[trigger] free@[k]) < app.ports.len(),
            rows.deep_view() == want.take(k as int),
    {
        let d = &app.ports[free[k]];
        assert(nums(free@)[k as int] == free@[k as int]);
        assert(s.ports[free@[k as int] as int] == d.deep_view());
        push_item(&mut rows, port_spans(d));
        assert(rows.deep_view() =~= want.take(k + 1));
    }
    assert(rows.deep_view() =~= want);
    let mut title: Vec<Span> = Vec::new();
    if app.scanned {
        let n = text::number(free.len() as u64);
        add_span(&mut title, text::cat3(" new ports (", n.as_str(), ") "), Tone::Plain);
        add_span(&mut title, "enter adds to project ".to_owned(), Tone::Dim);
    } else {
        add_span(&mut title, " new ports — scanning… ".to_owned(), Tone::Plain);
    }
    assert(title.deep_view() =~= s.port_table().title);
    let sel = if app.sel >= app.boards.len() {
        Some(app.sel - app.boards.len())
    } else {
        None
    };
    Table { title, bottom: error_spans(&app.ports_err), rows, sel }
}

/// What stands in place of the list of boards, where there are none.
pub fn boards_hint(app: &App) -> (r: Option<String>)
    ensures
        r.deep_view() == (if app@.boards.len() == 0 {
            Some(NO_BOARDS@)
        } else {
            None
        }),
{
    if app.boards.len() == 0 {
        Some(NO_BOARDS.to_owned())
    } else {
        None
    }
}

/// The boards of the project, and the ports that no board has.
pub fn project(app: &App) -> (r: (Table, Table))
    ensures
        r.0.deep_view() == app@.board_table(),
        r.1.deep_view() == app@.port_table(),
{
    (board_table(app), port_table(app))
}

// -- settings --

/// Where the settings are kept, as it is shown: the home folder is a `~`.
pub open spec fn shown_path(path: Option<Seq<char>>, home: Seq<char>) -> Seq<char> {
    match path {
        None => "not saved — no HOME"@,
        Some(p) => if home.len() > 0 && text::begins(p, home) {
            "~"@ + p.skip(home.len() as int)
        } else {
            p
        },
    }
}

fn path_text(path: &Option<String>, home: &str) -> (r: String)
    ensures
        r@ == shown_path(path.deep_view(), home@),
{
    match path {
        None => "not saved — no HOME".to_owned(),
        Some(p) => {
            if home.is_empty() {
                p.clone()
            } else {
                match text::strip_prefix(p.as_str(), home) {
                    Some(rest) => text::cat2("~", rest.as_str()),
                    None => p.clone(),
                }
            }
        },
    }
}

pub open spec fn setting_row(row: (Seq<char>, Seq<char>)) -> Seq<SpanView> {
    seq![
        toned("   "@ + text::padded(row.0, 20), Tone::Plain),
        toned("‹ "@ + row.1 + " ›"@, Tone::Accent),
    ]
}

impl AppView {
    pub open spec fn settings_table(self, path: Option<Seq<char>>, home: Seq<char>) -> TableView {
        TableView {
            title: seq![
                toned(" settings "@, Tone::Plain),
                toned(shown_path(path, home) + " "@, Tone::Dim),
            ],
            bottom: None,
            rows: self.settings.rows().map_values(|r: (Seq<char>, Seq<char>)| setting_row(r)),
            sel: Some(self.set_sel),
        }
    }
}

pub fn settings_tab(app: &App, path: &Option<String>, home: &str) -> (r: Table)
    ensures
        r.deep_view() == app@.settings_table(path.deep_view(), home@),
{
    let ghost want = app@.settings_table(path.deep_view(), home@);
    let mut title: Vec<Span> = Vec::new();
    add_span(&mut title, " settings ".to_owned(), Tone::Plain);
    let at = path_text(path, home);
    add_span(&mut title, text::cat2(at.as_str(), " "), Tone::Dim);
    assert(title.deep_view() =~= want.title);
    let entries = app.settings.rows();
    let mut rows: Vec<Vec<Span>> = Vec::new();
    for i in 0..entries.len()
        invariant
            entries.deep_view() == app@.settings.rows(),
            want == app@.settings_table(path.deep_view(), home@),
            rows.deep_view() == want.rows.take(i as int),
    {
        assert(entries.deep_view()[i as int] == (entries@[i as int].0@, entries@[i as int].1@));
        let mut line: Vec<Span> = Vec::new();
        let label = text::pad(entries[i].0, 20);
        add_span(&mut line, text::cat2("   ", label.as_str()), Tone::Plain);
        add_span(&mut line, text::cat3("‹ ", entries[i].1.as_str(), " ›"), Tone::Accent);
        assert(line.deep_view() =~= setting_row(app@.settings.rows()[i as int]));
        push_item(&mut rows, line);
        assert(rows.deep_view() =~= want.rows.take(i + 1));
    }
    assert(rows.deep_view() =~= want.rows);
    Table { title, bottom: None, rows, sel: Some(app.set_sel) }
}

} // verus!
