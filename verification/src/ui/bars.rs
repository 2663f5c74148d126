//! What stands above and below: the header, the row of tabs and the keys.
use vstd::prelude::*;

use super::spans::{add_bold, add_span, maybe, one_span, strong, toned, Span, SpanView, Tone};
use crate::app::state::{App, AppView, Tab};
use crate::lists::push_item;
use crate::text;

verus! {

// -- what is shown --

/// What stands between the row of tabs and the keys.
#[derive(Clone, Copy, PartialEq, Eq, Structural, Debug)]
pub enum Body {
    Build,
    /// The log, and below it the monitors.
    BuildAndSerial,
    Serial,
    Project,
    Settings,
}

impl AppView {
    pub open spec fn body(self) -> Body {
        match self.tab {
            Tab::Build => if self.any_linked() {
                Body::BuildAndSerial
            } else {
                Body::Build
            },
            Tab::Monitor => Body::Serial,
            Tab::Project => Body::Project,
            Tab::Settings => Body::Settings,
        }
    }
}

/// What stands in the middle of the screen.
pub fn render(app: &App) -> (r: Body)
    ensures
        r == app@.body(),
{
    match app.tab {
        Tab::Build => {
            for i in 0..app.panes.len()
                invariant
                    app.tab == Tab::Build,
                    forall|k: int| 0 <= k < i ==> !#[trigger] app@.linked(k),
            {
                assert(app@.panes[i as int] == app.panes@[i as int].deep_view());
                if app.panes[i].link.is_some() {
                    assert(app@.linked(i as int));
                    return Body::BuildAndSerial;
                }
            }
            assert(!app@.any_linked()) by {
                assert forall|k: int| !app@.linked(k) by {}
            }
            Body::Build
        },
        Tab::Monitor => Body::Serial,
        Tab::Project => Body::Project,
        Tab::Settings => Body::Settings,
    }
}

// -- the header --

#[derive(Debug)]
pub struct Header {
    pub line: Vec<Span>,
    pub title: Vec<Span>,
    pub right: Vec<Span>,
    pub bottom: Option<Vec<Span>>,
}

#[verifier::ext_equal]
pub struct HeaderView {
    pub line: Seq<SpanView>,
    pub title: Seq<SpanView>,
    pub right: Seq<SpanView>,
    pub bottom: Option<Seq<SpanView>>,
}

impl DeepView for Header {
    type V = HeaderView;

    open spec fn deep_view(&self) -> HeaderView {
        HeaderView {
            line: self.line.deep_view(),
            title: self.title.deep_view(),
            right: self.right.deep_view(),
            bottom: maybe(self.bottom),
        }
    }
}

/// An error below a frame.
pub open spec fn error_line(e: Option<Seq<char>>) -> Option<Seq<SpanView>> {
    match e {
        Some(e) => Some(seq![toned(" "@ + e + " "@, Tone::Bad)]),
        None => None,
    }
}

pub fn error_spans(e: &Option<String>) -> (r: Option<Vec<Span>>)
    ensures
        maybe(r) == error_line(e.deep_view()),
{
    match e {
        Some(e) => Some(one_span(text::cat3(" ", e.as_str(), " "), Tone::Bad)),
        None => None,
    }
}

impl AppView {
    /// The port of the board at hand: there, gone, or none.
    pub open spec fn port_span(self) -> SpanView {
        match self.port_of(self.active) {
            Some(d) => toned("● "@ + d.port.address, Tone::Good),
            None => match self.boards[self.active].port {
                Some(p) => toned("○ "@ + p + " (unplugged)"@, Tone::Bad),
                None => toned("○ not connected"@, Tone::Dim),
            },
        }
    }

    pub open spec fn header_line(self) -> Seq<SpanView> {
        match self.target() {
            None => seq![toned(" "@ + self.no_boards(), Tone::Dim)],
            Some(t) => seq![
                toned(" "@, Tone::Plain),
                strong(t.name, Tone::Gold),
                toned("  "@ + t.fqbn, Tone::Dim),
                toned("    "@, Tone::Plain),
                self.port_span(),
                toned("    sketch "@, Tone::Dim),
                match t.sketch {
                    Some(s) => toned(s, Tone::Plain),
                    None => toned("none — press s"@, Tone::Dim),
                },
            ],
        }
    }

    pub open spec fn header(self) -> HeaderView {
        HeaderView {
            line: self.header_line(),
            title: seq![
                strong(" fluxus "@, Tone::Accent),
                toned(
                    (match self.root_name {
                        Some(n) => n,
                        None => Seq::empty(),
                    }) + " "@,
                    Tone::Dim,
                ),
            ],
            right: seq![toned(" arduino-cli "@ + self.cli_version + " "@, Tone::Dim)],
            bottom: error_line(self.project_err),
        }
    }
}

pub fn header(app: &App) -> (r: Header)
    ensures
        r.deep_view() == app@.header(),
{
    let mut line: Vec<Span> = Vec::new();
    if app.active < app.boards.len() {
        let t = &app.boards[app.active];
        assert(app@.boards[app.active as int] == t.deep_view());
        add_span(&mut line, " ".to_owned(), Tone::Plain);
        add_bold(&mut line, t.name.clone(), Tone::Gold);
        add_span(&mut line, text::cat2("  ", t.fqbn.as_str()), Tone::Dim);
        add_span(&mut line, "    ".to_owned(), Tone::Plain);
        match app.port_of(app.active) {
            Some(d) => add_span(
                &mut line,
                text::cat2("● ", d.port.address.as_str()),
                Tone::Good,
            ),
            None => match &t.port {
                Some(p) => add_span(
                    &mut line,
                    text::cat3("○ ", p.as_str(), " (unplugged)"),
                    Tone::Bad,
                ),
                None => add_span(&mut line, "○ not connected".to_owned(), Tone::Dim),
            },
        }
        add_span(&mut line, "    sketch ".to_owned(), Tone::Dim);
        match &t.sketch {
            Some(s) => add_span(&mut line, s.clone(), Tone::Plain),
            None => add_span(&mut line, "none — press s".to_owned(), Tone::Dim),
        }
    } else {
        add_span(&mut line, text::cat2(" ", app.no_boards().as_str()), Tone::Dim);
    }
    assert(line.deep_view() =~= app@.header_line());
    let mut title: Vec<Span> = Vec::new();
    add_bold(&mut title, " fluxus ".to_owned(), Tone::Accent);
    let name = match &app.root_name {
        Some(n) => n.clone(),
        None => String::new(),
    };
    add_span(&mut title, text::cat2(name.as_str(), " "), Tone::Dim);
    assert(title.deep_view() =~= app@.header().title);
    let right = one_span(text::cat3(" arduino-cli ", app.cli_version.as_str(), " "), Tone::Dim);
    Header { line, title, right, bottom: error_spans(&app.project_err) }
}

// -- the row of tabs --

/// The tabs, each with the number that leads to it.
pub open spec fn tab_titles(n: int) -> Seq<Seq<char>>
    decreases n,
{
    if n <= 0 {
        Seq::empty()
    } else {
        tab_titles(n - 1).push(
            " "@ + text::decimal(n as nat) + " "@ + Tab::ALL@[n - 1].name() + " "@,
        )
    }
}

/// The titles of the tabs, and the place of the one that is shown.
pub fn tab_bar(app: &App) -> (r: (Vec<String>, usize))
    ensures
        r.0.deep_view() == tab_titles(4),
        r.1 == app@.tab.place(),
{
    let mut titles: Vec<String> = Vec::new();
    assert(titles.deep_view() =~= tab_titles(0));
    for i in 0..Tab::ALL.len()
        invariant
            titles.deep_view() == tab_titles(i as int),
    {
        let n = text::number(i as u64 + 1);
        let tab = Tab::ALL[i];
        push_item(&mut titles, text::cat5(" ", n.as_str(), " ", tab.title(), " "));
    }
    (titles, app.tab.index())
}

// -- the keys --

pub const PICKER_KEYS: [(&'static str, &'static str); 4] = [
    ("type", "filter"),
    ("↑↓", "move"),
    ("enter", "choose"),
    ("esc", "cancel"),
];

pub const INPUT_KEYS: [(&'static str, &'static str); 3] = [
    ("type", "message"),
    ("enter", "send"),
    ("esc", "done"),
];

pub const JOB_KEYS: [(&'static str, &'static str); 4] = [
    ("j/k", "scroll"),
    ("esc", "cancel"),
    ("tab", "switch"),
    ("q", "quit"),
];

pub const BUILD_KEYS: [(&'static str, &'static str); 7] = [
    ("c", "compile"),
    ("u", "upload"),
    ("F", "flash all"),
    ("m", "monitor"),
    ("s", "sketch"),
    ("j/k", "scroll"),
    ("q", "quit"),
];

pub const MONITOR_KEYS: [(&'static str, &'static str); 8] = [
    ("m", "open/close"),
    ("←→", "pane"),
    ("i", "send"),
    ("+/-", "baud"),
    ("x", "clear"),
    ("j/k", "scroll"),
    ("u", "upload"),
    ("q", "quit"),
];

pub const SETTINGS_KEYS: [(&'static str, &'static str); 3] = [
    ("j/k", "move"),
    ("←→", "change"),
    ("q", "quit"),
];

pub const PORT_KEYS: [(&'static str, &'static str); 5] = [
    ("enter", "add to project"),
    ("j/k", "move"),
    ("a", "add by hand"),
    ("F", "flash all"),
    ("q", "quit"),
];

pub const PROJECT_KEYS: [(&'static str, &'static str); 8] = [
    ("a", "add"),
    ("enter", "make active"),
    ("s", "sketch"),
    ("p", "port"),
    ("b", "board"),
    ("d", "remove"),
    ("F", "flash all"),
    ("q", "quit"),
];

impl AppView {
    /// The keys that do something now.
    pub open spec fn keys(self) -> Seq<(&'static str, &'static str)> {
        if self.picker is Some {
            PICKER_KEYS@
        } else if self.input is Some {
            INPUT_KEYS@
        } else if self.job is Some {
            JOB_KEYS@
        } else {
            match self.tab {
                Tab::Build => BUILD_KEYS@,
                Tab::Monitor => MONITOR_KEYS@,
                Tab::Settings => SETTINGS_KEYS@,
                Tab::Project => if self.on_port_row() {
                    PORT_KEYS@
                } else {
                    PROJECT_KEYS@
                },
            }
        }
    }
}

/// Each key with what it does.
pub open spec fn key_spans(keys: Seq<(&'static str, &'static str)>) -> Seq<SpanView>
    decreases keys.len(),
{
    if keys.len() == 0 {
        Seq::empty()
    } else {
        key_spans(keys.drop_last()).push(
            strong(" "@ + keys.last().0@ + " "@, Tone::Accent),
        ).push(toned(keys.last().1@ + "  "@, Tone::Dim))
    }
}

fn spans_of(keys: &[(&'static str, &'static str)]) -> (r: Vec<Span>)
    ensures
        r.deep_view() == key_spans(keys@),
{
    let mut line: Vec<Span> = Vec::new();
    assert(line.deep_view() =~= key_spans(keys@.take(0)));
    for i in 0..keys.len()
        invariant
            line.deep_view() == key_spans(keys@.take(i as int)),
    {
        assert(keys@.take(i + 1).drop_last() =~= keys@.take(i as int));
        let (k, v) = keys[i];
        add_bold(&mut line, text::cat3(" ", k, " "), Tone::Accent);
        add_span(&mut line, text::cat2(v, "  "), Tone::Dim);
    }
    assert(keys@.take(keys.len() as int) =~= keys@);
    line
}

pub fn footer(app: &App) -> (r: Vec<Span>)
    ensures
        r.deep_view() == key_spans(app@.keys()),
{
    if app.picker.is_some() {
        spans_of(PICKER_KEYS.as_slice())
    } else if app.input.is_some() {
        spans_of(INPUT_KEYS.as_slice())
    } else if app.job.is_some() {
        spans_of(JOB_KEYS.as_slice())
    } else {
        match app.tab {
            Tab::Build => spans_of(BUILD_KEYS.as_slice()),
            Tab::Monitor => spans_of(MONITOR_KEYS.as_slice()),
            Tab::Settings => spans_of(SETTINGS_KEYS.as_slice()),
            Tab::Project => if app.on_port_row() {
                spans_of(PORT_KEYS.as_slice())
            } else {
                spans_of(PROJECT_KEYS.as_slice())
            },
        }
    }
}

} // verus!
