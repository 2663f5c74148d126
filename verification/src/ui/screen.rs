//! What is seen on the screen, told by what there is to see.
use vstd::prelude::*;
use vstd::utf8::encode_utf8;

use super::bars::{key_spans, tab_titles, Body};
use super::picker::{labels, lemma_shared, shared, tree_row, way};
use super::spans::{SpanView, Theme, Tone};
use super::tables::{
    board_row, column, kind_widths, name_widths, port_row, port_widths, shown_path, widest,
};
use super::views::{columns, in_rows, log_tone, serial_tone, window, ContentView};
use crate::app::state::{AppView, Pick, PickerView, Tab};
use crate::lists::{lemma_seek, seek};
use crate::project::resolved;
use crate::text;

verus! {

pub open spec fn seen(text: Seq<char>, tone: Tone, bold: bool) -> SpanView {
    SpanView { text, tone, bold }
}

// -- the middle --

/// Each tab shows its own, and the log is shown with the monitors as soon as one of
/// them is open.
pub proof fn law_each_tab_shows_its_own(s: AppView)
    ensures
        s.tab == Tab::Monitor ==> s.body() == Body::Serial,
        s.tab == Tab::Project ==> s.body() == Body::Project,
        s.tab == Tab::Settings ==> s.body() == Body::Settings,
        s.tab == Tab::Build && (exists|i: int|
            0 <= i < s.panes.len() && (#[trigger] s.panes[i]).link is Some) ==> s.body()
            == Body::BuildAndSerial,
        s.tab == Tab::Build && (forall|i: int|
            0 <= i < s.panes.len() ==> (#[trigger] s.panes[i]).link is None) ==> s.body()
            == Body::Build,
{
    if exists|i: int| 0 <= i < s.panes.len() && (#[trigger] s.panes[i]).link is Some {
        let i = choose|i: int| 0 <= i < s.panes.len() && (#[trigger] s.panes[i]).link is Some;
        assert(s.linked(i));
    }
}

// -- the header --

/// The header says the name and the kind of the active board, its port and its
/// sketch.
pub proof fn law_the_header_shows_the_active_board(s: AppView, j: int)
    requires
        0 <= s.active < s.boards.len(),
    ensures
        ({
            let line = s.header().line;
            let t = s.boards[s.active];
            let at = resolved(s.boards, s.ports)[s.active];
            &&& line.len() == 7
            &&& line[0] == seen(" "@, Tone::Plain, false)
            &&& line[1] == seen(t.name, Tone::Gold, true)
            &&& line[2] == seen("  "@ + t.fqbn, Tone::Dim, false)
            &&& line[3] == seen("    "@, Tone::Plain, false)
            &&& at == Some(j) ==> line[4] == seen(
                "● "@ + s.ports[j].port.address,
                Tone::Good,
                false,
            )
            &&& at is None && t.port is Some ==> line[4] == seen(
                "○ "@ + t.port->0 + " (unplugged)"@,
                Tone::Bad,
                false,
            )
            &&& at is None && t.port is None ==> line[4] == seen(
                "○ not connected"@,
                Tone::Dim,
                false,
            )
            &&& line[5] == seen("    sketch "@, Tone::Dim, false)
            &&& t.sketch is Some ==> line[6] == seen(t.sketch->0, Tone::Plain, false)
            &&& t.sketch is None ==> line[6] == seen("none — press s"@, Tone::Dim, false)
        }),
{
}

/// Without an active board, the header says what can be done. Its frame names the
/// project and the version, and what is wrong with the project file.
pub proof fn law_the_header_names_the_project(s: AppView)
    ensures
        s.active >= s.boards.len() ==> s.header().line == seq![
            seen(" "@ + s.no_boards(), Tone::Dim, false),
        ],
        s.header().title.len() == 2,
        s.header().title[0] == seen(" fluxus "@, Tone::Accent, true),
        s.root_name is Some ==> s.header().title[1] == seen(s.root_name->0 + " "@, Tone::Dim, false),
        s.root_name is None ==> s.header().title[1] == seen(
            Seq::<char>::empty() + " "@,
            Tone::Dim,
            false,
        ),
        s.header().right == seq![seen(" arduino-cli "@ + s.cli_version + " "@, Tone::Dim, false)],
        s.project_err is None ==> s.header().bottom is None,
        s.project_err is Some ==> s.header().bottom == Some(
            seq![seen(" "@ + s.project_err->0 + " "@, Tone::Bad, false)],
        ),
{
}

// -- tabs and keys --

/// Every tab is shown at its place with the digit that leads to it.
pub proof fn law_tabs_show_their_digits()
    ensures
        tab_titles(4).len() == 4,
        tab_titles(4)[0] == " "@ + seq!['1'] + " "@ + "Build"@ + " "@,
        tab_titles(4)[1] == " "@ + seq!['2'] + " "@ + "Monitor"@ + " "@,
        tab_titles(4)[2] == " "@ + seq!['3'] + " "@ + "Project"@ + " "@,
        tab_titles(4)[3] == " "@ + seq!['4'] + " "@ + "Settings"@ + " "@,
        forall|i: int| 0 <= i < 4 ==> (#[trigger] Tab::ALL@[i]).place() == i,
{
    reveal_with_fuel(tab_titles, 5);
    text::law_decimals(0, 1);
    text::law_decimals(0, 2);
    text::law_decimals(0, 3);
    text::law_decimals(0, 4);
    assert(Tab::ALL@ == seq![Tab::Build, Tab::Monitor, Tab::Project, Tab::Settings]);
    assert(text::decimal(1) == seq!['1'] && text::decimal(2) == seq!['2']);
    assert(text::decimal(3) == seq!['3'] && text::decimal(4) == seq!['4']);
}

/// Each key is shown with what it does, in order.
pub proof fn law_keys_are_shown(keys: Seq<(&'static str, &'static str)>, i: int)
    requires
        0 <= i < keys.len(),
    ensures
        key_spans(keys).len() == 2 * keys.len(),
        key_spans(keys)[2 * i] == seen(" "@ + keys[i].0@ + " "@, Tone::Accent, true),
        key_spans(keys)[2 * i + 1] == seen(keys[i].1@ + "  "@, Tone::Dim, false),
    decreases keys.len(),
{
    let fewer = keys.drop_last();
    if i < fewer.len() {
        law_keys_are_shown(fewer, i);
        assert(fewer[i] == keys[i]);
    } else if fewer.len() > 0 {
        law_keys_are_shown(fewer, 0);
    } else {
        assert(key_spans(fewer) =~= Seq::<SpanView>::empty());
    }
}

/// The keys that are shown are those of an open list, else of a line that is
/// typed, else of a run, else of the tab.
pub proof fn law_keys_of_what_is_at_hand(s: AppView)
    ensures
        s.picker is Some ==> s.keys() == super::bars::PICKER_KEYS@,
        s.picker is None && s.input is Some ==> s.keys() == super::bars::INPUT_KEYS@,
        s.picker is None && s.input is None && s.job is Some ==> s.keys() == super::bars::JOB_KEYS@,
        s.picker is None && s.input is None && s.job is None ==> s.keys() == (match s.tab {
            Tab::Build => super::bars::BUILD_KEYS@,
            Tab::Monitor => super::bars::MONITOR_KEYS@,
            Tab::Settings => super::bars::SETTINGS_KEYS@,
            Tab::Project => if s.sel >= s.boards.len() {
                super::bars::PORT_KEYS@
            } else {
                super::bars::PROJECT_KEYS@
            },
        }),
{
}

// -- windows --

/// A window starts as many rows above the last full one as it is scrolled, and no
/// higher than at the first row. It is scrolled where rows follow it.
pub proof fn law_windows_move_up(count: int, height: int, scroll: int)
    requires
        0 <= count,
        0 <= height,
        0 <= scroll,
    ensures
        height + scroll <= count && count - height - scroll <= u16::MAX ==> window(
            count,
            height,
            scroll,
        ).top == count - height - scroll,
        count - height - scroll > u16::MAX ==> window(count, height, scroll).top == u16::MAX,
        height + scroll > count ==> window(count, height, scroll).top == 0,
        window(count, height, scroll).scrolled <==> count > height && scroll > 0,
{
}

// -- the log --

/// Lines that tell of errors, warnings, successes and commands stand out, in this
/// order.
pub proof fn law_lines_of_the_log_stand_out(l: Seq<char>)
    ensures
        ({
            let low = text::all_small(l);
            let bad = text::begins(l, "✗"@) || text::begins(l, "Error"@) || text::holds(
                low,
                "error:"@,
            );
            let warns = text::holds(low, "warning:"@);
            let good = text::begins(l, "✓"@) || text::begins(l, "Sketch uses"@) || text::begins(
                l,
                "Global variables"@,
            );
            &&& log_tone(l) == Tone::Bad <==> bad
            &&& log_tone(l) == Tone::Gold <==> !bad && warns
            &&& log_tone(l) == Tone::Good <==> !bad && !warns && good
            &&& log_tone(l) == Tone::Accent <==> !bad && !warns && !good && text::begins(l, "$ "@)
            &&& log_tone(l) == Tone::Plain <==> !bad && !warns && !good && !text::begins(l, "$ "@)
        }),
{
}

/// The log is shown line by line as it is, and the run that is going on is named
/// above it.
pub proof fn law_the_log_is_shown(s: AppView, i: int)
    ensures
        ({
            let v = s.build_view();
            &&& !v.active
            &&& s.job is None ==> v.title == seq![seen(" build "@, Tone::Plain, false)]
            &&& s.job is Some ==> v.title == seq![
                seen(" build — "@ + s.job->0 + "… "@, Tone::Gold, false),
            ]
            &&& s.log.len() == 0 ==> v.content == ContentView::Hint(
                "press c to compile, u to upload"@,
            )
            &&& 0 <= i < s.log.len() ==> {
                &&& v.content matches ContentView::Text { lines, scroll }
                &&& scroll == s.log_scroll
                &&& lines.len() == s.log.len()
                &&& lines[i] == seen(s.log[i], log_tone(s.log[i]), false)
            }
        }),
{
}

// -- the monitors --

/// Notes and lines that were sent stand out by their first character.
pub proof fn law_notes_stand_out(l: Seq<char>)
    ensures
        l.len() == 0 ==> serial_tone(l) == Tone::Plain,
        l.len() > 0 && l[0] == '─' ==> serial_tone(l) == Tone::Dim,
        l.len() > 0 && l[0] == '→' ==> serial_tone(l) == Tone::Accent,
        l.len() > 0 && l[0] != '─' && l[0] != '→' ==> serial_tone(l) == Tone::Plain,
{
}

/// A pane is shown under its board's name with its own port and rate, line by line.
/// One on which nothing is written says how to open it.
pub proof fn law_a_pane_is_shown(s: AppView, i: int, many: bool, k: int)
    requires
        0 <= i < s.panes.len(),
    ensures
        ({
            let v = s.pane_view(i, many);
            let p = s.panes[i];
            let rate = text::decimal(p.baud as nat);
            &&& v.active <==> many && i == s.active
            &&& v.title.len() == 2
            &&& i < s.boards.len() ==> v.title[0] == seen(
                " "@ + s.boards[i].name + " "@,
                Tone::Plain,
                false,
            )
            &&& i >= s.boards.len() ==> v.title[0] == seen(
                " "@ + "monitor"@ + " "@,
                Tone::Plain,
                false,
            )
            &&& p.link is Some ==> v.title[1] == seen(
                p.link->0.port + " @ "@ + rate + " "@,
                Tone::Good,
                false,
            )
            &&& p.link is None ==> v.title[1] == seen("closed @ "@ + rate + " "@, Tone::Dim, false)
            &&& (forall|m: int| 0 <= m < p.lines.len() ==> (#[trigger] p.lines[m]).len() == 0)
                ==> v.content == ContentView::Hint("press m to open the serial monitor"@)
            &&& 0 <= k < p.lines.len() && (exists|m: int|
                0 <= m < p.lines.len() && (#[trigger] p.lines[m]).len() > 0) ==> {
                &&& v.content matches ContentView::Text { lines, scroll }
                &&& scroll == p.scroll
                &&& lines.len() == p.lines.len()
                &&& lines[k] == seen(p.lines[k], serial_tone(p.lines[k]), false)
            }
        }),
{
}

/// Up to three frames stand in one row, and all rows but the last are full.
pub proof fn law_rows_are_filled(shown: Seq<int>, c: int, k: int)
    requires
        c > 0,
    ensures
        shown.len() <= 3 ==> columns(shown.len()) == shown.len(),
        0 <= k < in_rows(shown, c).len() - 1 ==> in_rows(shown, c)[k].len() == c,
    decreases shown.len(),
{
    if shown.len() > c {
        let rest = in_rows(shown.skip(c), c);
        if k > 0 {
            law_rows_are_filled(shown.skip(c), c, k - 1);
            assert(in_rows(shown, c) == seq![shown.take(c)] + rest);
            if k < rest.len() {
                assert(in_rows(shown, c)[k] == rest[k - 1]);
            }
        }
    }
}

/// The monitors are those that are on the screen, in rows; where there is none,
/// what can be done is said.
pub proof fn law_the_monitors_are_shown(s: AppView)
    ensures
        ({
            let g = s.grid();
            let shown = s.shown_panes();
            &&& shown.len() == 0 ==> g.hint == Some("add a board in Project (3), then press m"@)
            &&& shown.len() > 0 ==> g.hint is None
            &&& g.many <==> shown.len() > 1
            &&& g.rows == in_rows(shown, columns(shown.len()) as int)
        }),
        s.input is None ==> s.grid().input is None,
        s.input is Some ==> s.grid().input is Some && s.grid().input->0.line == seq![
            seen(s.input->0, Tone::Plain, false),
            seen("▏"@, Tone::Accent, false),
        ],
        s.input is Some && 0 <= s.active < s.boards.len() ==> s.grid().input->0.title
            == " send to "@ + s.boards[s.active].name + " "@,
        s.input is Some && s.active >= s.boards.len() ==> s.grid().input->0.title == " send "@,
{
}

// -- columns --

/// A column is two wider than its widest entry.
pub proof fn law_columns_fit_their_entries(ws: Seq<nat>, i: int)
    requires
        0 <= i < ws.len(),
        widest(ws) + 2 <= usize::MAX,
    ensures
        ws[i] + 2 <= column(ws),
        exists|k: int| 0 <= k < ws.len() && #[trigger] ws[k] + 2 == column(ws),
{
    lemma_widest(ws);
}

proof fn lemma_widest(ws: Seq<nat>)
    ensures
        forall|i: int| 0 <= i < ws.len() ==> #[trigger] ws[i] <= widest(ws),
        ws.len() > 0 ==> exists|k: int| 0 <= k < ws.len() && #[trigger] ws[k] == widest(ws),
    decreases ws.len(),
{
    if ws.len() > 0 {
        let fewer = ws.drop_last();
        lemma_widest(fewer);
        assert forall|i: int| 0 <= i < ws.len() implies #[trigger] ws[i] <= widest(ws) by {
            if i < fewer.len() {
                assert(fewer[i] == ws[i]);
            }
        }
        if ws.last() > widest(fewer) {
            assert(ws[ws.len() - 1] == widest(ws));
        } else if fewer.len() > 0 {
            let k = choose|k: int| 0 <= k < fewer.len() && #[trigger] fewer[k] == widest(fewer);
            assert(ws[k] == widest(ws));
        } else {
            assert(ws[0] == widest(ws));
        }
    }
}

// -- boards and ports --

/// The port of a board as its row shows it.
pub open spec fn shown_port(s: AppView, i: int) -> Seq<char> {
    match resolved(s.boards, s.ports)[i] {
        Some(j) => "● "@ + s.ports[j].port.address,
        None => match s.boards[i].port {
            Some(p) => "○ "@ + p,
            None => "○ not connected"@,
        },
    }
}

/// Every board has its row: whether it is the active one, its name, its kind, its
/// port and its sketch, each column as wide as all rows need.
pub proof fn law_a_row_for_each_board(s: AppView, i: int)
    requires
        0 <= i < s.boards.len(),
    ensures
        ({
            let t = s.boards[i];
            let v = s.board_table();
            let row = v.rows[i];
            let at = resolved(s.boards, s.ports)[i];
            let names = Seq::new(s.boards.len(), |k: int| s.boards[k].name.len());
            let kinds = Seq::new(
                s.boards.len(),
                |k: int| (encode_utf8(s.boards[k].fqbn).len() as usize) as nat,
            );
            let ports = Seq::new(s.boards.len(), |k: int| shown_port(s, k).len());
            &&& v.rows.len() == s.boards.len()
            &&& row.len() == 5
            &&& i == s.active ==> row[0] == seen(" ▸ "@, Tone::Accent, false)
            &&& i != s.active ==> row[0] == seen("   "@, Tone::Accent, false)
            &&& row[1] == seen(text::padded(t.name, column(names)), Tone::Gold, false)
            &&& row[2] == seen(text::padded(t.fqbn, column(kinds)), Tone::Dim, false)
            &&& row[3].text == text::padded(shown_port(s, i), column(ports))
            &&& row[3].tone == (if at is Some {
                Tone::Good
            } else if t.port is Some {
                Tone::Bad
            } else {
                Tone::Dim
            })
            &&& t.sketch is Some ==> row[4] == seen(t.sketch->0, Tone::Plain, false)
            &&& t.sketch is None ==> row[4] == seen("no sketch"@, Tone::Dim, false)
        }),
{
    let names = Seq::new(s.boards.len(), |k: int| s.boards[k].name.len());
    let kinds = Seq::new(
        s.boards.len(),
        |k: int| (encode_utf8(s.boards[k].fqbn).len() as usize) as nat,
    );
    let ports = Seq::new(s.boards.len(), |k: int| shown_port(s, k).len());
    assert(names =~= name_widths(s));
    assert(kinds =~= kind_widths(s));
    assert(ports =~= port_widths(s));
    assert(s.board_table().rows[i] == board_row(s, i));
}

/// The boards are counted, and the selected one is marked where one is selected.
pub proof fn law_the_boards_are_counted(s: AppView)
    ensures
        s.board_table().title == seq![
            seen(" boards ("@ + text::decimal(s.boards.len()) + ") "@, Tone::Plain, false),
        ],
        s.board_table().bottom is None,
        s.sel < s.boards.len() ==> s.board_table().sel == Some(s.sel) && s.port_table().sel is None,
        s.sel >= s.boards.len() ==> s.board_table().sel is None && s.port_table().sel == Some(
            s.sel - s.boards.len(),
        ),
{
}

/// Every free port has its row: its address, its protocol and the first board of a
/// known kind that it reports.
pub proof fn law_a_row_for_each_free_port(s: AppView, k: int, b: int)
    requires
        0 <= k < s.free_ports().len(),
    ensures
        ({
            let d = s.ports[s.free_ports()[k]];
            let v = s.port_table();
            let row = v.rows[k];
            let bs = d.matching_boards;
            &&& v.rows.len() == s.free_ports().len()
            &&& row[0] == seen("   "@ + text::padded(d.port.address, 34), Tone::Plain, false)
            &&& row[1] == seen(text::padded(d.port.protocol_label, 20), Tone::Dim, false)
            &&& 0 <= b < bs.len() && bs[b].fqbn.len() > 0 && (forall|m: int|
                0 <= m < b ==> (#[trigger] bs[m]).fqbn.len() == 0) ==> {
                &&& row.len() == 4
                &&& row[2] == seen(bs[b].name, Tone::Good, false)
                &&& row[3] == seen("  "@ + bs[b].fqbn, Tone::Dim, false)
            }
            &&& (forall|m: int| 0 <= m < bs.len() ==> (#[trigger] bs[m]).fqbn.len() == 0) ==> {
                &&& row.len() == 3
                &&& row[2] == seen("unknown board — you pick the type"@, Tone::Dim, false)
            }
        }),
{
    let d = s.ports[s.free_ports()[k]];
    let bs = d.matching_boards;
    assert(s.port_table().rows[k] == port_row(d));
    let p = crate::app::picking::of_known_kind(bs);
    lemma_seek(0, bs.len() as int, p);
    let f = seek(0, bs.len() as int, p);
    if f < bs.len() {
        assert(p(f));
    }
    if 0 <= b < bs.len() && bs[b].fqbn.len() > 0 {
        assert(p(b));
    }
}

/// The free ports are counted once they were looked for, and what went wrong with
/// that is said.
pub proof fn law_the_ports_are_counted(s: AppView)
    ensures
        s.scanned ==> s.port_table().title == seq![
            seen(" new ports ("@ + text::decimal(s.free_ports().len()) + ") "@, Tone::Plain, false),
            seen("enter adds to project "@, Tone::Dim, false),
        ],
        !s.scanned ==> s.port_table().title == seq![
            seen(" new ports — scanning… "@, Tone::Plain, false),
        ],
        s.ports_err is None ==> s.port_table().bottom is None,
        s.ports_err is Some ==> s.port_table().bottom == Some(
            seq![seen(" "@ + s.ports_err->0 + " "@, Tone::Bad, false)],
        ),
{
}

// -- settings --

/// The settings are shown row by row, with the place where they are kept.
pub proof fn law_the_settings_are_shown(
    s: AppView,
    path: Option<Seq<char>>,
    home: Seq<char>,
    i: int,
)
    requires
        0 <= i < s.settings.rows().len(),
    ensures
        ({
            let v = s.settings_table(path, home);
            let r = s.settings.rows()[i];
            &&& v.sel == Some(s.set_sel)
            &&& v.bottom is None
            &&& v.rows.len() == s.settings.rows().len()
            &&& v.rows[i] == seq![
                seen("   "@ + text::padded(r.0, 20), Tone::Plain, false),
                seen("‹ "@ + r.1 + " ›"@, Tone::Accent, false),
            ]
            &&& v.title == seq![
                seen(" settings "@, Tone::Plain, false),
                seen(shown_path(path, home) + " "@, Tone::Dim, false),
            ]
        }),
{
}

/// The home folder is shown short; every other path is shown whole.
pub proof fn law_the_home_folder_is_short(home: Seq<char>, rest: Seq<char>, p: Seq<char>)
    ensures
        home.len() > 0 ==> shown_path(Some(home + rest), home) == "~"@ + rest,
        home.len() == 0 ==> shown_path(Some(p), home) == p,
        !text::begins(p, home) ==> shown_path(Some(p), home) == p,
        shown_path(None, home) == "not saved — no HOME"@,
{
    text::law_parts_of_a_text(Seq::empty(), home, rest);
    let q = home + rest;
    assert(q.subrange(0, home.len() as int) =~= home);
    assert(q.skip(home.len() as int) =~= rest);
}

// -- lists --

/// An open list says what is picked and for which board, what was typed, and which
/// offer is selected.
pub proof fn law_a_list_says_what_it_is_for(s: AppView, p: PickerView)
    ensures
        ({
            let v = s.pick_list(p);
            let what = v.title[0].text;
            let named = 0 <= p.target < s.boards.len();
            let name = s.boards[p.target].name;
            &&& v.title.len() == 4
            &&& v.title[0] == seen(what, Tone::Dim, false)
            &&& p.kind == Pick::AddBoard ==> what == " add board"@
            &&& p.kind == Pick::Board && named ==> what == " board"@ + (" for "@ + name)
            &&& p.kind == Pick::Sketch && named ==> what == " sketch"@ + (" for "@ + name)
            &&& p.kind == Pick::Port && named ==> what == " port"@ + (" for "@ + name)
            &&& p.kind == Pick::Board && !named ==> what == " board"@
            &&& p.kind == Pick::Sketch && !named ==> what == " sketch"@
            &&& p.kind == Pick::Port && !named ==> what == " port"@
            &&& v.title[1] == seen(": "@, Tone::Dim, false)
            &&& v.title[2] == seen(p.query, Tone::Plain, false)
            &&& v.title[3] == seen("▏"@, Tone::Accent, false)
            &&& v.sel == p.sel
            &&& v.leaf <==> p.kind == Pick::Sketch
        }),
{
    assert(" board"@ + Seq::<char>::empty() =~= " board"@);
    assert(" sketch"@ + Seq::<char>::empty() =~= " sketch"@);
    assert(" port"@ + Seq::<char>::empty() =~= " port"@);
}

/// Where there is nothing at all to pick from, that is said in place of the list.
pub proof fn law_nothing_to_pick_from(s: AppView, p: PickerView)
    ensures
        ({
            let v = s.pick_list(p);
            let boards = p.kind == Pick::AddBoard || p.kind == Pick::Board;
            &&& v.empty is Some ==> v.items.len() == 0
            &&& boards && s.all_boards is None ==> v.empty == Some(
                seen("loading boards…"@, Tone::Dim, false),
            )
            &&& boards && (s.all_boards matches Some(Err(e))) ==> v.empty == Some(
                seen(s.all_boards->0->Err_0, Tone::Bad, false),
            )
            &&& boards && (s.all_boards matches Some(Ok(all)) && all.len() == 0) ==> v.empty == Some(
                seen(
                    "no cores installed — try: arduino-cli core install arduino:avr"@,
                    Tone::Dim,
                    false,
                ),
            )
            &&& boards && (s.all_boards matches Some(Ok(all)) && all.len() > 0) ==> v.empty is None
            &&& p.kind == Pick::Sketch && s.sketches.len() == 0 ==> v.empty == Some(
                seen("no .ino files under "@ + s.root, Tone::Dim, false),
            )
            &&& p.kind == Pick::Sketch && s.sketches.len() > 0 ==> v.empty is None
            &&& p.kind == Pick::Port && s.ports.len() == 0 ==> v.empty == Some(
                seen("no ports detected"@, Tone::Dim, false),
            )
            &&& p.kind == Pick::Port && s.ports.len() > 0 ==> v.empty is None
        }),
{
}

/// Boards and ports are listed one to a line, each with its detail.
pub proof fn law_offers_are_listed(s: AppView, p: PickerView, i: int)
    requires
        p.kind != Pick::Sketch,
        s.pick_list(p).empty is None,
        0 <= i < s.picks().len(),
    ensures
        s.pick_list(p).items.len() == s.picks().len(),
        s.pick_list(p).items[i] == seq![
            seq![
                seen(" "@ + text::padded(s.picks()[i].0, 40), Tone::Plain, false),
                seen(s.picks()[i].1, Tone::Dim, false),
            ],
        ],
{
}

/// Sketches are listed as a tree: under the folders that the one above does not
/// share, each with its file at its end and its detail behind it.
pub proof fn law_sketches_are_listed_as_a_tree(s: AppView, p: PickerView, i: int, d: int)
    requires
        p.kind == Pick::Sketch,
        s.pick_list(p).empty is None,
        0 <= i < s.picks().len(),
    ensures
        ({
            let root = match s.root_name {
                Some(n) => n,
                None => "sketch"@,
            };
            let (dirs, file) = way(s.picks()[i].0, root);
            let up = if i > 0 {
                way(s.picks()[i - 1].0, root).0
            } else {
                Seq::empty()
            };
            let item = s.pick_list(p).items[i];
            let from = dirs.len() - (item.len() - 1);
            &&& s.pick_list(p).items.len() == s.picks().len()
            &&& 0 <= from <= dirs.len()
            &&& 0 <= d < from ==> d < up.len() && up[d] == dirs[d]
            &&& from < dirs.len() ==> !(from < up.len() && up[from] == dirs[from])
            &&& dirs.len() <= usize::MAX && from <= d < dirs.len() ==> item[d - from] == seq![
                seen(" "@ + text::spaces((2 * d) as nat) + dirs[d] + "/"@, Tone::Dim, false),
            ]
            &&& dirs.len() <= usize::MAX ==> item.last() == seq![
                seen(text::spaces((1 + 2 * dirs.len()) as nat), Tone::Plain, false),
                seen(file, Tone::Good, true),
                seen("  "@ + s.picks()[i].1, Tone::Dim, false),
            ]
        }),
{
    let picks = s.picks();
    let root = s.root_label();
    let (dirs, file) = way(picks[i].0, root);
    let ls = labels(picks);
    let up = super::picker::above(ls, root, i);
    if i > 0 {
        assert(ls[i - 1] == picks[i - 1].0);
    }
    assert(ls[i] == picks[i].0);
    lemma_shared(up, dirs);
    let from = shared(up, dirs);
    let row = tree_row(up, picks[i].0, root);
    let item = s.pick_list(p).items[i];
    assert(item == super::picker::tree_item(row, picks[i].1));
    assert(item.len() == dirs.len() - from + 1);
    if dirs.len() <= usize::MAX && from <= d < dirs.len() {
        assert(row.0[d - from] == ((from + (d - from)) as usize, dirs[from + (d - from)]));
        assert(item[d - from] == super::picker::folder_line(d as nat, dirs[d]));
    }
}

/// The way to a sketch folder goes through all its folders to the file of the last
/// one; a loose file is at the end of its own way; the project's own folder is at
/// the root.
pub proof fn law_the_way_to_a_sketch(label: Seq<char>, root: Seq<char>)
    ensures
        ({
            let parts = text::split(label, '/');
            let (dirs, file) = way(label, root);
            &&& way("."@, root) == (Seq::<Seq<char>>::empty(), root + ".ino"@)
            &&& label != "."@ && text::ends(parts.last(), ".ino"@) ==> dirs.push(file) == parts
            &&& label != "."@ && !text::ends(parts.last(), ".ino"@) ==> dirs == parts && file
                == parts.last() + ".ino"@
            &&& text::joined(parts, seq!['/']) == label
        }),
{
    let parts = text::split(label, '/');
    text::law_split_and_join(label, '/');
    assert(parts.drop_last().push(parts.last()) =~= parts);
}

// -- colours --

/// Each tone has its own colour of the theme; plain text has none.
pub proof fn law_tones_have_their_colours(t: Theme)
    ensures
        t.gives(Tone::Plain) is None,
        t.gives(Tone::Accent) == Some(t.accent),
        t.gives(Tone::Good) == Some(t.good),
        t.gives(Tone::Bad) == Some(t.bad),
        t.gives(Tone::Dim) == Some(t.dim),
        t.gives(Tone::Gold) == Some(t.gold),
{
}

} // verus!
