//! What each key, each event and each answer leads to.
use vstd::prelude::*;

use super::events::{in_order, paths, started, FoundView, Setup};
use super::keys::scrolled;
use super::pane::PaneView;
use super::state::{
    ActionView, Answer, AppEvent, AppView, Key, KeyPress, Pick, PickerView, Tab,
};
use crate::cli::{AttachedView, BoardView, DetectedView};
use crate::lists::{lemma_places, lemma_seek, seek};
use crate::project::{resolved, TargetView};
use crate::settings::ROWS;
use crate::text;

verus! {

pub open spec fn typed(c: char) -> KeyPress {
    KeyPress { code: Key::Char(c), control: false }
}

pub open spec fn pressed(code: Key) -> KeyPress {
    KeyPress { code, control: false }
}

/// `by` lines further up, as far as there are `n` of them.
pub open spec fn further_up(pos: int, by: int, n: int) -> int {
    if pos + by <= n {
        pos + by
    } else {
        n
    }
}

/// `by` lines further down, as far as the end.
pub open spec fn further_down(pos: int, by: int) -> int {
    if pos - by >= 0 {
        pos - by
    } else {
        0
    }
}

pub open spec fn log_at(s: AppView, pos: int) -> AppView {
    AppView { log_scroll: pos, ..s }
}

pub open spec fn pane_at(s: AppView, pos: int) -> AppView {
    AppView {
        panes: s.panes.update(s.active, PaneView { scroll: pos, ..s.panes[s.active] }),
        ..s
    }
}

pub open spec fn list_at(s: AppView, p: PickerView) -> AppView {
    AppView { picker: Some(p), ..s }
}

// -- everywhere --

/// What the keys do that work on every tab, while no list is open and no line is
/// typed.
#[verifier::rlimit(40)]
pub proof fn law_keys_that_work_everywhere(s: AppView, c: char)
    requires
        s.picker is None,
        s.input is None,
    ensures
        ({
            let t = s.key(typed(c));
            &&& c == 'q' ==> t == (AppView { quit: true, ..s })
            &&& c == '1' ==> t == (AppView { tab: Tab::Build, ..s })
            &&& c == '2' ==> t == (AppView { tab: Tab::Monitor, ..s })
            &&& c == '3' ==> t == (AppView { tab: Tab::Project, ..s })
            &&& c == '4' ==> t == (AppView { tab: Tab::Settings, ..s })
            &&& c == 'a' ==> t == s.open(Pick::AddBoard, 0)
            &&& c == 'c' ==> t == s.compile()
            &&& c == 'u' ==> t == s.start_uploads(seq![s.active])
            &&& c == 'F' ==> t == s.flash_all()
            &&& c == 'm' ==> t == s.toggle_monitor()
            &&& c == 'I' && 0 <= s.active < s.boards.len() ==> t == s.install_core(
                super::jobs::core_of(s.boards[s.active].fqbn),
            )
            &&& c == 'I' && !(0 <= s.active < s.boards.len()) ==> t == s
        }),
{
}

/// A run that is going on can be cancelled from every tab.
#[verifier::rlimit(40)]
pub proof fn law_a_run_can_be_cancelled(s: AppView)
    requires
        s.picker is None,
        s.input is None,
        s.job is Some,
    ensures
        s.key(pressed(Key::Esc)) == s.cancel(),
{
}

/// Two keys step through the tabs, forward and back.
#[verifier::rlimit(40)]
pub proof fn law_tabs_are_stepped_through(s: AppView, k: Key)
    requires
        s.picker is None,
        s.input is None,
    ensures
        k == Key::Tab ==> s.key(pressed(k)) == s.cycle_tab(1),
        k == Key::BackTab ==> s.key(pressed(k)) == s.cycle_tab(3),
{
}

/// The tabs follow one another in their order, and the first follows the last.
pub proof fn law_tabs_follow_in_order(s: AppView)
    ensures
        s.cycle_tab(1) == (AppView {
            tab: match s.tab {
                Tab::Build => Tab::Monitor,
                Tab::Monitor => Tab::Project,
                Tab::Project => Tab::Settings,
                Tab::Settings => Tab::Build,
            },
            ..s
        }),
        s.cycle_tab(3) == (AppView {
            tab: match s.tab {
                Tab::Build => Tab::Settings,
                Tab::Monitor => Tab::Build,
                Tab::Project => Tab::Monitor,
                Tab::Settings => Tab::Project,
            },
            ..s
        }),
{
    assert(Tab::ALL@ == seq![Tab::Build, Tab::Monitor, Tab::Project, Tab::Settings]);
}

/// Lists open for the board at hand: the selected one of the project, or else the
/// active one. Where there is none, a board is to be added.
#[verifier::rlimit(40)]
pub proof fn law_lists_open_for_the_board_at_hand(s: AppView, c: char)
    requires
        s.picker is None,
        s.input is None,
    ensures
        ({
            let at = if s.tab == Tab::Project {
                s.sel
            } else {
                s.active
            };
            let t = s.key(typed(c));
            &&& c == 'b' && at < s.boards.len() ==> t == s.open(Pick::Board, at)
            &&& c == 's' && at < s.boards.len() ==> t == s.open(Pick::Sketch, at)
            &&& c == 'p' && at < s.boards.len() ==> t == s.open(Pick::Port, at)
            &&& c == 'b' && at >= s.boards.len() ==> t == s.open(Pick::AddBoard, 0)
            &&& (c == 's' || c == 'p') && at >= s.boards.len() ==> t == s.tab_key(Key::Char(c))
        }),
{
}

/// A key that means something everywhere.
pub open spec fn means_the_same_everywhere(k: Key) -> bool {
    match k {
        Key::Char(c) => c == 'q' || c == '1' || c == '2' || c == '3' || c == '4' || c == 'a' || c
            == 'b' || c == 's' || c == 'p' || c == 'c' || c == 'u' || c == 'F' || c == 'I' || c
            == 'm',
        Key::Tab | Key::BackTab | Key::Esc => true,
        _ => false,
    }
}

/// A key that means nothing everywhere is taken by the tab that is shown.
#[verifier::rlimit(40)]
pub proof fn law_the_tab_takes_what_is_left(s: AppView, k: Key)
    requires
        s.picker is None,
        s.input is None,
        !means_the_same_everywhere(k) || (k == Key::Esc && s.job is None),
    ensures
        s.tab == Tab::Build ==> s.key(pressed(k)) == log_at(
            s,
            scrolled(s.log_scroll, s.log.len() as int, k),
        ),
        s.tab == Tab::Monitor ==> s.key(pressed(k)) == s.monitor_key(k),
        s.tab == Tab::Project ==> s.key(pressed(k)) == s.project_key(k),
        s.tab == Tab::Settings ==> s.key(pressed(k)) == s.settings_key(k),
{
}

// -- the log --

/// How the log and the panes are scrolled: a line or a page up and down, to the
/// first line, and back to the end. Other keys leave them where they are.
pub proof fn law_keys_that_scroll(p: int, n: int, k: Key)
    requires
        0 <= p,
    ensures
        k == Key::Up || k == Key::Char('k') ==> scrolled(p, n, k) == further_up(p, 1, n),
        k == Key::PageUp ==> scrolled(p, n, k) == further_up(p, 20, n),
        k == Key::Down || k == Key::Char('j') ==> scrolled(p, n, k) == further_down(p, 1),
        k == Key::PageDown ==> scrolled(p, n, k) == further_down(p, 20),
        k == Key::Char('g') ==> scrolled(p, n, k) == n,
        k == Key::Char('G') ==> scrolled(p, n, k) == 0,
        k == Key::Left || k == Key::Right || k == Key::Enter || k == Key::Esc || k == Key::Backspace
            || k == Key::Other ==> scrolled(p, n, k) == p,
        k matches Key::Char(c) ==> (c != 'k' && c != 'j' && c != 'g' && c != 'G' ==> scrolled(
            p,
            n,
            k,
        ) == p),
{
}

// -- the project --

/// Moving down and up the project goes through the boards and then the free ports,
/// one row at a time, and stops at the ends.
pub proof fn law_the_project_is_walked(s: AppView, k: Key)
    requires
        0 <= s.sel,
    ensures
        ({
            let last = s.boards.len() + s.free_ports().len() - 1;
            let t = s.project_key(k);
            &&& k == Key::Down || k == Key::Char('j') ==> t == (AppView {
                sel: if last < 0 {
                    0
                } else if s.sel < last {
                    s.sel + 1
                } else {
                    last
                },
                ..s
            })
            &&& k == Key::Up || k == Key::Char('k') ==> t == (AppView {
                sel: if s.sel > 0 {
                    s.sel - 1
                } else {
                    0
                },
                ..s
            })
        }),
{
}

/// Choosing a row makes its board the active one, or adds the board at its port.
/// Only boards can be removed.
pub proof fn law_a_row_is_chosen(s: AppView, k: Key)
    requires
        0 <= s.sel,
    ensures
        ({
            let (n, free) = (s.boards.len(), s.free_ports());
            let t = s.project_key(k);
            &&& k == Key::Enter && s.sel < n ==> t == s.focus(s.sel)
            &&& k == Key::Enter && n <= s.sel < n + free.len() ==> t == s.add_from_port(
                free[s.sel - n],
            )
            &&& k == Key::Enter && s.sel >= n + free.len() ==> t == s
            &&& k == Key::Char('d') && s.sel < n ==> t == s.remove_board()
            &&& k == Key::Char('d') && s.sel >= n ==> t == s
            &&& k == Key::Left || k == Key::Right || k == Key::Esc || k == Key::PageUp || k
                == Key::PageDown || k == Key::Backspace || k == Key::Other ==> t == s
        }),
{
}

/// The free ports are those that no board is at, in order.
pub proof fn law_free_ports(s: AppView)
    ensures
        forall|k: int|
            0 <= k < s.free_ports().len() ==> 0 <= #[trigger] s.free_ports()[k] < s.ports.len()
                && !resolved(s.boards, s.ports).contains(Some(s.free_ports()[k])),
        forall|j: int|
            0 <= j < s.ports.len() && !(#[trigger] resolved(s.boards, s.ports).contains(Some(j)))
                ==> s.free_ports().contains(j),
        forall|a: int, b: int|
            0 <= a < b < s.free_ports().len() ==> #[trigger] s.free_ports()[a]
                < #[trigger] s.free_ports()[b],
{
    let p = super::lookups::unlinked(s.links());
    lemma_places(s.ports.len(), p);
    assert forall|k: int| 0 <= k < s.free_ports().len() implies 0 <= #[trigger] s.free_ports()[k]
        < s.ports.len() && !resolved(s.boards, s.ports).contains(Some(s.free_ports()[k])) by {
        assert(p(s.free_ports()[k]));
    }
    assert forall|j: int|
        0 <= j < s.ports.len() && !(#[trigger] resolved(s.boards, s.ports).contains(
            Some(j),
        )) implies s.free_ports().contains(j) by {
        assert(p(j));
    }
}

/// A board that is removed is gone, and no other; the active board stays the
/// active one, unless it is the one that is removed. What is left is saved.
pub proof fn law_a_board_is_removed(s: AppView)
    requires
        0 <= s.sel < s.boards.len(),
        0 <= s.active < s.boards.len(),
        s.boards.len() == s.panes.len(),
        s.panes[s.sel].link is None,
    ensures
        ({
            let t = s.remove_board();
            let n = s.boards.len() - 1;
            &&& t.boards == s.boards.remove(s.sel)
            &&& t.panes == s.panes.remove(s.sel)
            &&& s.active != s.sel ==> t.boards[t.active] == s.boards[s.active]
            &&& s.active != s.sel ==> t.active == if s.active > s.sel {
                s.active - 1
            } else {
                s.active
            }
            &&& s.active == s.sel ==> t.active == if s.sel < n {
                s.sel
            } else if n > 0 {
                n - 1
            } else {
                0
            }
            &&& t.sel == if s.sel < n {
                s.sel
            } else if n > 0 {
                n - 1
            } else {
                0
            }
            &&& s.project_err is None && !(s.root_is_sketch && n <= 1) ==> t.actions
                == s.actions.push(ActionView::SaveProject(s.boards.remove(s.sel)))
            &&& s.project_err is None && s.root_is_sketch && n <= 1 ==> t.actions == s.actions
            &&& s.project_err is None ==> t == (AppView {
                boards: t.boards,
                panes: t.panes,
                resume: t.resume,
                active: t.active,
                sel: t.sel,
                actions: t.actions,
                ..s
            })
        }),
{
}

/// Where the board that is removed is connected, its connection is closed first, as
/// it is by hand.
pub proof fn law_a_removed_board_is_closed_first(s: AppView)
    requires
        0 <= s.sel < s.boards.len(),
        s.boards.len() == s.panes.len(),
        s.panes[s.sel].link is Some,
    ensures
        s.stop_monitor(s.sel).panes[s.sel].link is None,
        s.remove_board() == s.stop_monitor(s.sel).remove_board(),
{
}

/// A pane that waits for its port waits on when another board is removed.
pub proof fn law_waiting_panes_wait_on(s: AppView, r: int)
    requires
        0 <= s.sel < s.boards.len(),
        s.boards.len() == s.panes.len(),
    ensures
        s.resume.contains(r) && r != s.sel ==> s.remove_board().resume.contains(
            if r > s.sel {
                r - 1
            } else {
                r
            },
        ),
        s.remove_board().resume.contains(r) ==> s.resume.contains(
            if r >= s.sel {
                r + 1
            } else {
                r
            },
        ),
{
    let at = s.sel;
    let p = super::keys::other_than(at);
    let f = s.resume.filter(p);
    let w = super::keys::closed_up(s.resume, at);
    assert(s.remove_board().resume == w);
    if s.resume.contains(r) && r != at {
        let k = choose|k: int| 0 <= k < s.resume.len() && s.resume[k] == r;
        assert(p(s.resume[k]));
        super::laws::lemma_filter_holds(s.resume, p, k);
        let m = choose|m: int| 0 <= m < f.len() && f[m] == r;
        assert(w[m] == if r > at {
            r - 1
        } else {
            r
        });
    }
    if w.contains(r) {
        let m = choose|m: int| 0 <= m < w.len() && w[m] == r;
        super::laws::lemma_filter_members(s.resume, p);
        assert(p(f[m]) && s.resume.contains(f[m]));
    }
}

// -- settings --

/// Moving through the settings goes one row at a time and stops at the ends;
/// changing a row steps it and writes the settings.
pub proof fn law_settings_are_walked_and_changed(s: AppView, k: Key)
    requires
        0 <= s.set_sel < ROWS,
    ensures
        ({
            let t = s.settings_key(k);
            let next = s.settings.step(s.set_sel, 1);
            let prev = s.settings.step(s.set_sel, -1);
            &&& k == Key::Down || k == Key::Char('j') ==> t == (AppView {
                set_sel: if s.set_sel < 3 {
                    s.set_sel + 1
                } else {
                    3
                },
                ..s
            })
            &&& k == Key::Up || k == Key::Char('k') ==> t == (AppView {
                set_sel: if s.set_sel > 0 {
                    s.set_sel - 1
                } else {
                    0
                },
                ..s
            })
            &&& k == Key::Right || k == Key::Enter || k == Key::Char('l') || k == Key::Char(' ')
                ==> t == (AppView {
                settings: next,
                actions: s.actions.push(ActionView::SaveSettings(next)),
                ..s
            })
            &&& k == Key::Left || k == Key::Char('h') ==> t == (AppView {
                settings: prev,
                actions: s.actions.push(ActionView::SaveSettings(prev)),
                ..s
            })
            &&& k == Key::Esc || k == Key::PageUp || k == Key::PageDown || k == Key::Backspace || k
                == Key::Other ==> t == s
        }),
{
}

// -- the monitor --

/// What the keys of the monitor do to the active pane.
pub proof fn law_keys_of_the_monitor(s: AppView, k: Key)
    requires
        0 <= s.active < s.panes.len(),
    ensures
        ({
            let p = s.panes[s.active];
            let t = s.monitor_key(k);
            let typing = k == Key::Enter || k == Key::Char('i');
            &&& typing && p.link is Some ==> t == (AppView { input: Some(Seq::empty()), ..s })
            &&& typing && p.link is None ==> t == s
            &&& k == Key::Char('+') || k == Key::Char('=') ==> t == s.step_baud(1)
            &&& k == Key::Char('-') ==> t == s.step_baud(-1)
            &&& k == Key::Left || k == Key::Char('h') ==> t == s.cycle_pane(-1)
            &&& k == Key::Right || k == Key::Char('l') ==> t == s.cycle_pane(1)
            &&& k == Key::Char('x') ==> t == (AppView {
                panes: s.panes.update(
                    s.active,
                    PaneView { lines: Seq::empty(), scroll: 0, ..p },
                ),
                ..s
            })
            &&& k == Key::Esc || k == Key::Backspace || k == Key::Other ==> t == s
        }),
{
    assert(s.panes.update(s.active, s.panes[s.active]) =~= s.panes);
}

/// How the active pane is scrolled, as the log is.
pub proof fn law_a_pane_scrolls(s: AppView, k: Key)
    requires
        0 <= s.active < s.panes.len(),
        0 <= s.panes[s.active].scroll,
    ensures
        ({
            let (p, n) = (s.panes[s.active].scroll, s.panes[s.active].lines.len() as int);
            let t = s.monitor_key(k);
            &&& k == Key::Up || k == Key::Char('k') ==> t == pane_at(s, further_up(p, 1, n))
            &&& k == Key::PageUp ==> t == pane_at(s, further_up(p, 20, n))
            &&& k == Key::Down || k == Key::Char('j') ==> t == pane_at(s, further_down(p, 1))
            &&& k == Key::PageDown ==> t == pane_at(s, further_down(p, 20))
            &&& k == Key::Char('g') ==> t == pane_at(s, n)
            &&& k == Key::Char('G') ==> t == pane_at(s, 0)
        }),
{
}

/// While a line is typed, it takes every key.
pub proof fn law_a_typed_line_takes_all_keys(s: AppView, k: Key)
    requires
        s.picker is None,
        s.input is Some,
    ensures
        s.key(pressed(k)) == s.input_key(k),
{
}

/// What is typed is put together letter by letter, and can be taken back.
pub proof fn law_a_line_is_typed(s: AppView, line: Seq<char>, c: char)
    requires
        s.input == Some(line),
    ensures
        s.input_key(Key::Char(c)) == (AppView { input: Some(line.push(c)), ..s }),
        s.input_key(Key::Char(c)).input_key(Key::Backspace) == s,
        s.input_key(Key::Esc) == (AppView { input: None, ..s }),
        line.len() == 0 ==> s.input_key(Key::Backspace) == s,
{
    assert(line.push(c).drop_last() =~= line);
    if line.len() == 0 {
        assert(crate::lists::popped(line) =~= line);
    }
}

/// A line that is sent goes to the active board and to no other, whole and with
/// the line ending of the settings; its pane shows it, and the next one can be
/// typed.
pub proof fn law_a_line_is_sent(s: AppView, line: Seq<char>)
    requires
        s.input == Some(line),
        0 <= s.active < s.panes.len(),
        s.panes[s.active].link is Some,
    ensures
        ({
            let t = s.input_key(Key::Enter);
            &&& t.actions == s.actions.push(
                ActionView::Send(s.panes[s.active].link->0.id, line + s.settings.eol()),
            )
            &&& t.input == Some(Seq::<char>::empty())
            &&& t.panes == s.panes.update(s.active, s.panes[s.active].note("→ "@ + line))
            &&& t == (AppView { actions: t.actions, input: t.input, panes: t.panes, ..s })
        }),
{
}

// -- lists --

/// While a list is open, it takes every key.
pub proof fn law_an_open_list_takes_all_keys(s: AppView, k: Key)
    requires
        s.picker is Some,
    ensures
        s.key(pressed(k)) == s.picker_key(k),
{
}

/// How an open list is typed into, walked and left.
pub proof fn law_a_list_is_walked(s: AppView, p: PickerView, c: char)
    requires
        s.picker == Some(p),
        0 <= p.sel,
    ensures
        ({
            let last = s.picks().len() - 1;
            &&& s.picker_key(Key::Char(c)) == list_at(s, PickerView { query: p.query.push(c), sel: 0, ..p })
            &&& s.picker_key(Key::Down) == list_at(
                s,
                PickerView {
                    sel: if last < 0 {
                        0
                    } else if p.sel < last {
                        p.sel + 1
                    } else {
                        last
                    },
                    ..p
                },
            )
            &&& s.picker_key(Key::Up) == list_at(
                s,
                PickerView {
                    sel: if p.sel > 0 {
                        p.sel - 1
                    } else {
                        0
                    },
                    ..p
                },
            )
            &&& p.query.len() > 0 ==> s.picker_key(Key::Backspace) == list_at(
                s,
                PickerView { query: p.query.drop_last(), sel: 0, ..p },
            )
            &&& s.picker_key(Key::Esc) == (AppView { picker: None, pending_port: None, ..s })
        }),
{
}

/// What is chosen from a list is the selected offer, for the board that the list
/// was opened for; the list is closed.
pub proof fn law_the_selected_offer_is_chosen(s: AppView, p: PickerView)
    requires
        s.picker == Some(p),
        0 <= p.sel,
    ensures
        p.sel < s.picks().len() ==> s.picker_key(Key::Enter) == (AppView {
            picker: None,
            ..s
        }).apply(p.kind, p.target, s.picks()[p.sel].0, s.picks()[p.sel].1),
        p.sel >= s.picks().len() ==> s.picker_key(Key::Enter) == s,
{
}

// -- events --

/// Ports that are found take the place of those before, sorted, and the error is
/// gone; where no pane waits, nothing else changes.
pub proof fn law_found_ports_are_taken(s: AppView, found: Seq<DetectedView>)
    ensures
        s.resume.len() == 0 ==> s.ports_found(found) == (AppView {
            ports: in_order(found),
            ports_err: None,
            scanned: true,
            ..s
        }),
        s.job is Some || s.asked is Some || s.queue.len() > 0 ==> s.ports_found(found) == (
        AppView { ports: in_order(found), ports_err: None, scanned: true, ..s }),
        s.ports_found(found) == (AppView {
            ports: in_order(found),
            ports_err: None,
            scanned: true,
            ..s
        }).resume_ready(),
{
    let t = AppView { ports: in_order(found), ports_err: None, scanned: true, ..s };
    if s.resume.len() == 0 {
        crate::lists::lemma_filter_none(t.resume, t.disconnected());
        crate::lists::lemma_filter_none(t.resume, t.connected());
        assert(t.resume =~= Seq::<int>::empty());
        assert(t.resume_ready() == t);
    }
}

/// What the events lead to.
pub proof fn law_events_lead_to(s: AppView, ev: AppEvent)
    ensures
        ev matches AppEvent::Ports(Ok(p)) ==> s.event(ev) == s.ports_found(p.deep_view()),
        ev matches AppEvent::Ports(Err(e)) ==> s.event(ev) == (AppView {
            ports_err: Some(e@),
            ..s
        }),
        ev matches AppEvent::AllBoards(Ok(v)) ==> s.event(ev) == s.boards_known(Ok(v.deep_view())),
        ev matches AppEvent::AllBoards(Err(e)) ==> s.event(ev) == s.boards_known(Err(e@)),
        ev matches AppEvent::Log(line) ==> s.event(ev) == s.logged(line@),
        ev matches AppEvent::Progress(line) ==> s.event(ev) == s.progressed(line@),
        ev matches AppEvent::JobDone(Ok(ok), secs) ==> s.event(ev) == s.job_done(Ok(ok), secs@),
        ev matches AppEvent::JobDone(Err(e), secs) ==> s.event(ev) == s.job_done(Err(e@), secs@),
        ev matches AppEvent::Serial(id, chunk) ==> s.event(ev) == s.serial(id as int, chunk@),
        ev matches AppEvent::SerialDone(id, Ok(x)) ==> s.event(ev) == s.serial_done(
            id as int,
            Ok(x),
        ),
        ev matches AppEvent::SerialDone(id, Err(e)) ==> s.event(ev) == s.serial_done(
            id as int,
            Err(e@),
        ),
        ev matches AppEvent::Defaults(d) ==> s.event(ev) == s.defaults_known(d.deep_view()),
{
}

/// What the answers lead to.
pub proof fn law_answers_lead_to(s: AppView, a: Answer)
    ensures
        a matches Answer::SketchRead { board, rel, yaml } ==> s.answer(a) == s.sketch_read(
            board as int,
            rel@,
            match yaml {
                Some(y) => Some(y@),
                None => None,
            },
        ),
        a matches Answer::BaudRead { board, yaml } ==> s.answer(a) == s.baud_read(
            board as int,
            match yaml {
                Some(y) => Some(y@),
                None => None,
            },
        ),
        a matches Answer::Built(Ok(d)) ==> s.answer(a) == s.built(Ok(d@)),
        a matches Answer::Built(Err(e)) ==> s.answer(a) == s.built(Err(e@)),
        a matches Answer::ProjectSaved(Ok(_)) ==> s.answer(a) == s,
        a matches Answer::SettingsSaved(Ok(_)) ==> s.answer(a) == s,
        a matches Answer::ProjectSaved(Err(e)) ==> s.answer(a) == (AppView {
            log: s.log.push("✗ couldn't save fluxus.yaml: "@ + e@),
            ..s
        }),
        a matches Answer::SettingsSaved(Err(e)) ==> s.answer(a) == (AppView {
            log: s.log.push("✗ couldn't save settings: "@ + e@),
            ..s
        }),
{
}

/// Board `k` is the first of its kind among all boards.
pub open spec fn first_of_kind(all: Seq<BoardView>, fqbn: Seq<char>, k: int) -> bool {
    &&& 0 <= k < all.len()
    &&& all[k].fqbn == fqbn
    &&& forall|l: int| 0 <= l < k ==> (#[trigger] all[l]).fqbn != fqbn
}

/// A kind that is known has the name of the first board of that kind; one that is
/// not stands for itself.
pub proof fn law_a_kind_has_its_name(s: AppView, all: Seq<BoardView>, fqbn: Seq<char>, k: int)
    requires
        s.all_boards == Some(Ok::<Seq<BoardView>, Seq<char>>(all)),
    ensures
        first_of_kind(all, fqbn, k) ==> s.board_name(fqbn) == all[k].name,
        (forall|l: int| 0 <= l < all.len() ==> (#[trigger] all[l]).fqbn != fqbn) ==> s.board_name(
            fqbn,
        ) == fqbn,
{
    let p = super::lookups::of_kind(all, fqbn);
    lemma_seek(0, all.len() as int, p);
    let f = seek(0, all.len() as int, p);
    if first_of_kind(all, fqbn, k) {
        assert(p(k));
        assert(p(f));
        if f < k {
            assert(all[f].fqbn != fqbn);
        }
    } else if f < all.len() {
        assert(p(f));
    }
}

/// While the boards are not known, a kind stands for itself.
pub proof fn law_unknown_kinds_stand_for_themselves(s: AppView, fqbn: Seq<char>)
    requires
        !(s.all_boards matches Some(Ok(_))),
    ensures
        s.board_name(fqbn) == fqbn,
{
}

/// Once the boards are known, a board that had only its kind for a name gets its
/// name; every other name, and all else of the boards, stays.
pub proof fn law_known_boards_are_named(
    s: AppView,
    all: Result<Seq<BoardView>, Seq<char>>,
    i: int,
)
    requires
        0 <= i < s.boards.len(),
    ensures
        ({
            let t = s.boards_known(all);
            &&& t.all_boards == Some(all)
            &&& t.boards.len() == s.boards.len()
            &&& t.boards[i] == (TargetView { name: t.boards[i].name, ..s.boards[i] })
            &&& t.boards[i].name == if s.boards[i].name == s.boards[i].fqbn {
                t.board_name(s.boards[i].fqbn)
            } else {
                s.boards[i].name
            }
            &&& t == (AppView { all_boards: t.all_boards, boards: t.boards, ..s })
        }),
{
}

/// A project that is one sketch, without a board, takes the board that its sketch
/// says: its kind and its port, with a blank pane. Any other takes none.
pub proof fn law_a_lone_sketch_brings_its_board(s: AppView, d: AttachedView)
    requires
        s.boards.len() == s.panes.len(),
    ensures
        ({
            let t = s.defaults_known(d);
            if s.root_is_sketch && s.boards.len() == 0 && d.fqbn.len() > 0 {
                &&& t.boards == seq![
                    TargetView {
                        name: s.board_name(d.fqbn),
                        fqbn: d.fqbn,
                        port: match d.port {
                            Some(p) => Some(p.address),
                            None => None,
                        },
                        sketch: Some("."@),
                    },
                ]
                &&& t.tab == Tab::Build
                &&& t.panes == seq![
                    PaneView {
                        lines: Seq::empty(),
                        scroll: 0,
                        baud: s.settings.baud,
                        link: None,
                    },
                ]
            } else {
                t == s
            }
        }),
{
    let t = s.defaults_known(d);
    if s.root_is_sketch && s.boards.len() == 0 && d.fqbn.len() > 0 {
        assert(t.boards =~= seq![t.boards[0]]);
        assert(t.panes =~= seq![t.panes[0]]);
    }
}

// -- the start --

/// The program starts with the boards of the project, each with a blank pane at
/// the rate of the settings, and with nothing going on. It shows the project where
/// there is no board, and the log otherwise.
pub proof fn law_the_program_starts_with_its_project(setup: Setup, boards: Seq<TargetView>)
    requires
        setup.project matches Ok(v) && v.deep_view() == boards,
    ensures
        ({
            let s = started(setup);
            &&& s.boards == boards
            &&& s.project_err is None
            &&& s.tab == if boards.len() == 0 {
                Tab::Project
            } else {
                Tab::Build
            }
            &&& s.panes.len() == boards.len()
            &&& forall|i: int|
                0 <= i < s.panes.len() ==> #[trigger] s.panes[i] == (PaneView {
                    lines: Seq::empty(),
                    scroll: 0,
                    baud: setup.settings.baud,
                    link: None,
                })
            &&& s.cli_version == setup.cli_version@
            &&& s.root == setup.root@
            &&& s.scratch == setup.scratch@
            &&& s.settings == setup.settings.deep_view()
            &&& s.active == 0 && s.sel == 0 && s.set_sel == 0 && s.mon_gen == 0
            &&& s.log.len() == 0 && s.log_scroll == 0 && !s.redrawing
            &&& s.job is None && s.asked is None && s.queue.len() == 0 && s.resume.len() == 0
            &&& s.picker is None && s.input is None && s.pending_port is None
            &&& s.ports.len() == 0 && s.ports_err is None && !s.scanned && s.all_boards is None
            &&& !s.quit
        }),
{
}

/// A project file that did not parse leaves the project empty, and why is kept.
pub proof fn law_a_broken_project_starts_empty(setup: Setup)
    requires
        setup.project is Err,
    ensures
        started(setup).boards.len() == 0,
        started(setup).panes.len() == 0,
        started(setup).project_err == Some(setup.project->Err_0@),
        started(setup).tab == Tab::Project,
{
}

/// All sketches that were found are kept, in their order. The project is one sketch
/// where its own folder is the only one.
pub proof fn law_found_sketches_are_kept(setup: Setup, i: int)
    requires
        0 <= i < setup.sketches@.len(),
    ensures
        started(setup).sketches.len() == setup.sketches@.len(),
        started(setup).sketches[i] == setup.sketches@[i].rel@,
        started(setup).root_is_sketch <==> setup.sketches@.len() == 1 && setup.sketches@[0].rel@
            == "."@,
{
    let found = setup.sketches.deep_view();
    assert(found[i] == setup.sketches@[i].deep_view());
    let p = paths(found);
    if setup.sketches@.len() == 1 {
        assert(found[0] == setup.sketches@[0].deep_view());
        if p[0] == "."@ {
            assert(p =~= seq!["."@]);
        }
    }
    if p == seq!["."@] {
        assert(p.len() == 1 && p[0] == "."@);
        assert(found[0] == setup.sketches@[0].deep_view());
    }
}

/// A sketch folder that was found once is made for the kind that its own file says,
/// and for none where it says none.
pub proof fn law_sketches_are_made_for_what_they_say(found: Seq<FoundView>, i: int)
    requires
        0 <= i < found.len(),
        forall|k: int| 0 <= k < found.len() && k != i ==> (#[trigger] found[k]).rel != found[i].rel,
    ensures
        ({
            let m = super::events::kinds_of(found);
            let says = if text::ends(found[i].rel, ".ino"@) || found[i].yaml is None {
                None
            } else {
                crate::sketch::value_at(found[i].yaml->0, "default_fqbn:"@)
            };
            match says {
                Some(kind) => m.contains_key(found[i].rel) && m[found[i].rel] == kind,
                None => !m.contains_key(found[i].rel),
            }
        }),
    decreases found.len(),
{
    let fewer = found.drop_last();
    if i < fewer.len() {
        assert(fewer[i] == found[i]);
        assert forall|k: int| 0 <= k < fewer.len() && k != i implies (#[trigger] fewer[k]).rel
            != fewer[i].rel by {
            assert(fewer[k] == found[k]);
        }
        law_sketches_are_made_for_what_they_say(fewer, i);
        assert(found[found.len() - 1].rel != found[i].rel);
    } else {
        assert forall|k: int| 0 <= k < fewer.len() implies (#[trigger] fewer[k]).rel
            != found[i].rel by {
            assert(fewer[k] == found[k]);
        }
        lemma_not_found(fewer, found[i].rel);
    }
}

proof fn lemma_not_found(found: Seq<FoundView>, rel: Seq<char>)
    requires
        forall|k: int| 0 <= k < found.len() ==> (#[trigger] found[k]).rel != rel,
    ensures
        !super::events::kinds_of(found).contains_key(rel),
    decreases found.len(),
{
    if found.len() > 0 {
        let fewer = found.drop_last();
        assert forall|k: int| 0 <= k < fewer.len() implies (#[trigger] fewer[k]).rel != rel by {
            assert(fewer[k] == found[k]);
        }
        lemma_not_found(fewer, rel);
        assert(found[found.len() - 1].rel != rel);
    }
}

/// At the start, the rate of each board's sketch folder is asked for, and nothing
/// else.
pub proof fn law_rates_are_asked_for(setup: Setup, i: int)
    requires
        setup.project is Ok,
        0 <= i < started(setup).boards.len(),
    ensures
        ({
            let s = started(setup);
            let b = s.boards[i];
            b.sketch is Some && !text::ends(b.sketch->0, ".ino"@) ==> s.actions.contains(
                ActionView::ReadBaud { board: i, rel: b.sketch->0 },
            )
        }),
        forall|k: int|
            0 <= k < started(setup).actions.len() ==> #[trigger] started(setup).actions[k]
                is ReadBaud,
{
    let s = started(setup);
    lemma_rate_asks(s.boards, s.boards.len(), i);
}

proof fn lemma_rate_asks(boards: Seq<TargetView>, n: nat, i: int)
    requires
        n <= boards.len(),
    ensures
        forall|k: int|
            0 <= k < super::events::rate_asks(boards, n).len() ==> #[trigger] super::events::rate_asks(
                boards,
                n,
            )[k] is ReadBaud,
        0 <= i < n && boards[i].sketch is Some && !text::ends(boards[i].sketch->0, ".ino"@)
            ==> super::events::rate_asks(boards, n).contains(
            ActionView::ReadBaud { board: i, rel: boards[i].sketch->0 },
        ),
    decreases n,
{
    if n > 0 {
        let fewer = super::events::rate_asks(boards, (n - 1) as nat);
        let all = super::events::rate_asks(boards, n);
        lemma_rate_asks(boards, (n - 1) as nat, i);
        if 0 <= i < n && boards[i].sketch is Some && !text::ends(boards[i].sketch->0, ".ino"@) {
            let a = ActionView::ReadBaud { board: i, rel: boards[i].sketch->0 };
            if i < n - 1 {
                let k = choose|k: int| 0 <= k < fewer.len() && fewer[k] == a;
                assert(all[k] == a);
            } else {
                assert(all[fewer.len() as int] == a);
            }
        }
    }
}

} // verus!
