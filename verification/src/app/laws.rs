//! What holds in every state, whatever happens.
use vstd::prelude::*;

use super::events::{in_order, started, Setup};
use super::keys::{closed_up, least, less_by, other_than, scrolled};
use super::monitor::lemma_start_monitor;
use super::pane::{
    clean, fresh_pane, law_no_junk_on_a_pane, law_pane_is_capped, LinkView, PaneView, SERIAL_CAP,
};
use super::state::{
    ActionView, Answer, AppEvent, AppView, Key, KeyPress, PendingView, Pick, PickerView, Tab,
};
use crate::lists::{lemma_places, lemma_seek, place, places, seek};
use crate::project::{law_a_new_board_gets_its_port, TargetView};
use crate::settings::ROWS;
use crate::text;

verus! {

// -- the invariant --

/// Connections have numbers that were given out, no two the same.
pub open spec fn ids_differ(panes: Seq<PaneView>, last: int) -> bool {
    &&& forall|i: int|
        0 <= i < panes.len() && (#[trigger] panes[i]).link is Some ==> 0 < panes[i].link->0.id
            <= last
    &&& forall|i: int, j: int|
        0 <= i < j < panes.len() && (#[trigger] panes[i]).link is Some && (
        #[trigger] panes[j]).link is Some ==> panes[i].link->0.id != panes[j].link->0.id
}

/// The panes that wait for their port are no longer connected, and none waits
/// twice.
pub open spec fn wait_apart(resume: Seq<int>, panes: Seq<PaneView>) -> bool {
    &&& forall|k: int|
        0 <= k < resume.len() ==> 0 <= #[trigger] resume[k] < panes.len() && panes[resume[k]].link is None
    &&& forall|k: int, l: int|
        0 <= k < l < resume.len() ==> #[trigger] resume[k] != #[trigger] resume[l]
}

/// A pane keeps no more lines than it may, and no control character in them.
pub open spec fn kept(p: PaneView) -> bool {
    p.lines.len() <= SERIAL_CAP && p.scroll >= 0 && clean(p.lines)
}

pub open spec fn all_kept(panes: Seq<PaneView>) -> bool {
    forall|i: int| 0 <= i < panes.len() ==> kept(#[trigger] panes[i])
}

/// What is picked is for a board that is there.
pub open spec fn aimed(picker: Option<PickerView>, n: nat) -> bool {
    picker matches Some(p) ==> p.sel >= 0 && (p.kind != Pick::AddBoard ==> 0 <= p.target < n)
}

/// Whoever types, types to a board that is connected.
pub open spec fn heard(input: Option<Seq<char>>, active: int, panes: Seq<PaneView>) -> bool {
    input is Some ==> 0 <= active < panes.len() && panes[active].link is Some
}

impl AppView {
    /// What holds of every state.
    pub open spec fn sound(self) -> bool {
        &&& self.paired()
        &&& 0 <= self.active
        &&& self.active < self.boards.len() || self.active == 0
        &&& 0 <= self.sel
        &&& 0 <= self.set_sel < ROWS
        &&& 0 <= self.mon_gen
        &&& 0 <= self.log_scroll
        &&& ids_differ(self.panes, self.mon_gen)
        &&& wait_apart(self.resume, self.panes)
        &&& all_kept(self.panes)
        &&& aimed(self.picker, self.boards.len())
        &&& heard(self.input, self.active, self.panes)
        &&& !(self.job is Some && self.asked is Some)
    }

    /// A connection with this number is open.
    pub open spec fn open_as(self, id: int) -> bool {
        exists|j: int| #[trigger] self.linked(j) && self.panes[j].link->0.id == id
    }

    /// From this state to the next, numbers only grow, and a connection that is
    /// open next was open before or has a number that is new.
    pub open spec fn leads_to(self, next: AppView) -> bool {
        &&& self.mon_gen <= next.mon_gen
        &&& forall|id: int| #[trigger]
            next.open_as(id) ==> self.open_as(id) || id > self.mon_gen
    }

    /// The next state is sound and its connections are old or new.
    pub open spec fn goes(self, next: AppView) -> bool {
        next.sound() && self.leads_to(next)
    }
}

proof fn lemma_goes(a: AppView, b: AppView, c: AppView)
    requires
        a.goes(b),
        b.goes(c),
    ensures
        a.goes(c),
{
}

/// What neither boards, panes, numbers nor modes change.
proof fn lemma_aside(s: AppView, t: AppView)
    requires
        s.sound(),
        t.panes == s.panes,
        t.boards.len() == s.boards.len(),
        t.active == s.active,
        t.sel >= 0,
        0 <= t.set_sel < ROWS,
        t.log_scroll >= 0,
        t.mon_gen == s.mon_gen,
        t.resume == s.resume,
        t.picker is None || aimed(t.picker, t.boards.len()),
        t.input is None || t.input is Some && s.input is Some,
        t.job is None || t.asked is None,
    ensures
        s.goes(t),
{
    assert forall|id: int| #[trigger] t.open_as(id) implies s.open_as(id) by {
        let j = choose|j: int| #[trigger] t.linked(j) && t.panes[j].link->0.id == id;
        assert(s.linked(j));
    }
}

// -- panes --

proof fn lemma_note_kept(p: PaneView, note: Seq<char>)
    requires
        p.scroll >= 0,
        clean(p.lines),
    ensures
        kept(p.note(note)),
        p.note(note).link == p.link,
{
    super::monitor::lemma_note_scroll(p, note);
    law_pane_is_capped(p, "\n"@);
    law_pane_is_capped(p, note + "\n"@);
    law_pane_is_capped(p.push("\n"@), note + "\n"@);
    law_no_junk_on_a_pane(p, "\n"@);
    law_no_junk_on_a_pane(p, note + "\n"@);
    law_no_junk_on_a_pane(p.push("\n"@), note + "\n"@);
}

/// A pane that changes without its connection.
proof fn lemma_repaint(s: AppView, i: int, q: PaneView)
    requires
        s.sound(),
        0 <= i < s.panes.len(),
        q.link == s.panes[i].link,
        kept(q),
    ensures
        s.goes(AppView { panes: s.panes.update(i, q), ..s }),
{
    let t = AppView { panes: s.panes.update(i, q), ..s };
    assert forall|j: int| 0 <= j < t.panes.len() implies (#[trigger] t.panes[j]).link
        == s.panes[j].link by {}
    assert(wait_apart(t.resume, t.panes));
    assert forall|id: int| #[trigger] t.open_as(id) implies s.open_as(id) by {
        let j = choose|j: int| #[trigger] t.linked(j) && t.panes[j].link->0.id == id;
        assert(s.linked(j));
    }
}

/// A pane that loses its connection.
proof fn lemma_unlink(s: AppView, i: int, q: PaneView)
    requires
        s.sound(),
        0 <= i < s.panes.len(),
        q.link is None,
        kept(q),
    ensures
        s.goes(
            AppView {
                panes: s.panes.update(i, q),
                input: if i == s.active {
                    None
                } else {
                    s.input
                },
                ..s
            },
        ),
{
    let t = AppView {
        panes: s.panes.update(i, q),
        input: if i == s.active {
            None
        } else {
            s.input
        },
        ..s
    };
    assert(wait_apart(t.resume, t.panes));
    assert forall|id: int| #[trigger] t.open_as(id) implies s.open_as(id) by {
        let j = choose|j: int| #[trigger] t.linked(j) && t.panes[j].link->0.id == id;
        assert(s.linked(j));
    }
}

proof fn lemma_stop_monitor(s: AppView, i: int)
    requires
        s.sound(),
    ensures
        s.goes(s.stop_monitor(i)),
        !s.stop_monitor(i).linked(i),
{
    if s.linked(i) {
        let p = PaneView { link: None, ..s.panes[i] };
        lemma_note_kept(p, "── closed ──"@);
        lemma_unlink(s, i, p.note("── closed ──"@));
        let t = AppView {
            panes: s.panes.update(i, p.note("── closed ──"@)),
            input: if i == s.active {
                None
            } else {
                s.input
            },
            ..s
        };
        lemma_aside(t, s.stop_monitor(i));
    }
}

proof fn lemma_start_one(s: AppView, i: int)
    requires
        s.sound(),
        !s.resume.contains(i),
    ensures
        s.goes(s.start_monitor(i)),
{
    if 0 <= i < s.panes.len() && !s.linked(i) {
        let p = s.panes[i];
        match s.port_of(i) {
            None => {
                lemma_note_kept(p, "── not connected ──"@);
                lemma_repaint(s, i, p.note("── not connected ──"@));
            },
            Some(d) => {
                let id = s.mon_gen + 1;
                let a = d.port.address;
                let note = "── "@ + a + " @ "@ + text::decimal(p.baud as nat) + " ──"@;
                lemma_note_kept(p, note);
                let t = s.start_monitor(i);
                let q = PaneView { link: Some(LinkView { port: a, id }), ..p.note(note) };
                assert(t.panes == s.panes.update(i, q));
                assert forall|k: int| 0 <= k < t.resume.len() implies 0 <= #[trigger] t.resume[k]
                    < t.panes.len() && t.panes[t.resume[k]].link is None by {
                    assert(s.resume.contains(s.resume[k]));
                }
                assert forall|id: int| #[trigger] t.open_as(id) implies s.open_as(id) || id
                    > s.mon_gen by {
                    let j = choose|j: int| #[trigger]
                        t.linked(j) && t.panes[j].link->0.id == id;
                    if j != i {
                        assert(s.linked(j));
                    }
                }
            },
        }
    }
}

proof fn lemma_start_list(s: AppView, list: Seq<int>)
    requires
        s.sound(),
        forall|k: int| 0 <= k < list.len() ==> !s.resume.contains(#[trigger] list[k]),
    ensures
        s.goes(s.start_all(list)),
        s.start_all(list).resume == s.resume,
    decreases list.len(),
{
    if list.len() > 0 {
        let fewer = list.drop_last();
        assert forall|k: int| 0 <= k < fewer.len() implies !s.resume.contains(
            #[trigger] fewer[k],
        ) by {
            assert(fewer[k] == list[k]);
        }
        lemma_start_list(s, fewer);
        let t = s.start_all(fewer);
        assert(list.last() == list[list.len() - 1]);
        lemma_start_one(t, list.last());
        lemma_start_monitor(t, list.last());
        lemma_goes(s, t, t.start_monitor(list.last()));
    }
}

/// What stopping monitors does.
proof fn lemma_stop_first(s: AppView, n: nat)
    requires
        n <= s.panes.len(),
        all_kept(s.panes),
    ensures
        ({
            let t = s.stop_first(n);
            &&& t.panes.len() == s.panes.len()
            &&& all_kept(t.panes)
            &&& forall|j: int|
                0 <= j < s.panes.len() ==> (#[trigger] t.panes[j]).link == if j < n {
                    None
                } else {
                    s.panes[j].link
                }
            &&& t.input is Some ==> s.input is Some && !(s.active < n && s.linked(s.active))
            &&& t == (AppView { panes: t.panes, input: t.input, actions: t.actions, ..s })
        }),
    decreases n,
{
    if n > 0 {
        let m = (n - 1) as nat;
        lemma_stop_first(s, m);
        let t = s.stop_first(m);
        if t.linked(m as int) {
            let p = PaneView { link: None, ..t.panes[m as int] };
            lemma_note_kept(p, "── closed ──"@);
        }
    }
}

/// Stopping every monitor leaves none connected.
proof fn lemma_stop_monitors(s: AppView)
    requires
        s.sound(),
    ensures
        s.goes(s.stop_monitors()),
        forall|i: int| !s.stop_monitors().linked(i),
{
    let t = s.stop_monitors();
    lemma_stop_first(s, s.panes.len());
    assert forall|id: int| #[trigger] t.open_as(id) implies s.open_as(id) by {
        let j = choose|j: int| #[trigger] t.linked(j) && t.panes[j].link->0.id == id;
        assert(t.panes[j].link is None);
    }
    assert(wait_apart(t.resume, t.panes));
    assert(ids_differ(t.panes, t.mon_gen));
}

/// One board more, with its pane.
pub open spec fn with_board(s: AppView, t: TargetView) -> AppView {
    (AppView { boards: s.boards.push(t), ..s }).new_pane(s.boards.len() as int)
}

proof fn lemma_with_board(s: AppView, b: TargetView)
    requires
        s.sound(),
    ensures
        s.goes(with_board(s, b)),
{
    let t = with_board(s, b);
    let i = s.boards.len() as int;
    assert(t.panes == s.panes.insert(i, fresh_pane(s.settings.baud)));
    assert forall|j: int| 0 <= j < s.panes.len() implies #[trigger] t.panes[j] == s.panes[j] by {}
    assert(t.panes[i] == fresh_pane(s.settings.baud));
    assert(wait_apart(t.resume, t.panes));
    assert forall|id: int| #[trigger] t.open_as(id) implies s.open_as(id) by {
        let j = choose|j: int| #[trigger] t.linked(j) && t.panes[j].link->0.id == id;
        assert(s.linked(j));
    }
}

// -- saving and picking --

proof fn lemma_save(s: AppView, mirror: Option<int>, with_baud: bool)
    requires
        s.sound(),
    ensures
        s.goes(s.save(mirror, with_baud)),
{
    lemma_aside(s, s.save(mirror, with_baud));
}

proof fn lemma_baud_read(s: AppView, i: int, yaml: Option<Seq<char>>)
    requires
        s.sound(),
    ensures
        s.goes(s.baud_read(i, yaml)),
{
    let t = s.baud_read(i, yaml);
    if 0 <= i < s.panes.len() && t != s {
        assert(kept(s.panes[i]));
        lemma_repaint(s, i, t.panes[i]);
    }
}

proof fn lemma_sketch_read(s: AppView, i: int, rel: Seq<char>, yaml: Option<Seq<char>>)
    requires
        s.sound(),
    ensures
        s.goes(s.sketch_read(i, rel, yaml)),
{
    if 0 <= i < s.boards.len() {
        let port = match s.boards[i].port {
            Some(a) => Some(a),
            None => match yaml {
                Some(y) => crate::sketch::value_at(y, "default_port:"@),
                None => None,
            },
        };
        let b = AppView {
            boards: s.boards.update(
                i,
                TargetView { port, sketch: Some(rel), ..s.boards[i] },
            ),
            ..s
        };
        lemma_aside(s, b);
        lemma_baud_read(b, i, yaml);
        lemma_save(b.baud_read(i, yaml), Some(i), false);
        lemma_goes(s, b, b.baud_read(i, yaml));
        lemma_goes(s, b.baud_read(i, yaml), b.baud_read(i, yaml).save(Some(i), false));
    }
}

proof fn lemma_set_sketch(s: AppView, i: int, rel: Seq<char>)
    requires
        s.sound(),
    ensures
        s.goes(s.set_sketch(i, rel)),
{
    lemma_sketch_read(s, i, rel, None);
    lemma_aside(s, s.act(ActionView::ReadSketch { board: i, rel }));
}

proof fn lemma_add_board(s: AppView, name: Seq<char>, fqbn: Seq<char>, port: Option<Seq<char>>)
    requires
        s.sound(),
    ensures
        s.goes(s.add_board(name, fqbn, port)),
{
    let made = s.sketches.filter(s.made_for(fqbn));
    let i = s.boards.len() as int;
    let b = TargetView { name, fqbn, port, sketch: None };
    lemma_with_board(s, b);
    let w = with_board(s, b);
    let t = AppView {
        sel: i,
        tab: Tab::Project,
        active: if i == 0 {
            0
        } else {
            w.active
        },
        ..w
    };
    assert(i == 0 ==> s.active == 0);
    lemma_aside(w, t);
    lemma_goes(s, w, t);
    if made.len() == 1 {
        lemma_set_sketch(t, i, made[0]);
        lemma_goes(s, t, t.set_sketch(i, made[0]));
    } else {
        lemma_save(t, None, false);
        let u = t.save(None, false);
        lemma_goes(s, t, u);
        lemma_aside(u, u.open(Pick::Sketch, i));
        lemma_goes(s, u, u.open(Pick::Sketch, i));
    }
}

proof fn lemma_add_from_port(s: AppView, j: int)
    requires
        s.sound(),
    ensures
        s.goes(s.add_from_port(j)),
{
    let d = s.ports[j];
    match super::picking::known_board(d) {
        Some(b) => lemma_add_board(s, b.name, b.fqbn, Some(d.port.address)),
        None => lemma_aside(s, s.add_from_port(j)),
    }
}

proof fn lemma_apply(s: AppView, kind: Pick, i: int, label: Seq<char>, detail: Seq<char>)
    requires
        s.sound(),
        s.picker is None,
    ensures
        s.goes(s.apply(kind, i, label, detail)),
{
    let free = AppView { pending_port: None, ..s };
    lemma_aside(s, free);
    if text::begins(detail, "install "@) {
        let core = detail.skip("install "@.len() as int);
        lemma_install_core(free, core);
        lemma_goes(s, free, free.install_core(core));
    } else {
        match kind {
            Pick::AddBoard => {
                lemma_add_board(free, label, detail, s.pending_port);
                lemma_goes(s, free, free.add_board(label, detail, s.pending_port));
            },
            Pick::Board => {
                if 0 <= i < s.boards.len() {
                    let b = AppView {
                        boards: s.boards.update(
                            i,
                            TargetView { name: label, fqbn: detail, ..s.boards[i] },
                        ),
                        ..s
                    };
                    lemma_aside(s, b);
                    lemma_save(b, Some(i), false);
                    lemma_goes(s, b, b.save(Some(i), false));
                } else {
                    lemma_aside(s, s);
                }
            },
            Pick::Sketch => lemma_set_sketch(s, i, label),
            Pick::Port => {
                if 0 <= i < s.boards.len() {
                    let b = AppView {
                        boards: s.boards.update(
                            i,
                            TargetView { port: Some(label), ..s.boards[i] },
                        ),
                        ..s
                    };
                    lemma_aside(s, b);
                    lemma_save(b, Some(i), false);
                    lemma_goes(s, b, b.save(Some(i), false));
                } else {
                    lemma_aside(s, s);
                }
            },
        }
    }
}

// -- runs --

proof fn lemma_install_core(s: AppView, core: Seq<char>)
    requires
        s.sound(),
    ensures
        s.goes(s.install_core(core)),
{
    lemma_aside(s, s.install_core(core));
}

proof fn lemma_compile(s: AppView)
    requires
        s.sound(),
    ensures
        s.goes(s.compile()),
{
    lemma_aside(s, s.compile());
}

proof fn lemma_next_upload(s: AppView)
    requires
        s.sound(),
        s.job is None,
    ensures
        s.goes(s.next_upload()),
    decreases s.queue.len(),
{
    if s.queue.len() > 0 {
        let i = s.queue[0];
        let t = AppView { queue: s.queue.drop_first(), ..s };
        match t.unprepared(i) {
            Some(why) => {
                lemma_aside(s, t.say(why));
                lemma_next_upload(t.say(why));
                lemma_goes(s, t.say(why), t.say(why).next_upload());
            },
            None => lemma_aside(s, s.next_upload()),
        }
    }
}

proof fn lemma_built(s: AppView, r: Result<Seq<char>, Seq<char>>)
    requires
        s.sound(),
    ensures
        s.goes(s.built(r)),
{
    let t = AppView { asked: None, ..s };
    lemma_aside(s, t);
    match s.asked {
        None => {},
        Some(PendingView::Compile { name, fqbn }) => lemma_aside(s, s.built(r)),
        Some(PendingView::Upload { board, name, fqbn }) => {
            let gone = t.say("✗ "@ + name + " isn't connected — plug it in or press p"@);
            lemma_aside(s, gone);
            lemma_next_upload(gone);
            lemma_goes(s, gone, gone.next_upload());
            match r {
                Err(e) => {
                    let u = t.say("✗ "@ + name + ": "@ + e);
                    lemma_aside(s, u);
                    lemma_next_upload(u);
                    lemma_goes(s, u, u.next_upload());
                },
                Ok(dir) => match t.port_of(board) {
                    None => {},
                    Some(d) => lemma_aside(s, s.built(r)),
                },
            }
        },
    }
}

proof fn lemma_job_done(s: AppView, r: Result<bool, Seq<char>>, secs: Seq<char>)
    requires
        s.sound(),
    ensures
        s.goes(s.job_done(r, secs)),
{
    match s.job {
        None => {},
        Some(name) => {
            let d = AppView { job: None, redrawing: false, ..s }.say(
                super::jobs::outcome(name, r, secs),
            );
            let t = if text::begins(name, "install"@) && r == Ok::<bool, Seq<char>>(true) {
                d.say("press a to pick your board"@).act(ActionView::FetchBoards)
            } else if r == Ok::<bool, Seq<char>>(false) && super::jobs::mentions(
                d.log,
                "platform not installed"@,
            ) {
                d.say("press I to install the missing core"@)
            } else {
                d
            };
            lemma_aside(s, t);
            lemma_next_upload(t);
            lemma_goes(s, t, t.next_upload());
        },
    }
}

/// Before an upload every monitor closes, and each pane that was connected waits.
proof fn lemma_start_uploads(s: AppView, which: Seq<int>)
    requires
        s.sound(),
    ensures
        s.goes(s.start_uploads(which)),
        !s.busy() ==> forall|i: int| !s.start_uploads(which).linked(i),
        !s.busy() ==> forall|i: int| #[trigger]
            s.linked(i) ==> s.start_uploads(which).resume.contains(i),
{
    if s.busy() {
        lemma_aside(s, s.start_uploads(which));
    } else {
        let tabbed = AppView { tab: Tab::Build, ..s };
        let n = s.panes.len();
        let open = places(n, s.pane_linked());
        lemma_places(n, s.pane_linked());
        let before = AppView { resume: s.resume + open, ..tabbed.cleared() };
        lemma_stop_first(before, n);
        let t = before.stop_monitors();
        let u = AppView { queue: which, ..t };
        assert forall|k: int| 0 <= k < u.resume.len() implies 0 <= #[trigger] u.resume[k]
            < u.panes.len() && u.panes[u.resume[k]].link is None by {
            if k < s.resume.len() {
                assert(u.resume[k] == s.resume[k]);
            } else {
                assert(u.resume[k] == open[k - s.resume.len()]);
            }
        }
        assert forall|k: int, l: int| 0 <= k < l < u.resume.len() implies #[trigger] u.resume[k]
            != #[trigger] u.resume[l] by {
            if l < s.resume.len() {
                assert(u.resume[k] == s.resume[k] && u.resume[l] == s.resume[l]);
            } else {
                let b = open[l - s.resume.len()];
                assert(u.resume[l] == b);
                assert(s.pane_linked()(b));
                if k < s.resume.len() {
                    assert(u.resume[k] == s.resume[k]);
                } else {
                    assert(u.resume[k] == open[k - s.resume.len()]);
                }
            }
        }
        assert(ids_differ(u.panes, u.mon_gen));
        assert forall|id: int| #[trigger] u.open_as(id) implies s.open_as(id) by {
            let j = choose|j: int| #[trigger] u.linked(j) && u.panes[j].link->0.id == id;
            assert(u.panes[j].link is None);
        }
        assert(s.goes(u));
        lemma_next_upload(u);
        lemma_goes(s, u, u.next_upload());
        lemma_upload_keeps(u);
        assert forall|i: int| #[trigger] s.linked(i) implies u.resume.contains(i) by {
            assert(s.pane_linked()(i));
            assert(open.contains(i));
            let k = choose|k: int| 0 <= k < open.len() && open[k] == i;
            assert(u.resume[s.resume.len() + k] == i);
        }
    }
}

/// Starting the next upload leaves panes and waiting panes as they are.
proof fn lemma_upload_keeps(s: AppView)
    ensures
        s.next_upload().panes == s.panes,
        s.next_upload().resume == s.resume,
    decreases s.queue.len(),
{
    if s.queue.len() > 0 {
        let t = AppView { queue: s.queue.drop_first(), ..s };
        match t.unprepared(s.queue[0]) {
            Some(why) => lemma_upload_keeps(t.say(why)),
            None => {},
        }
    }
}

proof fn lemma_flash_all(s: AppView)
    requires
        s.sound(),
    ensures
        s.goes(s.flash_all()),
{
    lemma_start_uploads(s, places(s.boards.len(), s.has_sketch()));
    lemma_aside(
        s,
        AppView { tab: Tab::Build, ..s }.say("✗ flash all: no connected boards with a sketch"@),
    );
}

// -- monitors --

pub proof fn lemma_filter_members(v: Seq<int>, p: spec_fn(int) -> bool)
    ensures
        forall|k: int|
            0 <= k < v.filter(p).len() ==> p(#[trigger] v.filter(p)[k]) && v.contains(
                v.filter(p)[k],
            ),
        v.no_duplicates() ==> v.filter(p).no_duplicates(),
    decreases v.len(),
{
    reveal(Seq::filter);
    let f = v.filter(p);
    if v.len() > 0 {
        let fewer = v.drop_last();
        let g = fewer.filter(p);
        lemma_filter_members(fewer, p);
        assert forall|k: int| 0 <= k < f.len() implies p(#[trigger] f[k]) && v.contains(f[k]) by {
            if k < g.len() {
                assert(f[k] == g[k]);
                let j = choose|j: int| 0 <= j < fewer.len() && fewer[j] == g[k];
                assert(v[j] == f[k]);
            } else {
                assert(f[k] == v[v.len() - 1]);
            }
        }
        if v.no_duplicates() {
            assert forall|a: int, b: int|
                0 <= a < fewer.len() && 0 <= b < fewer.len() && a != b implies fewer[a]
                != fewer[b] by {
                assert(fewer[a] == v[a] && fewer[b] == v[b]);
            }
            if p(v.last()) {
                assert forall|a: int, b: int|
                    0 <= a < f.len() && 0 <= b < f.len() && a != b implies f[a] != f[b] by {
                    if a == g.len() {
                        assert(f[b] == g[b] && fewer.contains(g[b]));
                    } else if b == g.len() {
                        assert(f[a] == g[a] && fewer.contains(g[a]));
                    }
                }
            }
        }
    }
}

proof fn lemma_resume_ready(s: AppView)
    requires
        s.sound(),
    ensures
        s.goes(s.resume_ready()),
{
    if !(s.busy() || s.queue.len() > 0) {
        let (off, on) = (s.disconnected(), s.connected());
        assert(s.resume.no_duplicates());
        lemma_filter_members(s.resume, off);
        lemma_filter_members(s.resume, on);
        let rest = s.resume.filter(off);
        let back = s.resume.filter(on);
        let t = AppView { resume: rest, ..s };
        assert forall|k: int| 0 <= k < rest.len() implies 0 <= #[trigger] rest[k] < s.panes.len()
            && s.panes[rest[k]].link is None by {
            let j = choose|j: int| 0 <= j < s.resume.len() && s.resume[j] == rest[k];
            assert(s.resume[j] == rest[k]);
        }
        assert(wait_apart(t.resume, t.panes));
        assert forall|id: int| #[trigger] t.open_as(id) implies s.open_as(id) by {
            let j = choose|j: int| #[trigger] t.linked(j) && t.panes[j].link->0.id == id;
            assert(s.linked(j));
        }
        assert(s.goes(t));
        assert forall|k: int| 0 <= k < back.len() implies !t.resume.contains(#[trigger] back[k]) by {
            assert(on(back[k]));
            if rest.contains(back[k]) {
                let j = choose|j: int| 0 <= j < rest.len() && rest[j] == back[k];
                assert(off(rest[j]));
            }
        }
        lemma_start_list(t, back);
        lemma_goes(s, t, t.start_all(back));
    }
}

proof fn lemma_toggle_monitor(s: AppView)
    requires
        s.sound(),
    ensures
        s.goes(s.toggle_monitor()),
{
    let tabbed = AppView { tab: Tab::Monitor, ..s };
    lemma_aside(s, tabbed);
    let there = places(s.boards.len(), s.connected());
    lemma_places(s.boards.len(), s.connected());
    if s.any_linked() || s.resume.len() > 0 {
        let t = AppView { resume: Seq::empty(), ..tabbed };
        assert(wait_apart(t.resume, t.panes));
        assert forall|id: int| #[trigger] t.open_as(id) implies s.open_as(id) by {
            let j = choose|j: int| #[trigger] t.linked(j) && t.panes[j].link->0.id == id;
            assert(s.linked(j));
        }
        assert(s.goes(t));
        lemma_stop_monitors(t);
        lemma_goes(s, t, t.stop_monitors());
    } else if there.len() == 0 {
        if 0 <= s.active < s.panes.len() {
            let p = s.panes[s.active];
            assert(kept(p));
            lemma_note_kept(p, "── no connected boards ──"@);
            lemma_repaint(tabbed, s.active, p.note("── no connected boards ──"@));
            lemma_goes(s, tabbed, s.toggle_monitor());
        }
    } else if s.uploading() {
        let t = AppView { resume: there, ..tabbed };
        assert forall|k: int| 0 <= k < there.len() implies 0 <= #[trigger] there[k] < t.panes.len()
            && t.panes[there[k]].link is None by {
            assert(!s.linked(there[k]));
        }
        assert(wait_apart(t.resume, t.panes));
        assert forall|id: int| #[trigger] t.open_as(id) implies s.open_as(id) by {
            let j = choose|j: int| #[trigger] t.linked(j) && t.panes[j].link->0.id == id;
            assert(s.linked(j));
        }
    } else {
        lemma_start_list(tabbed, there);
        lemma_goes(s, tabbed, tabbed.start_all(there));
    }
}

proof fn lemma_focus(s: AppView, i: int)
    requires
        s.sound(),
        0 <= i < s.boards.len(),
    ensures
        s.goes(s.focus(i)),
{
    let t = s.focus(i);
    assert forall|id: int| #[trigger] t.open_as(id) implies s.open_as(id) by {
        let j = choose|j: int| #[trigger] t.linked(j) && t.panes[j].link->0.id == id;
        assert(s.linked(j));
    }
}

proof fn lemma_step_baud(s: AppView, by: int)
    requires
        s.sound(),
    ensures
        s.goes(s.step_baud(by)),
{
    let i = s.active;
    if 0 <= i < s.panes.len() {
        let p = s.panes[i];
        let q = PaneView { baud: super::monitor::next_baud(p.baud, by), ..p };
        assert(kept(p));
        lemma_repaint(s, i, q);
        let b = AppView { panes: s.panes.update(i, q), ..s };
        lemma_save(b, Some(i), true);
        let t = b.save(Some(i), true);
        lemma_goes(s, b, t);
        if p.link is Some {
            lemma_stop_monitor(t, i);
            let u = t.stop_monitor(i);
            lemma_goes(s, t, u);
            assert(u.resume == s.resume);
            if s.resume.contains(i) {
                let k = choose|k: int| 0 <= k < s.resume.len() && s.resume[k] == i;
                assert(s.panes[s.resume[k]].link is None);
            }
            lemma_start_one(u, i);
            lemma_goes(s, u, u.start_monitor(i));
        }
    }
}

// -- keys --

proof fn lemma_closed_up(v: Seq<int>, at: int, n: int)
    requires
        v.no_duplicates(),
        forall|k: int| 0 <= k < v.len() ==> 0 <= #[trigger] v[k] < n,
        0 <= at < n,
    ensures
        ({
            let w = closed_up(v, at);
            &&& w.no_duplicates()
            &&& forall|k: int|
                0 <= k < w.len() ==> 0 <= #[trigger] w[k] < n - 1 && v.contains(
                    if w[k] < at {
                        w[k]
                    } else {
                        w[k] + 1
                    },
                )
        }),
{
    let p = other_than(at);
    lemma_filter_members(v, p);
    let f = v.filter(p);
    let w = closed_up(v, at);
    assert forall|k: int| 0 <= k < w.len() implies 0 <= #[trigger] w[k] < n - 1 && v.contains(
        if w[k] < at {
            w[k]
        } else {
            w[k] + 1
        },
    ) by {
        assert(p(f[k]) && v.contains(f[k]));
        let j = choose|j: int| 0 <= j < v.len() && v[j] == f[k];
        assert(0 <= v[j] < n);
    }
    assert forall|a: int, b: int| 0 <= a < w.len() && 0 <= b < w.len() && a != b implies w[a]
        != w[b] by {
        assert(f[a] != f[b]);
        assert(p(f[a]) && p(f[b]));
    }
}

proof fn lemma_remove_board(s: AppView)
    requires
        s.sound(),
        s.sel < s.boards.len(),
        s.picker is None,
    ensures
        s.goes(s.remove_board()),
{
    let at = s.sel;
    lemma_stop_monitor(s, at);
    let u = s.stop_monitor(at);
    let n = u.panes.len() as int;
    assert(u.resume.no_duplicates());
    lemma_closed_up(u.resume, at, n);
    let boards = u.boards.remove(at);
    let t = AppView {
        panes: u.panes.remove(at),
        resume: closed_up(u.resume, at),
        boards,
        active: if u.active > at || u.active >= boards.len() {
            less_by(u.active, 1)
        } else {
            u.active
        },
        sel: least(at, less_by(boards.len() as int, 1)),
        ..u
    };
    assert forall|j: int| 0 <= j < t.panes.len() implies #[trigger] t.panes[j] == u.panes[if j < at {
        j
    } else {
        j + 1
    }] by {}
    assert(ids_differ(t.panes, t.mon_gen));
    assert forall|k: int| 0 <= k < t.resume.len() implies 0 <= #[trigger] t.resume[k]
        < t.panes.len() && t.panes[t.resume[k]].link is None by {
        let r = t.resume[k];
        let back = if r < at {
            r
        } else {
            r + 1
        };
        assert(u.resume.contains(back));
        let j = choose|j: int| 0 <= j < u.resume.len() && u.resume[j] == back;
        assert(u.panes[u.resume[j]].link is None);
    }
    assert(wait_apart(t.resume, t.panes));
    assert(heard(t.input, t.active, t.panes)) by {
        if t.input is Some {
            assert(u.active != at);
        }
    }
    assert forall|id: int| #[trigger] t.open_as(id) implies u.open_as(id) by {
        let j = choose|j: int| #[trigger] t.linked(j) && t.panes[j].link->0.id == id;
        let back = if j < at {
            j
        } else {
            j + 1
        };
        assert(u.linked(back));
    }
    lemma_goes(s, u, t);
    lemma_save(t, None, false);
    lemma_goes(s, t, t.save(None, false));
}

proof fn lemma_project_key(s: AppView, code: Key)
    requires
        s.sound(),
        s.picker is None,
    ensures
        s.goes(s.project_key(code)),
{
    let rows = s.boards.len() + s.free_ports().len();
    lemma_aside(s, s);
    lemma_aside(s, AppView { sel: least(s.sel + 1, less_by(rows as int, 1)), ..s });
    lemma_aside(s, AppView { sel: less_by(s.sel, 1), ..s });
    if s.sel < s.boards.len() {
        lemma_focus(s, s.sel);
        lemma_remove_board(s);
    } else {
        let k = s.sel - s.boards.len();
        if k < s.free_ports().len() {
            lemma_add_from_port(s, s.free_ports()[k]);
        }
    }
}

proof fn lemma_step_setting(s: AppView, by: int)
    requires
        s.sound(),
    ensures
        s.goes(s.step_setting(by)),
{
    lemma_aside(s, s.step_setting(by));
}

proof fn lemma_settings_key(s: AppView, code: Key)
    requires
        s.sound(),
    ensures
        s.goes(s.settings_key(code)),
{
    lemma_aside(s, s);
    lemma_aside(s, AppView { set_sel: least(s.set_sel + 1, ROWS - 1), ..s });
    lemma_aside(s, AppView { set_sel: less_by(s.set_sel, 1), ..s });
    lemma_step_setting(s, 1);
    lemma_step_setting(s, -1);
}

proof fn lemma_cycle_pane(s: AppView, by: int)
    requires
        s.sound(),
    ensures
        s.goes(s.cycle_pane(by)),
{
    let ring = s.pane_ring();
    lemma_aside(s, s);
    match place(ring.len() as int, super::monitor::is_at(ring, s.active)) {
        None => {},
        Some(at) => {
            lemma_seek(0, ring.len() as int, super::monitor::is_at(ring, s.active));
            let to = (at + by) % ring.len() as int;
            lemma_places(s.panes.len(), s.is_shown());
            assert(0 <= ring[to] < s.panes.len());
            lemma_focus(s, ring[to]);
        },
    }
}

proof fn lemma_monitor_key(s: AppView, code: Key)
    requires
        s.sound(),
        s.input is None,
    ensures
        s.goes(s.monitor_key(code)),
{
    lemma_aside(s, s);
    lemma_cycle_pane(s, 1);
    lemma_cycle_pane(s, -1);
    lemma_step_baud(s, 1);
    lemma_step_baud(s, -1);
    if 0 <= s.active < s.panes.len() {
        let p = s.panes[s.active];
        assert(kept(p));
        lemma_repaint(
            s,
            s.active,
            PaneView { scroll: scrolled(p.scroll, p.lines.len() as int, code), ..p },
        );
        lemma_repaint(s, s.active, PaneView { lines: Seq::empty(), scroll: 0, ..p });
        if p.link is Some {
            let t = AppView { input: Some(Seq::empty()), ..s };
            assert forall|id: int| #[trigger] t.open_as(id) implies s.open_as(id) by {
                let j = choose|j: int| #[trigger] t.linked(j) && t.panes[j].link->0.id == id;
                assert(s.linked(j));
            }
            assert(s.goes(t));
        }
    }
}

proof fn lemma_input_key(s: AppView, code: Key)
    requires
        s.sound(),
    ensures
        s.goes(s.input_key(code)),
{
    lemma_aside(s, s);
    match s.input {
        None => {},
        Some(buf) => {
            lemma_aside(s, AppView { input: None, ..s });
            lemma_aside(s, AppView { input: Some(crate::lists::popped(buf)), ..s });
            let t = AppView { input: Some(Seq::empty()), ..s };
            lemma_aside(s, t);
            if code is Char {
                lemma_aside(s, AppView { input: Some(buf.push(code->Char_0)), ..s });
            }
            if t.linked(t.active) {
                let id = t.panes[t.active].link->0.id;
                let u = t.act(ActionView::Send(id, buf + t.settings.eol()));
                lemma_aside(t, u);
                let p = u.panes[u.active];
                assert(kept(p));
                lemma_note_kept(p, "→ "@ + buf);
                lemma_repaint(u, u.active, p.note("→ "@ + buf));
                lemma_goes(t, u, t.send(buf));
                lemma_goes(s, t, t.send(buf));
            }
        },
    }
}

proof fn lemma_picker_key(s: AppView, code: Key)
    requires
        s.sound(),
    ensures
        s.goes(s.picker_key(code)),
{
    lemma_aside(s, s);
    lemma_aside(s, AppView { pending_port: None, ..s });
    match s.picker {
        None => {},
        Some(p) => {
            let n = s.picks().len() as int;
            let shut = AppView { picker: None, ..s };
            lemma_aside(s, shut);
            match code {
                Key::Esc => lemma_aside(s, s.picker_key(code)),
                Key::Enter => if p.sel < n {
                    let (label, detail) = s.picks()[p.sel];
                    lemma_apply(shut, p.kind, p.target, label, detail);
                    lemma_goes(s, shut, shut.apply(p.kind, p.target, label, detail));
                },
                _ => lemma_aside(s, s.picker_key(code)),
            }
        },
    }
}

proof fn lemma_tab_key(s: AppView, code: Key)
    requires
        s.sound(),
        s.picker is None,
        s.input is None,
    ensures
        s.goes(s.tab_key(code)),
{
    match s.tab {
        Tab::Build => lemma_aside(s, s.tab_key(code)),
        Tab::Monitor => lemma_monitor_key(s, code),
        Tab::Project => lemma_project_key(s, code),
        Tab::Settings => lemma_settings_key(s, code),
    }
}

proof fn lemma_char_key(s: AppView, c: char)
    requires
        s.sound(),
        s.picker is None,
        s.input is None,
    ensures
        s.goes(s.char_key(c)),
{
    let at = if s.tab == Tab::Project {
        s.sel
    } else {
        s.active
    };
    lemma_aside(s, s);
    lemma_aside(s, AppView { quit: true, ..s });
    lemma_aside(s, AppView { tab: Tab::Build, ..s });
    lemma_aside(s, AppView { tab: Tab::Monitor, ..s });
    lemma_aside(s, AppView { tab: Tab::Project, ..s });
    lemma_aside(s, AppView { tab: Tab::Settings, ..s });
    lemma_aside(s, s.open(Pick::AddBoard, 0));
    if at < s.boards.len() {
        lemma_aside(s, s.open(Pick::Board, at));
        lemma_aside(s, s.open(Pick::Sketch, at));
        lemma_aside(s, s.open(Pick::Port, at));
    }
    lemma_compile(s);
    lemma_start_uploads(s, seq![s.active]);
    lemma_flash_all(s);
    match s.target() {
        Some(t) => lemma_install_core(s, super::jobs::core_of(t.fqbn)),
        None => {},
    }
    lemma_toggle_monitor(s);
    lemma_tab_key(s, Key::Char(c));
}

/// Whatever key is pressed, the state stays sound, and a connection that is open
/// afterwards was open before or has a new number.
pub proof fn law_keys_keep_the_state_sound(s: AppView, k: KeyPress)
    requires
        s.sound(),
    ensures
        s.key(k).sound(),
        s.leads_to(s.key(k)),
{
    if k.control && k.code == Key::Char('c') {
        lemma_aside(s, s.key(k));
    } else if s.picker is Some {
        lemma_picker_key(s, k.code);
    } else if s.input is Some {
        lemma_input_key(s, k.code);
    } else {
        match k.code {
            Key::Char(c) => lemma_char_key(s, c),
            Key::Tab | Key::BackTab => lemma_aside(s, s.key(k)),
            Key::Esc => {
                if s.job is Some {
                    lemma_aside(s, s.cancel());
                } else {
                    lemma_tab_key(s, Key::Esc);
                }
            },
            _ => lemma_tab_key(s, k.code),
        }
    }
}

// -- events and answers --

proof fn lemma_serial(s: AppView, id: int, chunk: Seq<char>)
    requires
        s.sound(),
    ensures
        s.goes(s.serial(id, chunk)),
{
    lemma_aside(s, s);
    match s.pane_of(id) {
        Some(i) => {
            lemma_seek(0, s.panes.len() as int, s.has_id(id));
            law_pane_is_capped(s.panes[i], chunk);
            assert(kept(s.panes[i]));
            law_no_junk_on_a_pane(s.panes[i], chunk);
            lemma_repaint(s, i, s.panes[i].push(chunk));
        },
        None => {},
    }
}

proof fn lemma_serial_done(s: AppView, id: int, r: Result<(), Seq<char>>)
    requires
        s.sound(),
    ensures
        s.goes(s.serial_done(id, r)),
{
    lemma_aside(s, s);
    match s.pane_of(id) {
        Some(i) => {
            lemma_seek(0, s.panes.len() as int, s.has_id(id));
            let p = PaneView { link: None, ..s.panes[i] };
            assert(kept(s.panes[i]));
            lemma_note_kept(p, super::events::farewell(r));
            lemma_unlink(s, i, p.note(super::events::farewell(r)));
        },
        None => {},
    }
}

/// Whatever happens, the state stays sound, and a connection that is open
/// afterwards was open before or has a new number.
pub proof fn law_events_keep_the_state_sound(s: AppView, ev: AppEvent)
    requires
        s.sound(),
    ensures
        s.event(ev).sound(),
        s.leads_to(s.event(ev)),
{
    match ev {
        AppEvent::Ports(Ok(p)) => {
            let t = AppView {
                ports: in_order(p.deep_view()),
                ports_err: None,
                scanned: true,
                ..s
            };
            lemma_aside(s, t);
            lemma_resume_ready(t);
            lemma_goes(s, t, t.resume_ready());
        },
        AppEvent::JobDone(r, secs) => lemma_job_done(s, text::told(r), secs@),
        AppEvent::Serial(id, chunk) => lemma_serial(s, id as int, chunk@),
        AppEvent::SerialDone(id, r) => lemma_serial_done(s, id as int, text::told(r)),
        AppEvent::Defaults(d) => {
            let a = d.deep_view();
            if s.wants_defaults() && a.fqbn.len() > 0 {
                let b = TargetView {
                    name: s.board_name(a.fqbn),
                    fqbn: a.fqbn,
                    port: match a.port {
                        Some(p) => Some(p.address),
                        None => None,
                    },
                    sketch: Some("."@),
                };
                lemma_with_board(s, b);
                let w = with_board(s, b);
                lemma_aside(w, AppView { tab: Tab::Build, ..w });
                lemma_goes(s, w, s.event(ev));
            } else {
                lemma_aside(s, s);
            }
        },
        _ => lemma_aside(s, s.event(ev)),
    }
}

/// Whatever an action is answered, the state stays sound, and a connection that
/// is open afterwards was open before or has a new number.
pub proof fn law_answers_keep_the_state_sound(s: AppView, a: Answer)
    requires
        s.sound(),
    ensures
        s.answer(a).sound(),
        s.leads_to(s.answer(a)),
{
    match a {
        Answer::SketchRead { board, rel, yaml } => lemma_sketch_read(
            s,
            board as int,
            rel@,
            yaml.deep_view(),
        ),
        Answer::BaudRead { board, yaml } => lemma_baud_read(s, board as int, yaml.deep_view()),
        Answer::Built(r) => lemma_built(s, text::told_text(r)),
        _ => lemma_aside(s, s.answer(a)),
    }
}

/// The state that the program starts in is sound.
pub proof fn law_starts_sound(setup: Setup)
    ensures
        started(setup).sound(),
{
}

// -- connections --

/// A number that was given out and is no longer open is never opened again: what
/// still comes under it is dropped, now and in every state that follows.
pub proof fn law_late_text_is_dropped(s: AppView, next: AppView, id: int, chunk: Seq<char>)
    requires
        s.leads_to(next),
        id <= s.mon_gen,
        !s.open_as(id),
    ensures
        s.serial(id, chunk) == s,
        !next.open_as(id),
        next.serial(id, chunk) == next,
{
    lemma_unopened(s, id);
    assert(!next.open_as(id));
    lemma_unopened(next, id);
}

proof fn lemma_unopened(s: AppView, id: int)
    requires
        !s.open_as(id),
    ensures
        s.pane_of(id) is None,
{
    lemma_seek(0, s.panes.len() as int, s.has_id(id));
    match s.pane_of(id) {
        Some(i) => {
            assert(s.has_id(id)(i));
            assert(s.linked(i));
        },
        None => {},
    }
}

/// What a board says comes out on its own pane and on no other.
pub proof fn law_text_reaches_its_pane(s: AppView, i: int, chunk: Seq<char>)
    requires
        s.sound(),
        s.linked(i),
    ensures
        s.serial(s.panes[i].link->0.id, chunk) == (AppView {
            panes: s.panes.update(i, s.panes[i].push(chunk)),
            ..s
        }),
{
    let id = s.panes[i].link->0.id;
    lemma_seek(0, s.panes.len() as int, s.has_id(id));
    assert(s.has_id(id)(i));
    let j = seek(0, s.panes.len() as int, s.has_id(id));
    assert(j <= i);
    assert(s.has_id(id)(j));
    assert(s.panes[j].link is Some && s.panes[i].link is Some);
}

/// Closing the monitors closes every one, and none waits any more.
pub proof fn law_toggle_closes_all(s: AppView)
    requires
        s.sound(),
        s.any_linked() || s.resume.len() > 0,
    ensures
        forall|i: int| !s.toggle_monitor().linked(i),
        s.toggle_monitor().resume.len() == 0,
        s.toggle_monitor().input is None,
{
    lemma_toggle_monitor(s);
    let t = AppView { resume: Seq::empty(), tab: Tab::Monitor, ..s };
    assert(all_kept(t.panes));
    lemma_stop_first(t, t.panes.len());
    let u = s.toggle_monitor();
    assert(heard(u.input, u.active, u.panes));
    assert forall|i: int| !u.linked(i) by {
        if 0 <= i < u.panes.len() {
            assert(u.panes[i].link is None);
        }
    }
}

proof fn lemma_start_all_links(s: AppView, list: Seq<int>, i: int)
    requires
        0 <= i < s.panes.len(),
        s.port_of(i) is Some,
        s.linked(i) || list.contains(i),
    ensures
        s.start_all(list).linked(i),
    decreases list.len(),
{
    if list.len() > 0 {
        let fewer = list.drop_last();
        let t = s.start_all(fewer);
        super::monitor::lemma_start_all(s, fewer);
        lemma_start_monitor(t, list.last());
        if s.linked(i) || fewer.contains(i) {
            lemma_start_all_links(s, fewer, i);
            if i != list.last() {
                assert(t.start_monitor(list.last()).panes[i] == t.panes[i]);
            }
        } else {
            let k = choose|k: int| 0 <= k < list.len() && list[k] == i;
            if k < fewer.len() {
                assert(fewer[k] == i);
            }
            assert(list.last() == i);
            assert(t.port_of(i) == s.port_of(i));
        }
    }
}

/// Opening the monitors opens one for every board that has its port.
pub proof fn law_toggle_opens_all(s: AppView, i: int)
    requires
        s.sound(),
        !s.any_linked(),
        s.resume.len() == 0,
        !s.uploading(),
        0 <= i < s.boards.len(),
        s.port_of(i) is Some,
    ensures
        s.toggle_monitor().linked(i),
{
    let there = places(s.boards.len(), s.connected());
    lemma_places(s.boards.len(), s.connected());
    assert(s.connected()(i));
    assert(there.contains(i));
    let t = AppView { tab: Tab::Monitor, ..s };
    assert(t.port_of(i) == s.port_of(i));
    lemma_start_all_links(t, there, i);
}

/// Once no run is left, a pane that waits is connected again as soon as its port
/// is there, and waits on while it is not.
pub proof fn law_waiting_panes_resume(s: AppView, i: int)
    requires
        s.sound(),
        !s.busy(),
        s.queue.len() == 0,
        s.resume.contains(i),
    ensures
        s.port_of(i) is Some ==> s.resume_ready().linked(i),
        s.port_of(i) is None ==> s.resume_ready().resume.contains(i) && !s.resume_ready().linked(i),
{
    let (off, on) = (s.disconnected(), s.connected());
    let rest = s.resume.filter(off);
    let back = s.resume.filter(on);
    let t = AppView { resume: rest, ..s };
    let k = choose|k: int| 0 <= k < s.resume.len() && s.resume[k] == i;
    assert(0 <= s.resume[k] < s.panes.len());
    super::monitor::lemma_start_all(t, back);
    if s.port_of(i) is Some {
        assert(on(s.resume[k]));
        lemma_filter_holds(s.resume, on, k);
        assert(t.port_of(i) == s.port_of(i));
        lemma_start_all_links(t, back, i);
    } else {
        assert(off(s.resume[k]));
        lemma_filter_holds(s.resume, off, k);
        lemma_resume_ready(s);
        let u = s.resume_ready();
        let l = choose|l: int| 0 <= l < u.resume.len() && u.resume[l] == i;
        assert(u.panes[u.resume[l]].link is None);
    }
}

pub proof fn lemma_filter_holds(v: Seq<int>, p: spec_fn(int) -> bool, k: int)
    requires
        0 <= k < v.len(),
        p(v[k]),
    ensures
        v.filter(p).contains(v[k]),
    decreases v.len(),
{
    reveal(Seq::filter);
    let g = v.drop_last().filter(p);
    if k < v.len() - 1 {
        lemma_filter_holds(v.drop_last(), p, k);
        let j = choose|j: int| 0 <= j < g.len() && g[j] == v[k];
        assert(v.filter(p)[j] == v[k]);
    } else {
        assert(v.filter(p)[g.len() as int] == v[k]);
    }
}

/// Before an upload every monitor closes, and each pane that was connected waits
/// for its port.
pub proof fn law_uploads_pause_the_monitors(s: AppView, which: Seq<int>)
    requires
        s.sound(),
        !s.busy(),
    ensures
        forall|i: int| !s.start_uploads(which).linked(i),
        forall|i: int| #[trigger]
            s.linked(i) ==> s.start_uploads(which).resume.contains(i),
{
    lemma_start_uploads(s, which);
}

// -- runs --

/// A run that is cancelled is over: nothing is queued behind it, and what it
/// still reports of its end changes nothing.
pub proof fn law_cancel_ends_the_run(s: AppView, r: Result<bool, Seq<char>>, secs: Seq<char>)
    requires
        s.job is Some,
    ensures
        s.cancel().job is None,
        s.cancel().queue.len() == 0,
        s.cancel().job_done(r, secs) == s.cancel(),
        s.cancel().actions == s.actions.push(ActionView::Abort),
{
}

/// One run at a time: while one is going on, no key starts another or touches the
/// log of the one that is.
pub proof fn law_one_run_at_a_time(s: AppView, which: Seq<int>, core: Seq<char>)
    requires
        s.busy(),
    ensures
        s.compile() == (AppView { tab: Tab::Build, ..s }),
        s.start_uploads(which) == (AppView { tab: Tab::Build, ..s }),
        s.install_core(core) == (AppView { tab: Tab::Build, ..s }),
{
}

/// The boards to upload to are taken in order: the first one that can be built for
/// is next, those before it are passed over, and those behind it wait.
pub proof fn law_uploads_go_in_order(s: AppView, k: int)
    requires
        s.asked is None,
        0 <= k < s.queue.len(),
        forall|l: int| 0 <= l < k ==> s.unprepared(#[trigger] s.queue[l]) is Some,
        s.unprepared(s.queue[k]) is None,
    ensures
        s.next_upload().asked matches Some(PendingView::Upload { board, .. }) && board == s.queue[k],
        s.next_upload().queue == s.queue.skip(k + 1),
        s.next_upload().actions == s.actions.push(
            ActionView::BuildFolder(s.boards[s.queue[k]].sketch->0),
        ),
    decreases k,
{
    let i = s.queue[0];
    let t = AppView { queue: s.queue.drop_first(), ..s };
    assert(t.unprepared(i) == s.unprepared(i));
    if k == 0 {
        assert(s.queue.drop_first() =~= s.queue.skip(1));
    } else {
        let why = t.unprepared(i)->0;
        let u = t.say(why);
        assert forall|l: int| 0 <= l < k - 1 implies u.unprepared(#[trigger] u.queue[l]) is Some by {
            assert(u.queue[l] == s.queue[l + 1]);
            assert(u.unprepared(s.queue[l + 1]) == s.unprepared(s.queue[l + 1]));
        }
        assert(u.queue[k - 1] == s.queue[k]);
        assert(u.unprepared(s.queue[k]) == s.unprepared(s.queue[k]));
        law_uploads_go_in_order(u, k - 1);
        assert(u.queue.skip(k) =~= s.queue.skip(k + 1));
    }
}

/// Where nothing that is queued can be built for, nothing is started.
pub proof fn law_nothing_to_upload(s: AppView)
    requires
        forall|l: int| 0 <= l < s.queue.len() ==> s.unprepared(#[trigger] s.queue[l]) is Some,
    ensures
        s.next_upload().asked == s.asked,
        s.next_upload().queue.len() == 0,
        s.next_upload().actions == s.actions,
    decreases s.queue.len(),
{
    if s.queue.len() > 0 {
        let i = s.queue[0];
        let t = AppView { queue: s.queue.drop_first(), ..s };
        assert(t.unprepared(i) == s.unprepared(i));
        let u = t.say(t.unprepared(i)->0);
        assert forall|l: int| 0 <= l < u.queue.len() implies u.unprepared(
            #[trigger] u.queue[l],
        ) is Some by {
            assert(u.queue[l] == s.queue[l + 1]);
            assert(u.unprepared(s.queue[l + 1]) == s.unprepared(s.queue[l + 1]));
        }
        law_nothing_to_upload(u);
    }
}

/// A progress bar is redrawn in place: of two redraws in a row only the last one
/// shows, and a line that follows takes its place.
pub proof fn law_progress_redraws_in_place(s: AppView, a: Seq<char>, b: Seq<char>)
    ensures
        s.progressed(a).progressed(b) == s.progressed(b),
        !s.redrawing && s.shortened(b).len() > 0 ==> s.progressed(a).logged(b).log == s.logged(
            b,
        ).log,
        s.shortened(b).len() == 0 ==> s.progressed(a).logged(b).log == s.progressed(a).log.push(
            Seq::<char>::empty(),
        ),
{
    let kept = if s.redrawing {
        crate::lists::popped(s.log)
    } else {
        s.log
    };
    assert(kept.push(a).drop_last() =~= kept);
    assert(s.progressed(a).progressed(b) =~= s.progressed(b));
    assert(s.progressed(a).shortened(b) == s.shortened(b));
    if s.shortened(b).len() == 0 {
        assert(s.shortened(b) =~= Seq::<char>::empty());
    }
}

// -- keys --

/// Ctrl-C quits, whatever is open.
pub proof fn law_control_c_quits(s: AppView)
    ensures
        s.key(KeyPress { code: Key::Char('c'), control: true }) == (AppView { quit: true, ..s }),
{
}

/// While a list is open or a line is typed, no other key quits.
pub proof fn law_typing_does_not_quit(s: AppView, code: Key)
    requires
        s.picker is Some || s.input is Some,
    ensures
        s.key(KeyPress { code, control: false }).quit == s.quit,
{
    if s.picker is Some {
        lemma_picker_quit(s, code);
    }
}

proof fn lemma_picker_quit(s: AppView, code: Key)
    ensures
        s.picker_key(code).quit == s.quit,
{
}

/// The tabs go round: a step forward and a step back end where they began, and
/// so do four steps forward.
pub proof fn law_tabs_go_round(s: AppView)
    ensures
        s.cycle_tab(1).cycle_tab(3) == s,
        s.cycle_tab(1).cycle_tab(1).cycle_tab(1).cycle_tab(1) == s,
{
}

/// Scrolling goes no further than to the first line and no further than to the
/// last one.
pub proof fn law_scrolling_stays_within(pos: int, max: int, code: Key)
    requires
        0 <= pos <= max,
    ensures
        0 <= scrolled(pos, max, code) <= max,
{
}

/// Removing a board leaves the others with their panes.
pub proof fn law_removal_keeps_the_others(s: AppView, j: int)
    requires
        s.sound(),
        s.sel < s.boards.len(),
        0 <= j < s.boards.len(),
        j != s.sel,
    ensures
        ({
            let t = s.remove_board();
            let k = if j < s.sel {
                j
            } else {
                j - 1
            };
            &&& t.boards.len() == s.boards.len() - 1
            &&& t.boards[k] == s.boards[j]
            &&& t.panes[k] == s.panes[j]
        }),
{
}

// -- ports --

/// A port is free where no board has it, and only there.
pub proof fn law_ports_are_taken_or_free(s: AppView, j: int)
    requires
        0 <= j < s.ports.len(),
    ensures
        s.free_ports().contains(j) <==> !s.links().contains(Some(j)),
{
    let p = super::lookups::unlinked(s.links());
    lemma_places(s.ports.len(), p);
    if s.free_ports().contains(j) {
        let k = choose|k: int| 0 <= k < s.free_ports().len() && s.free_ports()[k] == j;
        assert(p(s.free_ports()[k]));
    } else {
        assert(!p(j));
    }
}

/// A board that is added from a free port is found at that port.
pub proof fn law_an_added_board_has_its_port(s: AppView, j: int)
    requires
        s.free_ports().contains(j),
        super::picking::known_board(s.ports[j]) is Some,
        forall|k: int|
            0 <= k < j ==> (#[trigger] s.ports[k]).port.address != s.ports[j].port.address,
    ensures
        s.add_from_port(j).port_of(s.boards.len() as int) == Some(s.ports[j]),
        s.add_from_port(j).boards.len() == s.boards.len() + 1,
{
    let p = super::lookups::unlinked(s.links());
    lemma_places(s.ports.len(), p);
    let k = choose|k: int| 0 <= k < s.free_ports().len() && s.free_ports()[k] == j;
    assert(p(s.free_ports()[k]));
    let b = super::picking::known_board(s.ports[j])->0;
    let t = s.add_from_port(j);
    let n = s.boards.len() as int;
    let address = Some(s.ports[j].port.address);
    let made = s.sketches.filter(s.made_for(b.fqbn));
    let added = TargetView { name: b.name, fqbn: b.fqbn, port: address, sketch: None };
    let last = if made.len() == 1 && !crate::sketch::folder(made[0]) {
        TargetView { sketch: Some(made[0]), ..added }
    } else {
        added
    };
    assert(s.boards.push(added).update(n, last) =~= s.boards.push(last));
    assert(t.boards =~= s.boards.push(last));
    assert(t.ports == s.ports);
    law_a_new_board_gets_its_port(s.boards, s.ports, last, j);
}

// -- files --

/// Nothing overwrites the project file.
pub open spec fn spares(actions: Seq<ActionView>) -> bool {
    forall|i: int| 0 <= i < actions.len() ==> !(#[trigger] actions[i] is SaveProject)
}

impl AppView {
    /// The project file did not parse, and nothing is to overwrite it.
    pub open spec fn spared(self) -> bool {
        self.project_err is Some && spares(self.actions)
    }
}

/// In a project that is one sketch, saving writes no project file.
pub proof fn law_a_single_sketch_needs_no_project_file(
    s: AppView,
    mirror: Option<int>,
    with_baud: bool,
)
    requires
        s.single(),
        spares(s.actions),
    ensures
        spares(s.save(mirror, with_baud).actions),
{
}

proof fn lemma_spared_stop(s: AppView, n: nat)
    requires
        s.spared(),
    ensures
        s.stop_first(n).spared(),
    decreases n,
{
    if n > 0 {
        lemma_spared_stop(s, (n - 1) as nat);
    }
}

proof fn lemma_spared_start(s: AppView, list: Seq<int>)
    requires
        s.spared(),
    ensures
        s.start_all(list).spared(),
    decreases list.len(),
{
    if list.len() > 0 {
        lemma_spared_start(s, list.drop_last());
    }
}

proof fn lemma_spared_upload(s: AppView)
    requires
        s.spared(),
    ensures
        s.next_upload().spared(),
    decreases s.queue.len(),
{
    if s.queue.len() > 0 {
        let t = AppView { queue: s.queue.drop_first(), ..s };
        match t.unprepared(s.queue[0]) {
            Some(why) => lemma_spared_upload(t.say(why)),
            None => {},
        }
    }
}

proof fn lemma_spared_uploads(s: AppView, which: Seq<int>)
    requires
        s.spared(),
    ensures
        s.start_uploads(which).spared(),
{
    let before = AppView {
        resume: s.resume + places(s.panes.len(), s.pane_linked()),
        tab: Tab::Build,
        ..s.cleared()
    };
    lemma_spared_stop(before, before.panes.len());
    lemma_spared_upload(AppView { queue: which, ..before.stop_monitors() });
}

proof fn lemma_spared_toggle(s: AppView)
    requires
        s.spared(),
    ensures
        s.toggle_monitor().spared(),
{
    let t = AppView { tab: Tab::Monitor, ..s };
    lemma_spared_stop(AppView { resume: Seq::empty(), ..t }, t.panes.len());
    lemma_spared_start(t, places(s.boards.len(), s.connected()));
}

proof fn lemma_spared_apply(s: AppView, kind: Pick, i: int, label: Seq<char>, detail: Seq<char>)
    requires
        s.spared(),
    ensures
        s.apply(kind, i, label, detail).spared(),
{
}

proof fn lemma_spared_tab_key(s: AppView, code: Key)
    requires
        s.spared(),
    ensures
        s.tab_key(code).spared(),
{
}

proof fn lemma_spared_picker_key(s: AppView, code: Key)
    requires
        s.spared(),
    ensures
        s.picker_key(code).spared(),
{
    match s.picker {
        Some(p) => {
            if p.sel < s.picks().len() {
                let (label, detail) = s.picks()[p.sel];
                lemma_spared_apply(
                    AppView { picker: None, ..s },
                    p.kind,
                    p.target,
                    label,
                    detail,
                );
            }
        },
        None => {},
    }
}

proof fn lemma_spared_compile(s: AppView)
    requires
        s.spared(),
    ensures
        s.compile().spared(),
        s.flash_all().spared(),
{
    lemma_spared_uploads(s, places(s.boards.len(), s.has_sketch()));
}

proof fn lemma_spared_char_key(s: AppView, c: char)
    requires
        s.spared(),
    ensures
        s.char_key(c).spared(),
{
    if c == 'u' {
        lemma_spared_uploads(s, seq![s.active]);
    } else if c == 'c' || c == 'F' {
        lemma_spared_compile(s);
    } else if c == 'm' {
        lemma_spared_toggle(s);
    } else {
        lemma_spared_tab_key(s, Key::Char(c));
    }
}

proof fn lemma_spared_input_key(s: AppView, code: Key)
    requires
        s.spared(),
    ensures
        s.input_key(code).spared(),
{
}

/// While the project file does not parse, no key leads to its being overwritten.
pub proof fn law_keys_spare_a_broken_project_file(s: AppView, k: KeyPress)
    requires
        s.spared(),
    ensures
        s.key(k).spared(),
{
    if k.control && k.code == Key::Char('c') {
    } else if s.picker is Some {
        lemma_spared_picker_key(s, k.code);
    } else if s.input is Some {
        lemma_spared_input_key(s, k.code);
    } else {
        match k.code {
            Key::Char(c) => lemma_spared_char_key(s, c),
            Key::Tab | Key::BackTab => {},
            Key::Esc => if s.job is None {
                lemma_spared_tab_key(s, Key::Esc);
            },
            _ => lemma_spared_tab_key(s, k.code),
        }
    }
}

/// While the project file does not parse, no event leads to its being overwritten.
pub proof fn law_events_spare_a_broken_project_file(s: AppView, ev: AppEvent)
    requires
        s.spared(),
    ensures
        s.event(ev).spared(),
{
    match ev {
        AppEvent::Ports(Ok(p)) => {
            let t = AppView {
                ports: in_order(p.deep_view()),
                ports_err: None,
                scanned: true,
                ..s
            };
            lemma_spared_start(
                AppView { resume: t.resume.filter(t.disconnected()), ..t },
                t.resume.filter(t.connected()),
            );
        },
        AppEvent::JobDone(r, secs) => match s.job {
            None => {},
            Some(name) => {
                let d = AppView { job: None, redrawing: false, ..s }.say(
                    super::jobs::outcome(name, text::told(r), secs@),
                );
                lemma_spared_upload(
                    d.say("press a to pick your board"@).act(ActionView::FetchBoards),
                );
                lemma_spared_upload(d.say("press I to install the missing core"@));
                lemma_spared_upload(d);
            },
        },
        _ => {},
    }
}

/// While the project file does not parse, no answer leads to its being overwritten.
pub proof fn law_answers_spare_a_broken_project_file(s: AppView, a: Answer)
    requires
        s.spared(),
    ensures
        s.answer(a).spared(),
{
    match a {
        Answer::Built(r) => {
            let t = AppView { asked: None, ..s };
            match s.asked {
                Some(PendingView::Upload { board, name, fqbn }) => {
                    lemma_spared_upload(
                        t.say("✗ "@ + name + " isn't connected — plug it in or press p"@),
                    );
                    match r {
                        Err(e) => lemma_spared_upload(t.say("✗ "@ + name + ": "@ + e@)),
                        Ok(_) => {},
                    }
                },
                _ => {},
            }
        },
        _ => {},
    }
}

} // verus!
