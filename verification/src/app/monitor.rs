//! The serial monitor: a pane for each board, connected or not.
use vstd::prelude::*;
use vstd::string::*;

use super::pane::{fresh_pane, newlines, LinkView, Pane, PaneView, Link};
use super::state::{ports_fit, Action, ActionView, App, AppView, PendingView, Pending, Tab};
use super::BAUDS;
use crate::lists::{
    self, insert_item, nums, place, places, push_num, seek,
};
use crate::settings::equals;
use crate::sketch;
use crate::text;

verus! {

pub open spec fn is_at(v: Seq<int>, x: int) -> spec_fn(int) -> bool {
    |k: int| v[k] == x
}

/// The rate `by` places from `baud` in the list of rates, which ends at both
/// ends; one that is not listed counts as the fifth.
pub open spec fn next_baud(baud: u32, by: int) -> u32 {
    let at = match place(15, equals(BAUDS@, baud)) {
        Some(i) => i,
        None => 4,
    };
    let to = at + by;
    BAUDS@[if to < 0 {
        0
    } else if to > 14 {
        14
    } else {
        to
    }]
}

impl AppView {
    pub open spec fn noted(self, i: int, note: Seq<char>) -> AppView {
        AppView { panes: self.panes.update(i, self.panes[i].note(note)), ..self }
    }

    /// Pane `i` closed, where it is connected.
    pub open spec fn stop_monitor(self, i: int) -> AppView {
        if self.linked(i) {
            let p = self.panes[i];
            AppView {
                panes: self.panes.update(
                    i,
                    (PaneView { link: None, ..p }).note("── closed ──"@),
                ),
                input: if i == self.active {
                    None
                } else {
                    self.input
                },
                ..self
            }.act(ActionView::CloseMonitor(p.link->0.id))
        } else {
            self
        }
    }

    /// The first `n` panes closed.
    pub open spec fn stop_first(self, n: nat) -> AppView
        decreases n,
    {
        if n == 0 {
            self
        } else {
            self.stop_first((n - 1) as nat).stop_monitor(n - 1)
        }
    }

    pub open spec fn stop_monitors(self) -> AppView {
        self.stop_first(self.panes.len())
    }

    /// Pane `i` connected to its board, where it is not yet and the board is there.
    pub open spec fn start_monitor(self, i: int) -> AppView {
        if !(0 <= i < self.panes.len()) || self.linked(i) {
            self
        } else {
            let p = self.panes[i];
            match self.port_of(i) {
                None => self.noted(i, "── not connected ──"@),
                Some(d) => {
                    let id = self.mon_gen + 1;
                    let a = d.port.address;
                    let note = "── "@ + a + " @ "@ + text::decimal(p.baud as nat) + " ──"@;
                    AppView {
                        mon_gen: id,
                        panes: self.panes.update(
                            i,
                            PaneView { link: Some(LinkView { port: a, id }), ..p.note(note) },
                        ),
                        ..self
                    }.act(ActionView::OpenMonitor { id, port: d.port, baud: p.baud })
                },
            }
        }
    }

    /// The panes of a list connected, one after the other.
    pub open spec fn start_all(self, list: Seq<int>) -> AppView
        decreases list.len(),
    {
        if list.len() == 0 {
            self
        } else {
            self.start_all(list.drop_last()).start_monitor(list.last())
        }
    }

    /// Board `i` is at a port.
    pub open spec fn connected(self) -> spec_fn(int) -> bool {
        |i: int| self.port_of(i) is Some
    }

    pub open spec fn disconnected(self) -> spec_fn(int) -> bool {
        |i: int| self.port_of(i) is None
    }

    /// Uploads are going on or waiting.
    pub open spec fn uploading(self) -> bool {
        ||| self.queue.len() > 0
        ||| self.asked matches Some(PendingView::Upload { .. })
        ||| self.job matches Some(name) && text::begins(name, "upload"@)
    }

    pub open spec fn any_linked(self) -> bool {
        exists|i: int| self.linked(i)
    }

    /// Every pane closed where one is open or about to be; otherwise those of the
    /// boards that are there opened, after the uploads where there are any.
    pub open spec fn toggle_monitor(self) -> AppView {
        let s = AppView { tab: Tab::Monitor, ..self };
        let there = places(self.boards.len(), self.connected());
        if self.any_linked() || self.resume.len() > 0 {
            AppView { resume: Seq::empty(), ..s }.stop_monitors()
        } else if there.len() == 0 {
            if 0 <= self.active < self.panes.len() {
                s.noted(self.active, "── no connected boards ──"@)
            } else {
                s
            }
        } else if self.uploading() {
            AppView { resume: there, ..s }
        } else {
            s.start_all(there)
        }
    }

    /// The panes that wait are opened where their boards are back, once nothing
    /// runs any more.
    pub open spec fn resume_ready(self) -> AppView {
        if self.busy() || self.queue.len() > 0 {
            self
        } else {
            AppView {
                resume: self.resume.filter(self.disconnected()),
                ..self
            }.start_all(self.resume.filter(self.connected()))
        }
    }

    pub open spec fn load_baud(self, i: int) -> AppView {
        if 0 <= i < self.boards.len() {
            match self.boards[i].sketch {
                Some(rel) => if sketch::folder(rel) {
                    self.act(ActionView::ReadBaud { board: i, rel })
                } else {
                    self
                },
                None => self,
            }
        } else {
            self
        }
    }

    /// A pane for board `i`, at the rate of the settings until its sketch is read.
    pub open spec fn new_pane(self, i: int) -> AppView {
        AppView {
            panes: self.panes.insert(i, fresh_pane(self.settings.baud)),
            ..self
        }.load_baud(i)
    }

    /// Pane `i` at the rate that a `sketch.yaml` sets, where it sets one.
    pub open spec fn baud_read(self, i: int, yaml: Option<Seq<char>>) -> AppView {
        match yaml {
            Some(y) => match sketch::baud_of(text::lines(y)) {
                Some(b) => if 0 <= i < self.panes.len() {
                    AppView {
                        panes: self.panes.update(
                            i,
                            PaneView { baud: b as u32, ..self.panes[i] },
                        ),
                        ..self
                    }
                } else {
                    self
                },
                None => self,
            },
            None => self,
        }
    }

    pub open spec fn focus(self, i: int) -> AppView {
        AppView {
            active: i,
            input: if i != self.active {
                None
            } else {
                self.input
            },
            ..self
        }
    }

    /// The panes to move among: those on the screen, or all where that is one.
    pub open spec fn pane_ring(self) -> Seq<int> {
        if self.shown_panes().len() <= 1 {
            Seq::new(self.panes.len(), |i: int| i)
        } else {
            self.shown_panes()
        }
    }

    pub open spec fn cycle_pane(self, by: int) -> AppView {
        let ring = self.pane_ring();
        match place(ring.len() as int, is_at(ring, self.active)) {
            None => self,
            Some(at) => self.focus(ring[(at + by) % ring.len() as int]),
        }
    }

    pub open spec fn step_baud(self, by: int) -> AppView {
        let i = self.active;
        if 0 <= i < self.panes.len() {
            let p = self.panes[i];
            let s = AppView {
                panes: self.panes.update(i, PaneView { baud: next_baud(p.baud, by), ..p }),
                ..self
            }.save(Some(i), true);
            if p.link is Some {
                s.stop_monitor(i).start_monitor(i)
            } else {
                s
            }
        } else {
            self
        }
    }
}

proof fn lemma_filter_len(s: Seq<char>)
    ensures
        newlines(s) <= s.len(),
{
    s.lemma_filter_len(super::pane::feeds());
}

/// A short note moves a scrolled pane by little.
pub proof fn lemma_note_scroll(p: PaneView, note: Seq<char>)
    requires
        p.scroll >= 0,
    ensures
        p.scroll <= p.note(note).scroll <= p.scroll + note.len() + 2,
        p.note(note).link == p.link,
        p.note(note).baud == p.baud,
        p.scroll == 0 ==> p.note(note).scroll == 0,
{
    reveal_strlit("\n");
    lemma_filter_len("\n"@);
    lemma_filter_len(note + "\n"@);
}

/// Pane `i` has room for a note and a text of no more than an eighth of what
/// the machine can count.
pub open spec fn has_room(p: PaneView) -> bool {
    0 <= p.scroll <= usize::MAX / 2 + 100
}

proof fn lemma_fits(p: PaneView, note: Seq<char>)
    requires
        has_room(p),
        note.len() <= usize::MAX / 8 + 1000,
    ensures
        p.room((newlines(note) + 2) as int),
{
    lemma_filter_len(note);
}

/// What starting one monitor leaves as it is.
pub proof fn lemma_start_monitor(s: AppView, i: int)
    ensures
        ({
            let t = s.start_monitor(i);
            &&& t.boards == s.boards
            &&& t.ports == s.ports
            &&& t.resume == s.resume
            &&& t.active == s.active
            &&& t.panes.len() == s.panes.len()
            &&& s.mon_gen <= t.mon_gen <= s.mon_gen + 1
            &&& forall|k: int|
                0 <= k < s.panes.len() && k != i ==> #[trigger] t.panes[k] == s.panes[k]
            &&& 0 <= i < s.panes.len() && s.port_of(i) is Some ==> t.linked(i)
        }),
{
}

pub proof fn lemma_start_all(s: AppView, list: Seq<int>)
    ensures
        ({
            let t = s.start_all(list);
            &&& t.boards == s.boards
            &&& t.ports == s.ports
            &&& t.resume == s.resume
            &&& t.active == s.active
            &&& t.panes.len() == s.panes.len()
            &&& s.mon_gen <= t.mon_gen <= s.mon_gen + list.len()
        }),
    decreases list.len(),
{
    if list.len() > 0 {
        lemma_start_all(s, list.drop_last());
        lemma_start_monitor(s.start_all(list.drop_last()), list.last());
    }
}

/// Links and ports are read off the panes, the boards and the ports alone.
pub proof fn lemma_same_links(a: AppView, b: AppView)
    requires
        a.panes == b.panes,
        a.boards == b.boards,
        a.ports == b.ports,
    ensures
        a.any_linked() == b.any_linked(),
        a.connected() == b.connected(),
        a.disconnected() == b.disconnected(),
{
    if a.any_linked() {
        let i = choose|i: int| a.linked(i);
        assert(b.linked(i));
    }
    if b.any_linked() {
        let i = choose|i: int| b.linked(i);
        assert(a.linked(i));
    }
    assert(a.connected() =~= b.connected());
    assert(a.disconnected() =~= b.disconnected());
}

proof fn lemma_decimal_len(n: nat)
    requires
        n <= u32::MAX,
    ensures
        text::decimal(n).len() <= 10,
{
    reveal_with_fuel(text::decimal, 11);
}

impl App {
    pub(crate) fn note_at(&mut self, i: usize, note: &str)
        requires
            i < old(self)@.panes.len(),
            has_room(old(self)@.panes[i as int]),
            note@.len() <= usize::MAX / 8 + 1000,
        ensures
            final(self)@ == old(self)@.noted(i as int, note@),
    {
        let ghost ps = self.panes.deep_view();
        proof {
            lemma_fits(ps[i as int], note@);
            assert(ps[i as int] == self.panes@[i as int].deep_view());
        }
        self.panes[i].note(note);
        assert(self.panes.deep_view() =~= ps.update(i as int, ps[i as int].note(note@)));
    }

    pub fn stop_monitor(&mut self, i: usize)
        requires
            i < old(self)@.panes.len() ==> has_room(old(self)@.panes[i as int]),
        ensures
            final(self)@ == old(self)@.stop_monitor(i as int),
    {
        if i >= self.panes.len() {
            return;
        }
        let ghost ps = self.panes.deep_view();
        assert(ps[i as int] == self.panes@[i as int].deep_view());
        let id: u64 = match &self.panes[i].link {
            Some(l) => l.id,
            None => {
                return;
            },
        };
        self.panes[i].link = None;
        assert(self.panes.deep_view() =~= ps.update(
            i as int,
            PaneView { link: None, ..ps[i as int] },
        ));
        if i == self.active {
            self.input = None;
        }
        self.act(Action::CloseMonitor(id));
        proof {
            reveal_strlit("── closed ──");
        }
        self.note_at(i, "── closed ──");
        assert(self@.panes =~= old(self)@.stop_monitor(i as int).panes);
    }

    pub fn stop_monitors(&mut self)
        requires
            forall|i: int| 0 <= i < old(self)@.panes.len() ==> has_room(#[trigger] old(self)@.panes[i]),
        ensures
            final(self)@ == old(self)@.stop_monitors(),
    {
        let n: usize = self.panes.len();
        let ghost o = self@;
        for i in 0..n
            invariant
                n == o.panes.len(),
                self@ == o.stop_first(i as nat),
                self@.panes.len() == n,
                forall|k: int| i <= k < n ==> has_room(#[trigger] self@.panes[k]),
        {
            self.stop_monitor(i);
        }
    }

    pub fn start_monitor(&mut self, i: usize)
        requires
            i < old(self)@.panes.len() ==> old(self)@.linked(i as int) || has_room(
                old(self)@.panes[i as int],
            ),
            ports_fit(old(self)@.ports),
            old(self)@.mon_gen < u64::MAX,
        ensures
            final(self)@ == old(self)@.start_monitor(i as int),
    {
        if i >= self.panes.len() {
            return;
        }
        let ghost o = self@;
        let ghost ps = self.panes.deep_view();
        assert(ps[i as int] == self.panes@[i as int].deep_view());
        if self.panes[i].link.is_some() {
            return;
        }
        let port = match self.port_of(i) {
            Some(d) => d.port.clone(),
            None => {
                proof {
                    reveal_strlit("── not connected ──");
                }
                return self.note_at(i, "── not connected ──");
            },
        };
        proof {
            let j = o.links()[i as int]->0;
            crate::project::law_port_fits(o.boards, o.ports, i as int);
            assert(o.ports[j].port.address.len() <= usize::MAX / 8);
        }
        self.mon_gen = self.mon_gen + 1;
        let id: u64 = self.mon_gen;
        let baud: u32 = self.panes[i].baud;
        let rate = text::number(baud as u64);
        let head = text::cat3("── ", port.address.as_str(), " @ ");
        let note = text::cat3(head.as_str(), rate.as_str(), " ──");
        proof {
            reveal_strlit("── ");
            reveal_strlit(" @ ");
            reveal_strlit(" ──");
            lemma_decimal_len(baud as nat);
        }
        self.note_at(i, note.as_str());
        let ghost qs = self.panes.deep_view();
        assert(qs.len() == self.panes.len());
        let address = port.address.clone();
        self.act(Action::OpenMonitor { id, port, baud });
        self.panes[i].link = Some(Link { port: address, id });
        assert(self@.panes =~= o.start_monitor(i as int).panes) by {
            let l = Some(LinkView { port: address@, id: id as int });
            assert(self.panes.deep_view() =~= qs.update(
                i as int,
                PaneView { link: l, ..qs[i as int] },
            ));
        }
    }

    fn start_list(&mut self, list: &Vec<usize>)
        requires
            forall|k: int|
                0 <= k < old(self)@.panes.len() ==> old(self)@.linked(k) || has_room(
                    #[trigger] old(self)@.panes[k],
                ),
            ports_fit(old(self)@.ports),
            old(self)@.mon_gen + list.len() <= u64::MAX,
            forall|k: int|
                0 <= k < list.len() ==> old(self)@.port_of((#[trigger] list@[k]) as int) is Some,
        ensures
            final(self)@ == old(self)@.start_all(nums(list@)),
    {
        let ghost o = self@;
        let ghost all = nums(list@);
        assert(all.take(0) =~= Seq::<int>::empty());
        for k in 0..list.len()
            invariant
                all == nums(list@),
                self@ == o.start_all(all.take(k as int)),
                self@.boards == o.boards,
                self@.ports == o.ports,
                ports_fit(o.ports),
                o.mon_gen + list.len() <= u64::MAX,
                self@.mon_gen <= o.mon_gen + k,
                forall|m: int|
                    0 <= m < self@.panes.len() ==> self@.linked(m) || has_room(
                        #[trigger] self@.panes[m],
                    ),
                forall|m: int| 0 <= m < list.len() ==> o.port_of((#[trigger] list@[m]) as int) is Some,
        {
            let ghost s = self@;
            let i: usize = list[k];
            proof {
                lemma_start_monitor(s, i as int);
                assert(all.take(k + 1).drop_last() =~= all.take(k as int));
                assert(all.take(k + 1).last() == i as int);
                assert(o.port_of(i as int) is Some);
                assert(s.port_of(i as int) == o.port_of(i as int));
            }
            self.start_monitor(i);
            assert forall|m: int| 0 <= m < self@.panes.len() implies self@.linked(m) || has_room(
                #[trigger] self@.panes[m],
            ) by {
                if m != i {
                    assert(self@.panes[m] == s.panes[m]);
                    assert(s.linked(m) || has_room(s.panes[m]));
                }
            }
        }
        assert(all.take(list.len() as int) =~= all);
    }

    fn connected_boards(&self) -> (r: Vec<usize>)
        ensures
            nums(r@) == places(self@.boards.len(), self@.connected()),
            r.len() <= self.boards.len(),
            forall|k: int|
                0 <= k < r.len() ==> self@.port_of((#[trigger] r@[k]) as int) is Some,
    {
        let ghost p = self@.connected();
        let mut out: Vec<usize> = Vec::new();
        assert(nums(out@) =~= Seq::<int>::empty());
        for i in 0..self.boards.len()
            invariant
                p == self@.connected(),
                nums(out@) == places(i as nat, p),
                out.len() <= i,
                forall|k: int|
                    0 <= k < out.len() ==> self@.port_of((#[trigger] out@[k]) as int) is Some,
        {
            if self.port_of(i).is_some() {
                push_num(&mut out, i);
            }
        }
        out
    }

    fn is_uploading(&self) -> (r: bool)
        ensures
            r == self@.uploading(),
    {
        if self.queue.len() > 0 {
            return true;
        }
        if let Some(Pending::Upload { .. }) = &self.asked {
            return true;
        }
        match &self.job {
            Some(j) => text::starts_with(j.name.as_str(), "upload"),
            None => false,
        }
    }

    fn has_link(&self) -> (r: bool)
        ensures
            r == self@.any_linked(),
    {
        for i in 0..self.panes.len()
            invariant
                forall|k: int| 0 <= k < i ==> !self@.linked(k),
        {
            assert(self@.panes[i as int] == self.panes@[i as int].deep_view());
            if self.panes[i].link.is_some() {
                assert(self@.linked(i as int));
                return true;
            }
        }
        assert forall|k: int| !self@.linked(k) by {}
        false
    }

    pub fn toggle_monitor(&mut self)
        requires
            old(self)@.roomy(),
            old(self)@.paired(),
        ensures
            final(self)@ == old(self)@.toggle_monitor(),
    {
        let ghost o = self@;
        self.tab = Tab::Monitor;
        proof {
            lemma_same_links(self@, o);
        }
        if self.has_link() || self.resume.len() > 0 {
            self.resume.clear();
            assert(nums(self.resume@) =~= Seq::<int>::empty());
            return self.stop_monitors();
        }
        let there = self.connected_boards();
        if there.len() == 0 {
            if self.active < self.panes.len() {
                proof {
                    reveal_strlit("── no connected boards ──");
                }
                self.note_at(self.active, "── no connected boards ──");
            }
        } else if self.is_uploading() {
            self.resume = there;
        } else {
            self.start_list(&there);
        }
    }

    /// Reopens what waits: a flashed board reboots, so its pane waits until the
    /// port is back.
    pub fn resume_ready(&mut self)
        requires
            old(self)@.roomy(),
        ensures
            final(self)@ == old(self)@.resume_ready(),
    {
        if self.job.is_some() || self.asked.is_some() || self.queue.len() > 0 {
            return;
        }
        let ghost o = self@;
        let ghost all = nums(self.resume@);
        let ghost (p, q) = (o.connected(), o.disconnected());
        let mut ready: Vec<usize> = Vec::new();
        let mut waiting: Vec<usize> = Vec::new();
        proof {
            crate::lists::lemma_filter_none(all.take(0), p);
            crate::lists::lemma_filter_none(all.take(0), q);
            assert(nums(ready@) =~= all.take(0).filter(p));
            assert(nums(waiting@) =~= all.take(0).filter(q));
        }
        for k in 0..self.resume.len()
            invariant
                o == self@,
                all == nums(self.resume@),
                p == o.connected(),
                q == o.disconnected(),
                nums(ready@) == all.take(k as int).filter(p),
                nums(waiting@) == all.take(k as int).filter(q),
                ready.len() <= k,
                forall|m: int|
                    0 <= m < ready.len() ==> o.port_of((#[trigger] ready@[m]) as int) is Some,
        {
            let i: usize = self.resume[k];
            assert(all[k as int] == i as int);
            proof {
                crate::lists::lemma_filter_take(all, p, k as int);
                crate::lists::lemma_filter_take(all, q, k as int);
            }
            if self.port_of(i).is_some() {
                push_num(&mut ready, i);
            } else {
                push_num(&mut waiting, i);
            }
        }
        assert(all.take(all.len() as int) =~= all);
        self.resume = waiting;
        proof {
            assert(self@.panes == o.panes);
            assert forall|m: int| 0 <= m < ready.len() implies self@.port_of(
                (#[trigger] ready@[m]) as int,
            ) is Some by {
                assert(o.port_of(ready@[m] as int) is Some);
            }
        }
        self.start_list(&ready);
    }

    pub(crate) fn load_baud(&mut self, i: usize)
        ensures
            final(self)@ == old(self)@.load_baud(i as int),
    {
        if i >= self.boards.len() {
            return;
        }
        assert(self@.boards[i as int] == self.boards@[i as int].deep_view());
        let rel = match &self.boards[i].sketch {
            Some(s) => s.clone(),
            None => {
                return;
            },
        };
        if sketch::is_folder(rel.as_str()) {
            self.act(Action::ReadBaud { board: i, rel });
        }
    }

    pub fn new_pane(&mut self, i: usize)
        requires
            i <= old(self)@.panes.len(),
        ensures
            final(self)@ == old(self)@.new_pane(i as int),
    {
        let pane = Pane::fresh(self.settings.baud);
        insert_item(&mut self.panes, i, pane);
        self.load_baud(i);
    }

    pub(crate) fn baud_read(&mut self, i: usize, yaml: &Option<String>)
        ensures
            final(self)@ == old(self)@.baud_read(i as int, yaml.deep_view()),
    {
        if let Some(b) = sketch::load_baud(yaml) {
            if i < self.panes.len() {
                let ghost ps = self.panes.deep_view();
                assert(ps[i as int] == self.panes@[i as int].deep_view());
                self.panes[i].baud = b;
                assert(self.panes.deep_view() =~= ps.update(
                    i as int,
                    PaneView { baud: b, ..ps[i as int] },
                ));
            }
        }
    }

    pub fn focus(&mut self, i: usize)
        ensures
            final(self)@ == old(self)@.focus(i as int),
    {
        if i != self.active {
            self.input = None;
        }
        self.active = i;
    }

    pub fn cycle_pane(&mut self, by: isize)
        ensures
            final(self)@ == old(self)@.cycle_pane(by as int),
    {
        let ghost o = self@;
        let mut ring = self.shown_panes();
        assert(nums(ring@).len() == ring@.len());
        if ring.len() <= 1 {
            ring.clear();
            for i in 0..self.panes.len()
                invariant
                    ring.len() == i,
                    forall|k: int| 0 <= k < i ==> ring@[k] == k,
            {
                ring.push(i);
            }
            assert(nums(ring@) =~= Seq::new(self@.panes.len(), |i: int| i));
        }
        let ghost r = nums(ring@);
        assert(r == o.pane_ring());
        let ghost p = is_at(r, o.active);
        let mut at: usize = 0;
        while at < ring.len() && ring[at] != self.active
            invariant
                self@ == o,
                r == nums(ring@),
                p == is_at(r, o.active),
                at <= ring.len(),
                seek(0, r.len() as int, p) == seek(at as int, r.len() as int, p),
            decreases ring.len() - at,
        {
            at = at + 1;
        }
        if at == ring.len() {
            return;
        }
        let k: usize = lists::ring(at, by, ring.len());
        assert(k == (at + by) % (r.len() as int));
        assert(r[k as int] == ring@[k as int] as int);
        self.focus(ring[k]);
    }

    /// Moves the active pane along the list of rates, and reconnects it.
    pub fn step_baud(&mut self, by: isize)
        requires
            old(self)@.roomy(),
        ensures
            final(self)@ == old(self)@.step_baud(by as int),
    {
        let ghost o = self@;
        let i: usize = self.active;
        if i >= self.panes.len() {
            return;
        }
        let ghost ps = self.panes.deep_view();
        assert(ps[i as int] == self.panes@[i as int].deep_view());
        let baud: u32 = self.panes[i].baud;
        let ghost p = equals(BAUDS@, baud);
        let mut at: usize = 0;
        while at < 15 && BAUDS[at] != baud
            invariant
                at <= 15,
                p == equals(BAUDS@, baud),
                seek(0, 15, p) == seek(at as int, 15, p),
            decreases 15 - at,
        {
            at = at + 1;
        }
        if at == 15 {
            at = 4;
        }
        let to: i128 = at as i128 + by as i128;
        let k: usize = if to < 0 {
            0
        } else if to > 14 {
            14
        } else {
            to as usize
        };
        self.panes[i].baud = BAUDS[k];
        assert(self.panes.deep_view() =~= ps.update(
            i as int,
            PaneView { baud: next_baud(baud, by as int), ..ps[i as int] },
        ));
        let open = self.panes[i].link.is_some();
        self.save_with(Some(i), true);
        if open {
            let ghost s = self@;
            self.stop_monitor(i);
            proof {
                reveal_strlit("── closed ──");
                lemma_note_scroll(PaneView { link: None, ..s.panes[i as int] }, "── closed ──"@);
            }
            self.start_monitor(i);
        }
    }
}

} // verus!
