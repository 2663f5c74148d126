//! The start of the program, and what happens to it from outside.
use vstd::prelude::*;
use vstd::string::*;

use std::collections::VecDeque;

use super::kinds::Kinds;
use super::lookups::kind_name;
use super::pane::{fresh_pane, PaneView};
use super::state::{ports_fit, Action, ActionView, Answer, App, AppEvent, AppView, Tab};
use crate::cli::{AttachedView, Detected, DetectedView};
use crate::lists::{insert_item, lemma_empty, lemma_seek, nums, push_item, seek};
use crate::project::{Target, TargetView};
use crate::settings::Settings;
use crate::sketch;
use crate::text;

verus! {

// -- ports in order --

/// Element `i` stands behind the address.
pub open spec fn behind(s: Seq<DetectedView>, address: Seq<char>) -> spec_fn(int) -> bool {
    |i: int| text::precedes(address, s[i].port.address)
}

/// The ports by address; those with the same address stay in their order.
pub open spec fn in_order(s: Seq<DetectedView>) -> Seq<DetectedView>
    decreases s.len(),
{
    if s.len() == 0 {
        s
    } else {
        let r = in_order(s.drop_last());
        r.insert(seek(0, r.len() as int, behind(r, s.last().port.address)), s.last())
    }
}

fn sort_ports(v: &Vec<Detected>) -> (r: Vec<Detected>)
    ensures
        r.deep_view() == in_order(v.deep_view()),
{
    let ghost all = v.deep_view();
    let mut out: Vec<Detected> = Vec::new();
    assert(out.deep_view() =~= in_order(all.take(0)));
    for i in 0..v.len()
        invariant
            all == v.deep_view(),
            out.deep_view() == in_order(all.take(i as int)),
    {
        assert(all[i as int] == v@[i as int].deep_view());
        assert(all.take(i + 1).drop_last() =~= all.take(i as int));
        let ghost r = out.deep_view();
        let ghost p = behind(r, all[i as int].port.address);
        let mut at: usize = 0;
        while at < out.len() && !text::is_before(
            v[i].port.address.as_str(),
            out[at].port.address.as_str(),
        )
            invariant
                i < v.len(),
                all == v.deep_view(),
                r == out.deep_view(),
                p == behind(r, all[i as int].port.address),
                at <= out.len(),
                seek(0, r.len() as int, p) == seek(at as int, r.len() as int, p),
            decreases out.len() - at,
        {
            assert(r[at as int] == out@[at as int].deep_view());
            assert(all[i as int] == v@[i as int].deep_view());
            at = at + 1;
        }
        assert(at < out.len() ==> r[at as int] == out@[at as int].deep_view());
        insert_item(&mut out, at, v[i].clone());
    }
    assert(all.take(all.len() as int) =~= all);
    out
}

// -- the start --

/// A sketch that was found, and what its `sketch.yaml` reads.
pub struct Found {
    pub rel: String,
    pub yaml: Option<String>,
}

#[verifier::ext_equal]
pub struct FoundView {
    pub rel: Seq<char>,
    pub yaml: Option<Seq<char>>,
}

impl DeepView for Found {
    type V = FoundView;

    open spec fn deep_view(&self) -> FoundView {
        FoundView { rel: self.rel@, yaml: self.yaml.deep_view() }
    }
}

/// What the program is started with.
pub struct Setup {
    pub cli_version: String,
    /// The project's folder, as it is shown.
    pub root: String,
    pub root_name: Option<String>,
    /// The folder that loose sketches are built in, as it is shown.
    pub scratch: String,
    /// The boards of the project file, or why it did not parse.
    pub project: Result<Vec<Target>, String>,
    pub sketches: Vec<Found>,
    pub settings: Settings,
}

pub open spec fn paths(found: Seq<FoundView>) -> Seq<Seq<char>> {
    found.map_values(|f: FoundView| f.rel)
}

/// The kind of board that a sketch says it is made for.
pub open spec fn says_kind(f: FoundView) -> Option<Seq<char>> {
    if sketch::folder(f.rel) {
        match f.yaml {
            Some(y) => sketch::value_at(y, "default_fqbn:"@),
            None => None,
        }
    } else {
        None
    }
}

pub open spec fn kinds_of(found: Seq<FoundView>) -> Map<Seq<char>, Seq<char>>
    decreases found.len(),
{
    if found.len() == 0 {
        Map::empty()
    } else {
        let m = kinds_of(found.drop_last());
        match says_kind(found.last()) {
            Some(k) => m.insert(found.last().rel, k),
            None => m,
        }
    }
}

pub open spec fn listed_boards(project: Result<Vec<Target>, String>) -> Seq<TargetView> {
    match project {
        Ok(v) => v.deep_view(),
        Err(_) => Seq::empty(),
    }
}

/// What is asked for at the start: the rates of the first `n` boards' sketches.
pub open spec fn rate_asks(boards: Seq<TargetView>, n: nat) -> Seq<ActionView>
    decreases n,
{
    if n == 0 {
        Seq::empty()
    } else {
        let fewer = rate_asks(boards, (n - 1) as nat);
        match boards[n - 1].sketch {
            Some(rel) => if sketch::folder(rel) {
                fewer.push(ActionView::ReadBaud { board: n - 1, rel })
            } else {
                fewer
            },
            None => fewer,
        }
    }
}

/// The state that the program starts in.
pub open spec fn started(s: Setup) -> AppView {
    let boards = listed_boards(s.project);
    let found = s.sketches.deep_view();
    AppView {
        cli_version: s.cli_version@,
        root: s.root@,
        root_name: s.root_name.deep_view(),
        scratch: s.scratch@,
        root_is_sketch: paths(found) == seq!["."@],
        project_err: match s.project {
            Ok(_) => None,
            Err(e) => Some(e@),
        },
        tab: if boards.len() == 0 {
            Tab::Project
        } else {
            Tab::Build
        },
        boards,
        sketches: paths(found),
        sketch_fqbn: kinds_of(found),
        pending_port: None,
        active: 0,
        sel: 0,
        ports: Seq::empty(),
        ports_err: None,
        scanned: false,
        all_boards: None,
        picker: None,
        log: Seq::empty(),
        log_scroll: 0,
        redrawing: false,
        job: None,
        asked: None,
        queue: Seq::empty(),
        panes: Seq::new(boards.len(), |i: int| fresh_pane(s.settings.baud)),
        mon_gen: 0,
        resume: Seq::empty(),
        input: None,
        settings: s.settings.deep_view(),
        set_sel: 0,
        quit: false,
        actions: rate_asks(boards, boards.len()),
    }
}

// -- what happens --

/// A board with its name, where it had only its kind for one.
pub open spec fn named(
    t: TargetView,
    all: Option<Result<Seq<crate::cli::BoardView>, Seq<char>>>,
) -> TargetView {
    if t.name == t.fqbn {
        TargetView { name: kind_name(all, t.fqbn), ..t }
    } else {
        t
    }
}

pub open spec fn farewell(r: Result<(), Seq<char>>) -> Seq<char> {
    match r {
        Ok(_) => "── disconnected ──"@,
        Err(e) => "── disconnected: "@ + e + " ──"@,
    }
}

impl AppView {
    pub open spec fn ports_found(self, ports: Seq<DetectedView>) -> AppView {
        AppView { ports: in_order(ports), ports_err: None, scanned: true, ..self }.resume_ready()
    }

    pub open spec fn boards_known(
        self,
        all: Result<Seq<crate::cli::BoardView>, Seq<char>>,
    ) -> AppView {
        AppView {
            all_boards: Some(all),
            boards: self.boards.map_values(|t: TargetView| named(t, Some(all))),
            ..self
        }
    }

    /// A project that is one sketch, without a board yet, takes the board that the
    /// sketch names.
    pub open spec fn defaults_known(self, d: AttachedView) -> AppView {
        if self.wants_defaults() && d.fqbn.len() > 0 {
            let t = TargetView {
                name: self.board_name(d.fqbn),
                fqbn: d.fqbn,
                port: match d.port {
                    Some(p) => Some(p.address),
                    None => None,
                },
                sketch: Some("."@),
            };
            let s = AppView { boards: self.boards.push(t), ..self }.new_pane(
                self.boards.len() as int,
            );
            AppView { tab: Tab::Build, ..s }
        } else {
            self
        }
    }

    /// Text from a board; what comes from a connection that is closed is dropped.
    pub open spec fn serial(self, id: int, chunk: Seq<char>) -> AppView {
        match self.pane_of(id) {
            Some(i) => AppView {
                panes: self.panes.update(i, self.panes[i].push(chunk)),
                ..self
            },
            None => self,
        }
    }

    pub open spec fn serial_done(self, id: int, r: Result<(), Seq<char>>) -> AppView {
        match self.pane_of(id) {
            Some(i) => AppView {
                panes: self.panes.update(
                    i,
                    (PaneView { link: None, ..self.panes[i] }).note(farewell(r)),
                ),
                input: if i == self.active {
                    None
                } else {
                    self.input
                },
                ..self
            },
            None => self,
        }
    }

    /// The state after an event.
    pub open spec fn event(self, ev: AppEvent) -> AppView {
        match ev {
            AppEvent::Ports(Ok(p)) => self.ports_found(p.deep_view()),
            AppEvent::Ports(Err(e)) => AppView { ports_err: Some(e@), ..self },
            AppEvent::AllBoards(Ok(v)) => self.boards_known(Ok(v.deep_view())),
            AppEvent::AllBoards(Err(e)) => self.boards_known(Err(e@)),
            AppEvent::Log(line) => self.logged(line@),
            AppEvent::Progress(line) => self.progressed(line@),
            AppEvent::JobDone(r, secs) => self.job_done(text::told(r), secs@),
            AppEvent::Serial(id, chunk) => self.serial(id as int, chunk@),
            AppEvent::SerialDone(id, r) => self.serial_done(id as int, text::told(r)),
            AppEvent::Defaults(d) => self.defaults_known(d.deep_view()),
        }
    }

    /// What an event brings is within what the machine can count.
    pub open spec fn takes(self, ev: AppEvent) -> bool {
        match ev {
            AppEvent::Ports(Ok(p)) => ports_fit(p.deep_view()) && self.boards.len() + p@.len()
                <= usize::MAX,
            AppEvent::Serial(_, chunk) => chunk@.len() <= usize::MAX / 8,
            AppEvent::SerialDone(_, Err(e)) => e@.len() <= usize::MAX / 8,
            _ => true,
        }
    }

    /// The state after the answer to an action.
    pub open spec fn answer(self, a: Answer) -> AppView {
        match a {
            Answer::SketchRead { board, rel, yaml } => self.sketch_read(
                board as int,
                rel@,
                yaml.deep_view(),
            ),
            Answer::BaudRead { board, yaml } => self.baud_read(board as int, yaml.deep_view()),
            Answer::Built(r) => self.built(text::told_text(r)),
            Answer::ProjectSaved(Ok(_)) => self,
            Answer::ProjectSaved(Err(e)) => self.say("✗ couldn't save fluxus.yaml: "@ + e@),
            Answer::SettingsSaved(Ok(_)) => self,
            Answer::SettingsSaved(Err(e)) => self.say("✗ couldn't save settings: "@ + e@),
        }
    }
}

pub proof fn lemma_in_order_len(s: Seq<DetectedView>)
    ensures
        in_order(s).len() == s.len(),
    decreases s.len(),
{
    if s.len() > 0 {
        lemma_in_order_len(s.drop_last());
        let r = in_order(s.drop_last());
        lemma_seek(0, r.len() as int, behind(r, s.last().port.address));
    }
}

proof fn lemma_in_order_fits(s: Seq<DetectedView>)
    requires
        ports_fit(s),
    ensures
        ports_fit(in_order(s)),
    decreases s.len(),
{
    if s.len() > 0 {
        let r = in_order(s.drop_last());
        let k = seek(0, r.len() as int, behind(r, s.last().port.address));
        lemma_seek(0, r.len() as int, behind(r, s.last().port.address));
        assert forall|j: int| 0 <= j < s.drop_last().len() implies (
        #[trigger] s.drop_last()[j]).port.address.len() <= usize::MAX / 8 by {
            assert(s.drop_last()[j] == s[j]);
        }
        lemma_in_order_fits(s.drop_last());
        assert(s[s.len() - 1] == s.last());
        assert forall|j: int| 0 <= j < in_order(s).len() implies (
        #[trigger] in_order(s)[j]).port.address.len() <= usize::MAX / 8 by {
            if j < k {
                assert(in_order(s)[j] == r[j]);
            } else if j > k {
                assert(in_order(s)[j] == r[j - 1]);
            }
        }
    }
}

fn fit(ports: &Vec<Detected>) -> (r: bool)
    ensures
        r == ports_fit(ports.deep_view()),
{
    let ghost all = ports.deep_view();
    for j in 0..ports.len()
        invariant
            all == ports.deep_view(),
            forall|k: int| 0 <= k < j ==> (#[trigger] all[k]).port.address.len() <= usize::MAX / 8,
    {
        assert(all[j as int] == ports@[j as int].deep_view());
        if ports[j].port.address.as_str().unicode_len() > usize::MAX / 8 {
            return false;
        }
    }
    true
}

/// The ports stand in the order of their addresses.
pub open spec fn ascending(s: Seq<DetectedView>) -> bool {
    forall|i: int, j: int|
        0 <= i < j < s.len() ==> !text::precedes(
            (#[trigger] s[j]).port.address,
            (#[trigger] s[i]).port.address,
        )
}

pub open spec fn has_address(a: Seq<char>) -> spec_fn(DetectedView) -> bool {
    |d: DetectedView| d.port.address == a
}

proof fn lemma_ascending(s: Seq<DetectedView>)
    ensures
        ascending(in_order(s)),
    decreases s.len(),
{
    if s.len() > 0 {
        lemma_ascending(s.drop_last());
        let r = in_order(s.drop_last());
        let x = s.last();
        let p = behind(r, x.port.address);
        let k = seek(0, r.len() as int, p);
        lemma_seek(0, r.len() as int, p);
        let t = in_order(s);
        assert(t == r.insert(k, x));
        assert forall|i: int, j: int| 0 <= i < j < t.len() implies !text::precedes(
            (#[trigger] t[j]).port.address,
            (#[trigger] t[i]).port.address,
        ) by {
            let a = t[i].port.address;
            let b = t[j].port.address;
            text::lemma_order(a, b);
            if i == k {
                assert(t[j] == r[j - 1]);
                assert(p(k));
                if j - 1 > k && text::precedes(b, a) {
                    let c = r[k].port.address;
                    text::lemma_order_chain(b, a, c);
                    assert(!text::precedes(r[j - 1].port.address, r[k].port.address));
                }
            } else if j == k {
                assert(t[i] == r[i]);
                assert(!p(i));
            } else {
                let (i0, j0) = (if i < k { i } else { i - 1 }, if j < k { j } else { j - 1 });
                assert(t[i] == r[i0] && t[j] == r[j0]);
            }
        }
    }
}

/// The ports come out in the order of their addresses, none is lost, none is
/// added, and those with one address keep the order they came in.
pub proof fn law_ports_are_sorted(s: Seq<DetectedView>, a: Seq<char>)
    ensures
        ascending(in_order(s)),
        in_order(s).len() == s.len(),
        in_order(s).filter(has_address(a)) == s.filter(has_address(a)),
    decreases s.len(),
{
    lemma_ascending(s);
    lemma_in_order_len(s);
    if s.len() > 0 {
        let r = in_order(s.drop_last());
        let x = s.last();
        let p = behind(r, x.port.address);
        let k = seek(0, r.len() as int, p);
        let q = has_address(a);
        lemma_seek(0, r.len() as int, p);
        lemma_ascending(s.drop_last());
        law_ports_are_sorted(s.drop_last(), a);
        let (front, back) = (r.take(k), r.skip(k));
        assert(r =~= front + back);
        assert(in_order(s) =~= (front + seq![x]) + back);
        Seq::filter_distributes_over_add(front, back, q);
        Seq::filter_distributes_over_add(front + seq![x], back, q);
        Seq::filter_distributes_over_add(front, seq![x], q);
        Seq::filter_distributes_over_add(s.drop_last(), seq![x], q);
        assert(s =~= s.drop_last() + seq![x]);
        assert(seq![x].filter(q) =~= if q(x) {
            seq![x]
        } else {
            Seq::empty()
        }) by {
            reveal_with_fuel(Seq::filter, 2);
            assert(seq![x].drop_last() =~= Seq::<DetectedView>::empty());
        }
        if q(x) {
            assert forall|i: int| 0 <= i < back.len() implies !q(#[trigger] back[i]) by {
                assert(p(k));
                text::lemma_order(a, a);
                if i > 0 {
                    assert(back[i] == r[k + i] && back[0] == r[k]);
                    assert(!text::precedes(r[k + i].port.address, r[k].port.address));
                }
            }
            lemma_none_pass(back, q);
            assert(in_order(s).filter(q) =~= r.filter(q).push(x));
        }
        assert(in_order(s).filter(q) =~= s.filter(q));
    } else {
        assert(in_order(s) =~= s);
    }
}

proof fn lemma_none_pass<A>(s: Seq<A>, p: spec_fn(A) -> bool)
    requires
        forall|i: int| 0 <= i < s.len() ==> !p(#[trigger] s[i]),
    ensures
        s.filter(p) == Seq::<A>::empty(),
    decreases s.len(),
{
    reveal(Seq::filter);
    if s.len() > 0 {
        assert forall|i: int| 0 <= i < s.drop_last().len() implies !p(
            #[trigger] s.drop_last()[i],
        ) by {
            assert(s.drop_last()[i] == s[i]);
        }
        lemma_none_pass(s.drop_last(), p);
        assert(!p(s[s.len() - 1]));
    }
}

impl App {
    pub fn new(setup: Setup) -> (r: App)
        ensures
            r@ == started(setup),
            r@.paired(),
    {
        let ghost want = started(setup);
        let (boards, project_err) = match setup.project {
            Ok(b) => (b, None),
            Err(e) => {
                let none: Vec<Target> = Vec::new();
                proof {
                    lemma_empty(none);
                }
                (none, Some(e))
            },
        };
        let ghost found = setup.sketches.deep_view();
        let mut sketches: Vec<String> = Vec::new();
        let mut sketch_fqbn = Kinds::new();
        assert(sketches.deep_view() =~= paths(found).take(0));
        assert(found.take(0) =~= Seq::<FoundView>::empty());
        for k in 0..setup.sketches.len()
            invariant
                found == setup.sketches.deep_view(),
                sketches.deep_view() == paths(found).take(k as int),
                sketch_fqbn@ == kinds_of(found.take(k as int)),
        {
            let f = &setup.sketches[k];
            assert(f.deep_view() == found[k as int]);
            assert(found.take(k + 1).drop_last() =~= found.take(k as int));
            if sketch::is_folder(f.rel.as_str()) {
                if let Some(y) = &f.yaml {
                    if let Some(kind) = sketch::yaml_value(y.as_str(), "default_fqbn:") {
                        sketch_fqbn.insert(f.rel.as_str(), kind.as_str());
                    }
                }
            }
            push_item(&mut sketches, f.rel.clone());
            assert(sketches.deep_view() =~= paths(found).take(k + 1));
        }
        assert(found.take(found.len() as int) =~= found);
        assert(sketches.deep_view() =~= paths(found));
        let root_is_sketch = sketches.len() == 1 && text::same(sketches[0].as_str(), ".");
        proof {
            let p = paths(found);
            assert(sketches.len() == p.len());
            if p.len() == 1 {
                assert(p[0] == sketches@[0]@);
                if p[0] == "."@ {
                    assert(p =~= seq!["."@]);
                }
            }
            if p == seq!["."@] {
                assert(p.len() == 1 && p[0] == "."@);
            }
        }
        let tab = if boards.len() == 0 { Tab::Project } else { Tab::Build };
        let ports: Vec<Detected> = Vec::new();
        let log: Vec<String> = Vec::new();
        let actions: Vec<Action> = Vec::new();
        let mut app = App {
            cli_version: setup.cli_version,
            root: setup.root,
            root_name: setup.root_name,
            scratch: setup.scratch,
            root_is_sketch,
            project_err,
            tab,
            boards,
            sketches,
            sketch_fqbn,
            pending_port: None,
            active: 0,
            sel: 0,
            ports,
            ports_err: None,
            scanned: false,
            all_boards: None,
            picker: None,
            log,
            log_scroll: 0,
            redrawing: false,
            job: None,
            asked: None,
            queue: VecDeque::new(),
            panes: Vec::new(),
            mon_gen: 0,
            resume: Vec::new(),
            input: None,
            settings: setup.settings,
            set_sel: 0,
            quit: false,
            actions,
        };
        proof {
            lemma_empty(ports);
            lemma_empty(log);
            lemma_empty(actions);
            lemma_empty(app.panes);
            assert(nums(app.queue@) =~= Seq::<int>::empty());
            assert(nums(app.resume@) =~= Seq::<int>::empty());
        }
        let n: usize = app.boards.len();
        let ghost none: Seq<PaneView> = Seq::empty();
        assert(app@ =~= AppView { panes: none, actions: Seq::empty(), ..want });
        assert(none =~= Seq::new(0, |i: int| fresh_pane(want.settings.baud)));
        for i in 0..n
            invariant
                n == want.boards.len(),
                app@ == (AppView {
                    panes: Seq::new(i as nat, |k: int| fresh_pane(want.settings.baud)),
                    actions: rate_asks(want.boards, i as nat),
                    ..want
                }),
        {
            let ghost s = app@;
            app.new_pane(i);
            assert(s.panes.insert(i as int, fresh_pane(want.settings.baud)) =~= Seq::new(
                (i + 1) as nat,
                |k: int| fresh_pane(want.settings.baud),
            ));
            assert(app@ =~= AppView {
                panes: Seq::new((i + 1) as nat, |k: int| fresh_pane(want.settings.baud)),
                actions: rate_asks(want.boards, (i + 1) as nat),
                ..want
            });
        }
        assert(app@.panes =~= want.panes);
        app
    }

    fn boards_known(&mut self, all: Result<Vec<crate::cli::Board>, String>)
        ensures
            final(self)@ == (match all {
                Ok(v) => old(self)@.boards_known(Ok(v.deep_view())),
                Err(e) => old(self)@.boards_known(Err(e@)),
            }),
    {
        let ghost o = self@;
        self.all_boards = Some(all);
        let ghost known = self@.all_boards;
        let ghost f = |t: TargetView| named(t, known);
        let n: usize = self.boards.len();
        for i in 0..n
            invariant
                n == o.boards.len(),
                self@.boards.len() == o.boards.len(),
                self@ == (AppView { all_boards: known, boards: self@.boards, ..o }),
                f == (|t: TargetView| named(t, known)),
                forall|k: int| 0 <= k < i ==> #[trigger] self@.boards[k] == f(o.boards[k]),
                forall|k: int| i <= k < o.boards.len() ==> #[trigger] self@.boards[k] == o.boards[k],
        {
            let ghost bs = self.boards.deep_view();
            assert(bs[i as int] == self.boards@[i as int].deep_view());
            assert(bs[i as int] == o.boards[i as int]);
            if text::same(self.boards[i].name.as_str(), self.boards[i].fqbn.as_str()) {
                let name = self.board_name(self.boards[i].fqbn.as_str());
                self.boards[i].name = name;
                assert(self.boards.deep_view() =~= bs.update(
                    i as int,
                    TargetView { name: name@, ..bs[i as int] },
                ));
            }
        }
        assert(self@.boards =~= o.boards.map_values(f));
    }

    fn serial(&mut self, id: u64, chunk: &str)
        requires
            old(self)@.roomy(),
            chunk@.len() <= usize::MAX / 8,
        ensures
            final(self)@ == old(self)@.serial(id as int, chunk@),
    {
        if let Some(i) = self.pane_of(id) {
            let ghost ps = self.panes.deep_view();
            assert(ps[i as int] == self.panes@[i as int].deep_view());
            proof {
                chunk@.lemma_filter_len(super::pane::feeds());
            }
            self.panes[i].push(chunk);
            assert(self.panes.deep_view() =~= ps.update(i as int, ps[i as int].push(chunk@)));
        }
    }

    fn serial_done(&mut self, id: u64, r: Result<(), String>)
        requires
            old(self)@.roomy(),
            r matches Err(e) ==> e@.len() <= usize::MAX / 8,
        ensures
            final(self)@ == old(self)@.serial_done(id as int, text::told(r)),
    {
        let i: usize = match self.pane_of(id) {
            Some(i) => i,
            None => {
                return;
            },
        };
        let ghost o = self@;
        let ghost ps = self.panes.deep_view();
        assert(ps[i as int] == self.panes@[i as int].deep_view());
        self.panes[i].link = None;
        assert(self.panes.deep_view() =~= ps.update(
            i as int,
            PaneView { link: None, ..ps[i as int] },
        ));
        if i == self.active {
            self.input = None;
        }
        let note = match r {
            Ok(_) => "── disconnected ──".to_owned(),
            Err(e) => text::cat3("── disconnected: ", e.as_str(), " ──"),
        };
        proof {
            reveal_strlit("── disconnected ──");
            reveal_strlit("── disconnected: ");
            reveal_strlit(" ──");
        }
        self.note_at(i, note.as_str());
        assert(self@.panes =~= o.serial_done(id as int, text::told(r)).panes);
    }

    pub fn event(&mut self, ev: AppEvent)
        requires
            old(self)@.roomy(),
            old(self)@.paired(),
            old(self)@.takes(ev),
        ensures
            final(self)@ == old(self)@.event(ev),
    {
        match ev {
            AppEvent::Ports(Ok(p)) => {
                let ports = sort_ports(&p);
                proof {
                    lemma_in_order_fits(p.deep_view());
                    lemma_in_order_len(p.deep_view());
                }
                self.ports = ports;
                self.ports_err = None;
                self.scanned = true;
                self.resume_ready();
            },
            AppEvent::Ports(Err(e)) => {
                self.ports_err = Some(e);
            },
            AppEvent::AllBoards(r) => self.boards_known(r),
            AppEvent::Defaults(d) => {
                if self.wants_defaults() && !d.fqbn.as_str().is_empty() {
                    let name = self.board_name(d.fqbn.as_str());
                    let port = match d.port {
                        Some(p) => Some(p.address),
                        None => None,
                    };
                    let i: usize = self.boards.len();
                    push_item(
                        &mut self.boards,
                        Target { name, fqbn: d.fqbn, port, sketch: Some(".".to_owned()) },
                    );
                    self.new_pane(i);
                    self.tab = Tab::Build;
                }
            },
            AppEvent::Log(line) => self.log_line(line.as_str()),
            AppEvent::Progress(line) => self.progress(line),
            AppEvent::JobDone(r, secs) => self.job_done(r, secs.as_str()),
            AppEvent::Serial(id, chunk) => self.serial(id, chunk.as_str()),
            AppEvent::SerialDone(id, r) => self.serial_done(id, r),
        }
    }

    /// The state can take the next key or event.
    pub fn is_ready(&self) -> (r: bool)
        ensures
            r == (self@.roomy() && self@.paired()),
    {
        if self.log_scroll > usize::MAX / 2 || self.panes.len() != self.boards.len() {
            return false;
        }
        let total: u128 = self.mon_gen as u128 + self.resume.len() as u128 + self.panes.len()
            as u128;
        if total >= u64::MAX as u128 || self.boards.len() > usize::MAX - self.ports.len() {
            return false;
        }
        for i in 0..self.panes.len()
            invariant
                forall|k: int| 0 <= k < i ==> (#[trigger] self@.panes[k]).scroll <= usize::MAX / 2,
        {
            assert(self@.panes[i as int] == self.panes@[i as int].deep_view());
            if self.panes[i].scroll > usize::MAX / 2 {
                return false;
            }
        }
        if let Some(s) = &self.input {
            if s.as_str().unicode_len() > usize::MAX / 8 {
                return false;
            }
        }
        fit(&self.ports)
    }

    /// What an event brings can be taken.
    pub fn can_take(&self, ev: &AppEvent) -> (r: bool)
        ensures
            r == self@.takes(*ev),
    {
        match ev {
            AppEvent::Ports(Ok(p)) => fit(p) && self.boards.len() <= usize::MAX - p.len(),
            AppEvent::Serial(_, chunk) => chunk.as_str().unicode_len() <= usize::MAX / 8,
            AppEvent::SerialDone(_, Err(e)) => e.as_str().unicode_len() <= usize::MAX / 8,
            _ => true,
        }
    }

    /// Takes the answer to an action.
    pub fn answer(&mut self, a: Answer)
        requires
            old(self)@.log_scroll < usize::MAX,
        ensures
            final(self)@ == old(self)@.answer(a),
    {
        match a {
            Answer::SketchRead { board, rel, yaml } => self.sketch_read(board, rel, &yaml),
            Answer::BaudRead { board, yaml } => self.baud_read(board, &yaml),
            Answer::Built(r) => self.built(r),
            Answer::ProjectSaved(Ok(_)) => {},
            Answer::ProjectSaved(Err(e)) => self.say(
                text::cat2("✗ couldn't save fluxus.yaml: ", e.as_str()),
            ),
            Answer::SettingsSaved(Ok(_)) => {},
            Answer::SettingsSaved(Err(e)) => self.say(
                text::cat2("✗ couldn't save settings: ", e.as_str()),
            ),
        }
    }

    /// Hands over what is to be done outside, in order.
    pub fn take_actions(&mut self) -> (r: Vec<Action>)
        ensures
            r.deep_view() == old(self)@.actions,
            final(self)@ == (AppView { actions: Seq::empty(), ..old(self)@ }),
    {
        let mut out: Vec<Action> = Vec::new();
        std::mem::swap(&mut out, &mut self.actions);
        proof {
            lemma_empty(self.actions);
        }
        out
    }
}

} // verus!
