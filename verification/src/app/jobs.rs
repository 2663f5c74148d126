//! Runs of `arduino-cli`: compiling, uploading to one board or to all, and
//! installing what a board needs.
use vstd::prelude::*;
use vstd::string::*;

use std::collections::VecDeque;

use super::monitor::has_room;
use super::state::{Action, ActionView, App, AppView, Arg, ArgView, Job, Pending, PendingView, Tab};
use crate::cli::{Port, PortView};
use crate::lists::{clear_items, nums, places, pop_item, popped, push_item, push_num};
use crate::project::spots;
use crate::text;

verus! {

// -- arguments --

pub open spec fn shown_arg(a: ArgView) -> Seq<char> {
    match a {
        ArgView::Word(s) => s,
        ArgView::Folder(s) => s,
    }
}

/// The arguments as they are shown.
pub open spec fn shown_args(args: Seq<ArgView>) -> Seq<Seq<char>> {
    args.map_values(|a: ArgView| shown_arg(a))
}

pub open spec fn compile_args(fqbn: Seq<char>, dir: Seq<char>, verbose: bool) -> Seq<ArgView> {
    let args = seq![
        ArgView::Word("compile"@),
        ArgView::Word("-b"@),
        ArgView::Word(fqbn),
        ArgView::Folder(dir),
    ];
    if verbose {
        args.push(ArgView::Word("-v"@))
    } else {
        args
    }
}

pub open spec fn upload_args(
    fqbn: Seq<char>,
    port: PortView,
    dir: Seq<char>,
    verbose: bool,
) -> Seq<ArgView> {
    let args = seq![
        ArgView::Word("compile"@),
        ArgView::Word("-u"@),
        ArgView::Word("-b"@),
        ArgView::Word(fqbn),
        ArgView::Word("-p"@),
        ArgView::Word(port.address),
    ];
    let told = if port.protocol.len() > 0 {
        args.push(ArgView::Word("-l"@)).push(ArgView::Word(port.protocol))
    } else {
        args
    };
    let loud = if verbose {
        told.push(ArgView::Word("-v"@))
    } else {
        told
    };
    loud.push(ArgView::Folder(dir))
}

pub open spec fn install_args(core: Seq<char>) -> Seq<ArgView> {
    seq![ArgView::Word("core"@), ArgView::Word("install"@), ArgView::Word(core)]
}

fn word(s: &str) -> (r: Arg)
    ensures
        r.deep_view() == ArgView::Word(s@),
{
    Arg::Word(s.to_owned())
}

fn args_to_compile(fqbn: &str, dir: &str, verbose: bool) -> (r: Vec<Arg>)
    ensures
        r.deep_view() == compile_args(fqbn@, dir@, verbose),
{
    let mut args: Vec<Arg> = Vec::new();
    push_item(&mut args, word("compile"));
    push_item(&mut args, word("-b"));
    push_item(&mut args, word(fqbn));
    push_item(&mut args, Arg::Folder(dir.to_owned()));
    if verbose {
        push_item(&mut args, word("-v"));
    }
    assert(args.deep_view() =~= compile_args(fqbn@, dir@, verbose));
    args
}

fn args_to_upload(fqbn: &str, port: &Port, dir: &str, verbose: bool) -> (r: Vec<Arg>)
    ensures
        r.deep_view() == upload_args(fqbn@, port.deep_view(), dir@, verbose),
{
    let mut args: Vec<Arg> = Vec::new();
    push_item(&mut args, word("compile"));
    push_item(&mut args, word("-u"));
    push_item(&mut args, word("-b"));
    push_item(&mut args, word(fqbn));
    push_item(&mut args, word("-p"));
    push_item(&mut args, word(port.address.as_str()));
    if !port.protocol.as_str().is_empty() {
        push_item(&mut args, word("-l"));
        push_item(&mut args, word(port.protocol.as_str()));
    }
    if verbose {
        push_item(&mut args, word("-v"));
    }
    push_item(&mut args, Arg::Folder(dir.to_owned()));
    assert(args.deep_view() =~= upload_args(fqbn@, port.deep_view(), dir@, verbose));
    args
}

fn args_to_install(core: &str) -> (r: Vec<Arg>)
    ensures
        r.deep_view() == install_args(core@),
{
    let mut args: Vec<Arg> = Vec::new();
    push_item(&mut args, word("core"));
    push_item(&mut args, word("install"));
    push_item(&mut args, word(core));
    assert(args.deep_view() =~= install_args(core@));
    args
}

fn show_args(args: &Vec<Arg>) -> (r: Vec<String>)
    ensures
        r.deep_view() == shown_args(args.deep_view()),
{
    let ghost all = args.deep_view();
    let mut out: Vec<String> = Vec::new();
    assert(out.deep_view() =~= shown_args(all).take(0));
    for i in 0..args.len()
        invariant
            all == args.deep_view(),
            out.deep_view() == shown_args(all).take(i as int),
    {
        assert(all[i as int] == args@[i as int].deep_view());
        let s = match &args[i] {
            Arg::Word(s) => s.clone(),
            Arg::Folder(s) => s.clone(),
        };
        push_item(&mut out, s);
        assert(out.deep_view() =~= shown_args(all).take(i + 1));
    }
    assert(out.deep_view() =~= shown_args(all));
    out
}

// -- the core of a board --

/// The core that a kind of board belongs to: what stands before the second colon.
pub open spec fn core_of(fqbn: Seq<char>) -> Seq<char> {
    let a = text::first(fqbn, ':', 0);
    if a < fqbn.len() {
        fqbn.take(text::first(fqbn, ':', a + 1))
    } else {
        fqbn
    }
}

pub fn core_name(fqbn: &str) -> (r: String)
    ensures
        r@ == core_of(fqbn@),
{
    let v = text::chars_of(fqbn);
    let a: usize = text::find_char(&v, ':', 0);
    if a < v.len() {
        let b: usize = text::find_char(&v, ':', a + 1);
        let r = text::string_of(&v, 0, b);
        assert(r@ =~= core_of(fqbn@));
        r
    } else {
        fqbn.to_owned()
    }
}

// -- the log --

impl AppView {
    /// A line as it is logged: paths below the project's folder, and below the
    /// one that loose sketches are built in, are cut short.
    pub open spec fn shortened(self, line: Seq<char>) -> Seq<char> {
        text::without(text::without(line, self.root + "/"@), self.scratch + "/"@)
    }

    /// The state after a line of output. The last redraw of a progress bar stays,
    /// unless a line comes in its place.
    pub open spec fn logged(self, line: Seq<char>) -> AppView {
        let l = self.shortened(line);
        let kept = if self.redrawing && l.len() > 0 {
            popped(self.log)
        } else {
            self.log
        };
        AppView {
            log: kept.push(l),
            redrawing: false,
            log_scroll: if self.log_scroll > 0 {
                self.log_scroll + 1
            } else {
                self.log_scroll
            },
            ..self
        }
    }

    /// The state after a redraw of a progress bar, which takes the place of the
    /// last one.
    pub open spec fn progressed(self, line: Seq<char>) -> AppView {
        let kept = if self.redrawing {
            popped(self.log)
        } else {
            self.log
        };
        AppView {
            log: kept.push(line),
            redrawing: true,
            log_scroll: if !self.redrawing && self.log_scroll > 0 {
                self.log_scroll + 1
            } else {
                self.log_scroll
            },
            ..self
        }
    }

    pub open spec fn cleared(self) -> AppView {
        AppView { log: Seq::empty(), log_scroll: 0, ..self }
    }
}

// -- runs --

pub open spec fn mentions(log: Seq<Seq<char>>, what: Seq<char>) -> bool {
    exists|i: int| 0 <= i < log.len() && text::holds(#[trigger] log[i], what)
}

pub open spec fn outcome(
    name: Seq<char>,
    r: Result<bool, Seq<char>>,
    secs: Seq<char>,
) -> Seq<char> {
    match r {
        Ok(ok) => if ok {
            "✓ "@ + name + " done in "@ + secs + "s"@
        } else {
            "✗ "@ + name + " failed ("@ + secs + "s)"@
        },
        Err(e) => "✗ "@ + name + ": "@ + e,
    }
}

impl AppView {
    /// Why board `i` cannot be built for, if it cannot.
    pub open spec fn unprepared(self, i: int) -> Option<Seq<char>> {
        if !(0 <= i < self.boards.len()) {
            Some("✗ "@ + self.no_boards())
        } else if self.boards[i].sketch is None {
            Some("✗ "@ + self.boards[i].name + " has no sketch — press s"@)
        } else {
            None
        }
    }

    pub open spec fn run_job(self, name: Seq<char>, args: Seq<ArgView>) -> AppView {
        let s = AppView { redrawing: false, ..self }.logged(
            "$ arduino-cli "@ + text::joined(shown_args(args), " "@),
        );
        AppView { job: Some(name), ..s }.act(ActionView::Run(args))
    }

    pub open spec fn compile(self) -> AppView {
        let s = AppView { tab: Tab::Build, ..self };
        if self.busy() {
            s
        } else {
            let c = s.cleared();
            match c.unprepared(c.active) {
                Some(why) => c.say(why),
                None => {
                    let t = c.boards[c.active];
                    AppView {
                        asked: Some(PendingView::Compile { name: t.name, fqbn: t.fqbn }),
                        ..c
                    }.act(ActionView::BuildFolder(t.sketch->0))
                },
            }
        }
    }

    pub open spec fn install_core(self, core: Seq<char>) -> AppView {
        let s = AppView { tab: Tab::Build, ..self };
        if self.busy() {
            s
        } else {
            s.cleared().run_job("install "@ + core, install_args(core))
        }
    }

    /// The next upload of the queue that can be made is started; what cannot is
    /// reported.
    pub open spec fn next_upload(self) -> AppView
        decreases self.queue.len(),
    {
        if self.queue.len() == 0 {
            self
        } else {
            let i = self.queue[0];
            let s = AppView { queue: self.queue.drop_first(), ..self };
            match s.unprepared(i) {
                Some(why) => s.say(why).next_upload(),
                None => {
                    let t = s.boards[i];
                    AppView {
                        asked: Some(PendingView::Upload { board: i, name: t.name, fqbn: t.fqbn }),
                        ..s
                    }.act(ActionView::BuildFolder(t.sketch->0))
                },
            }
        }
    }

    /// The state once the folder to build in is known, or is not to be had.
    pub open spec fn built(self, r: Result<Seq<char>, Seq<char>>) -> AppView {
        let s = AppView { asked: None, ..self };
        match self.asked {
            None => self,
            Some(PendingView::Compile { name, fqbn }) => match r {
                Err(e) => s.say("✗ "@ + name + ": "@ + e),
                Ok(dir) => s.run_job(
                    "compile "@ + name,
                    compile_args(fqbn, dir, s.settings.verbose),
                ),
            },
            Some(PendingView::Upload { board, name, fqbn }) => match r {
                Err(e) => s.say("✗ "@ + name + ": "@ + e).next_upload(),
                Ok(dir) => match s.port_of(board) {
                    None => s.say(
                        "✗ "@ + name + " isn't connected — plug it in or press p"@,
                    ).next_upload(),
                    Some(d) => s.run_job(
                        "upload "@ + name,
                        upload_args(fqbn, d.port, dir, s.settings.verbose),
                    ),
                },
            },
        }
    }

    pub open spec fn pane_linked(self) -> spec_fn(int) -> bool {
        |i: int| self.panes[i].link is Some
    }

    /// Uploads to the boards of a list. Every pane is closed for them, as a port
    /// that is being read stays busy, and waits to be opened again.
    pub open spec fn start_uploads(self, which: Seq<int>) -> AppView {
        let s = AppView { tab: Tab::Build, ..self };
        if self.busy() {
            s
        } else {
            let paused = AppView {
                resume: self.resume + places(self.panes.len(), self.pane_linked()),
                ..s.cleared()
            }.stop_monitors();
            AppView { queue: which, ..paused }.next_upload()
        }
    }

    pub open spec fn has_sketch(self) -> spec_fn(int) -> bool {
        |i: int| self.boards[i].sketch is Some
    }

    pub open spec fn can_flash(self) -> bool {
        exists|i: int|
            0 <= i < self.boards.len() && #[trigger] self.boards[i].sketch is Some
                && self.links()[i] is Some
    }

    pub open spec fn flash_all(self) -> AppView {
        if self.can_flash() {
            self.start_uploads(places(self.boards.len(), self.has_sketch()))
        } else {
            AppView { tab: Tab::Build, ..self }.say(
                "✗ flash all: no connected boards with a sketch"@,
            )
        }
    }

    pub open spec fn cancel(self) -> AppView {
        match self.job {
            None => self,
            Some(name) => AppView { job: None, queue: Seq::empty(), ..self }.act(
                ActionView::Abort,
            ).say("✗ "@ + name + " cancelled"@),
        }
    }

    pub open spec fn job_done(self, r: Result<bool, Seq<char>>, secs: Seq<char>) -> AppView {
        match self.job {
            None => self,
            Some(name) => {
                let s = AppView { job: None, redrawing: false, ..self }.say(outcome(name, r, secs));
                let t = if text::begins(name, "install"@) && r == Ok::<bool, Seq<char>>(true) {
                    s.say("press a to pick your board"@).act(ActionView::FetchBoards)
                } else if r == Ok::<bool, Seq<char>>(false) && mentions(
                    s.log,
                    "platform not installed"@,
                ) {
                    s.say("press I to install the missing core"@)
                } else {
                    s
                };
                t.next_upload()
            },
        }
    }
}

impl App {
    fn shorten(&self, line: &str) -> (r: String)
        ensures
            r@ == self@.shortened(line@),
    {
        let root = text::cat2(self.root.as_str(), "/");
        let scratch = text::cat2(self.scratch.as_str(), "/");
        let l = text::remove(line, root.as_str());
        text::remove(l.as_str(), scratch.as_str())
    }

    pub(crate) fn log_line(&mut self, line: &str)
        requires
            old(self)@.log_scroll < usize::MAX,
        ensures
            final(self)@ == old(self)@.logged(line@),
    {
        let l = self.shorten(line);
        if self.redrawing && !l.as_str().is_empty() {
            pop_item(&mut self.log);
        }
        self.redrawing = false;
        push_item(&mut self.log, l);
        if self.log_scroll > 0 {
            self.log_scroll = self.log_scroll + 1;
        }
    }

    pub(crate) fn progress(&mut self, line: String)
        requires
            old(self)@.log_scroll < usize::MAX,
        ensures
            final(self)@ == old(self)@.progressed(line@),
    {
        if self.redrawing {
            pop_item(&mut self.log);
        } else if self.log_scroll > 0 {
            self.log_scroll = self.log_scroll + 1;
        }
        self.redrawing = true;
        push_item(&mut self.log, line);
    }

    fn clear_log(&mut self)
        ensures
            final(self)@ == old(self)@.cleared(),
    {
        clear_items(&mut self.log);
        self.log_scroll = 0;
    }

    fn is_busy(&self) -> (r: bool)
        ensures
            r == self@.busy(),
    {
        self.job.is_some() || self.asked.is_some()
    }

    fn run_job(&mut self, name: String, args: Vec<Arg>)
        requires
            old(self)@.log_scroll < usize::MAX,
        ensures
            final(self)@ == old(self)@.run_job(name@, args.deep_view()),
    {
        self.redrawing = false;
        let shown = show_args(&args);
        let words = text::join(&shown, " ");
        let line = text::cat2("$ arduino-cli ", words.as_str());
        self.log_line(line.as_str());
        self.job = Some(Job { name });
        self.act(Action::Run(args));
    }

    /// Why board `i` cannot be built for; its name, its kind and its sketch where
    /// it can.
    fn prepared(&self, i: usize) -> (r: Result<(String, String, String), String>)
        ensures
            match r {
                Ok(x) => {
                    &&& self@.unprepared(i as int) is None
                    &&& x.0@ == self@.boards[i as int].name
                    &&& x.1@ == self@.boards[i as int].fqbn
                    &&& self@.boards[i as int].sketch == Some(x.2@)
                },
                Err(e) => self@.unprepared(i as int) == Some(e@),
            },
    {
        if i >= self.boards.len() {
            let why = self.no_boards();
            return Err(text::cat2("✗ ", why.as_str()));
        }
        let t = &self.boards[i];
        assert(t.deep_view() == self@.boards[i as int]);
        match &t.sketch {
            None => Err(text::cat3("✗ ", t.name.as_str(), " has no sketch — press s")),
            Some(rel) => Ok((t.name.clone(), t.fqbn.clone(), rel.clone())),
        }
    }

    pub fn compile(&mut self)
        ensures
            final(self)@ == old(self)@.compile(),
    {
        self.tab = Tab::Build;
        if self.is_busy() {
            return;
        }
        self.clear_log();
        match self.prepared(self.active) {
            Err(why) => self.say(why),
            Ok((name, fqbn, rel)) => {
                self.asked = Some(Pending::Compile { name, fqbn });
                self.act(Action::BuildFolder(rel));
            },
        }
    }

    pub fn install_core(&mut self, core: &str)
        ensures
            final(self)@ == old(self)@.install_core(core@),
    {
        self.tab = Tab::Build;
        if self.is_busy() {
            return;
        }
        self.clear_log();
        let args = args_to_install(core);
        self.run_job(text::cat2("install ", core), args);
    }

    /// Asks for the boards there are.
    pub fn fetch_boards(&mut self)
        ensures
            final(self)@ == old(self)@.act(ActionView::FetchBoards),
    {
        self.act(Action::FetchBoards);
    }

    pub fn next_upload(&mut self)
        ensures
            final(self)@ == old(self)@.next_upload(),
    {
        let ghost o = self@;
        loop
            invariant
                o == old(self)@,
                self@.next_upload() == o.next_upload(),
            decreases self@.queue.len(),
        {
            let ghost s = self@;
            let i: usize = match self.queue.pop_front() {
                Some(i) => i,
                None => {
                    return;
                },
            };
            assert(nums(self.queue@) =~= s.queue.drop_first());
            match self.prepared(i) {
                Err(why) => {
                    self.say(why);
                },
                Ok((name, fqbn, rel)) => {
                    self.asked = Some(Pending::Upload { board: i, name, fqbn });
                    self.act(Action::BuildFolder(rel));
                    return;
                },
            }
        }
    }

    pub(crate) fn built(&mut self, r: Result<String, String>)
        requires
            old(self)@.log_scroll < usize::MAX,
        ensures
            final(self)@ == old(self)@.built(text::told_text(r)),
    {
        match self.asked.take() {
            None => {},
            Some(Pending::Compile { name, fqbn }) => match r {
                Err(e) => self.say(text::cat4("✗ ", name.as_str(), ": ", e.as_str())),
                Ok(dir) => {
                    let args = args_to_compile(fqbn.as_str(), dir.as_str(), self.settings.verbose);
                    self.run_job(text::cat2("compile ", name.as_str()), args);
                },
            },
            Some(Pending::Upload { board, name, fqbn }) => match r {
                Err(e) => {
                    self.say(text::cat4("✗ ", name.as_str(), ": ", e.as_str()));
                    self.next_upload();
                },
                Ok(dir) => {
                    let port = match self.port_of(board) {
                        Some(d) => Some(d.port.clone()),
                        None => None,
                    };
                    match port {
                        None => {
                            self.say(
                                text::cat3(
                                    "✗ ",
                                    name.as_str(),
                                    " isn't connected — plug it in or press p",
                                ),
                            );
                            self.next_upload();
                        },
                        Some(p) => {
                            let args = args_to_upload(
                                fqbn.as_str(),
                                &p,
                                dir.as_str(),
                                self.settings.verbose,
                            );
                            self.run_job(text::cat2("upload ", name.as_str()), args);
                        },
                    }
                },
            },
        }
    }

    fn start_uploads(&mut self, which: VecDeque<usize>)
        requires
            forall|i: int| 0 <= i < old(self)@.panes.len() ==> has_room(#[trigger] old(self)@.panes[i]),
        ensures
            final(self)@ == old(self)@.start_uploads(nums(which@)),
    {
        let ghost o = self@;
        self.tab = Tab::Build;
        if self.is_busy() {
            return;
        }
        self.clear_log();
        let ghost p = o.pane_linked();
        let mut open: Vec<usize> = Vec::new();
        assert(nums(open@) =~= Seq::<int>::empty());
        for i in 0..self.panes.len()
            invariant
                p == o.pane_linked(),
                self@.panes == o.panes,
                nums(open@) == places(i as nat, p),
        {
            assert(self@.panes[i as int] == self.panes@[i as int].deep_view());
            if self.panes[i].link.is_some() {
                push_num(&mut open, i);
            }
        }
        let ghost was = self.resume@;
        let ghost more = open@;
        self.resume.append(&mut open);
        assert(nums(self.resume@) =~= nums(was) + nums(more));
        self.stop_monitors();
        self.queue = which;
        self.next_upload();
    }

    pub fn upload(&mut self)
        requires
            forall|i: int| 0 <= i < old(self)@.panes.len() ==> has_room(#[trigger] old(self)@.panes[i]),
        ensures
            final(self)@ == old(self)@.start_uploads(seq![old(self)@.active]),
    {
        let mut which: VecDeque<usize> = VecDeque::new();
        which.push_back(self.active);
        assert(nums(which@) =~= seq![self@.active]);
        self.start_uploads(which);
    }

    /// Uploads to every board that has a sketch, where one of them is there.
    pub fn flash_all(&mut self)
        requires
            forall|i: int| 0 <= i < old(self)@.panes.len() ==> has_room(#[trigger] old(self)@.panes[i]),
        ensures
            final(self)@ == old(self)@.flash_all(),
    {
        let links = self.links();
        let ghost o = self@;
        let ghost p = o.has_sketch();
        let mut which: VecDeque<usize> = VecDeque::new();
        let mut any = false;
        assert(nums(which@) =~= Seq::<int>::empty());
        for i in 0..self.boards.len()
            invariant
                o == self@,
                p == o.has_sketch(),
                spots(links@) == o.links(),
                links.len() == self.boards.len(),
                nums(which@) == places(i as nat, p),
                any == exists|k: int|
                    0 <= k < i && #[trigger] o.boards[k].sketch is Some && o.links()[k] is Some,
        {
            assert(o.boards[i as int] == self.boards@[i as int].deep_view());
            assert(spots(links@)[i as int] == crate::project::spot(links@[i as int]));
            if self.boards[i].sketch.is_some() {
                let ghost w = which@;
                which.push_back(i);
                assert(nums(which@) =~= nums(w).push(i as int));
                if links[i].is_some() {
                    assert(o.boards[i as int].sketch is Some);
                    any = true;
                }
            }
        }
        if any {
            self.start_uploads(which);
        } else {
            self.tab = Tab::Build;
            self.say("✗ flash all: no connected boards with a sketch".to_owned());
        }
    }

    pub fn cancel(&mut self)
        ensures
            final(self)@ == old(self)@.cancel(),
    {
        if let Some(job) = self.job.take() {
            self.act(Action::Abort);
            self.say(text::cat3("✗ ", job.name.as_str(), " cancelled"));
            self.queue.clear();
            assert(nums(self.queue@) =~= Seq::<int>::empty());
        }
    }

    fn log_mentions(&self, what: &str) -> (r: bool)
        ensures
            r == mentions(self@.log, what@),
    {
        let ghost log = self@.log;
        for i in 0..self.log.len()
            invariant
                log == self.log.deep_view(),
                forall|k: int| 0 <= k < i ==> !text::holds(#[trigger] log[k], what@),
        {
            assert(log[i as int] == self.log@[i as int]@);
            if text::contains(self.log[i].as_str(), what) {
                assert(text::holds(log[i as int], what@));
                return true;
            }
        }
        false
    }

    pub(crate) fn job_done(&mut self, r: Result<bool, String>, secs: &str)
        ensures
            final(self)@ == old(self)@.job_done(text::told(r), secs@),
    {
        let job = match self.job.take() {
            Some(j) => j,
            None => {
                return;
            },
        };
        self.redrawing = false;
        let name = job.name.as_str();
        let (line, ok) = match r {
            Ok(true) => (text::cat5("✓ ", name, " done in ", secs, "s"), Some(true)),
            Ok(false) => (text::cat5("✗ ", name, " failed (", secs, "s)"), Some(false)),
            Err(e) => (text::cat4("✗ ", name, ": ", e.as_str()), None),
        };
        self.say(line);
        let installed = text::starts_with(name, "install");
        match ok {
            Some(true) => {
                if installed {
                    self.say("press a to pick your board".to_owned());
                    self.fetch_boards();
                }
            },
            Some(false) => {
                if self.log_mentions("platform not installed") {
                    self.say("press I to install the missing core".to_owned());
                }
            },
            None => {},
        }
        self.next_upload();
    }
}

} // verus!
