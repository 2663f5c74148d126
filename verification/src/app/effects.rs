//! What the operations do, told by what they are given and what comes of it.
use vstd::prelude::*;

use super::pane::{law_a_note_has_its_own_line, one_line, LinkView, PaneView};
use super::state::{
    ActionView, AppView, ArgView, PendingView, Pick, PickerView, Tab,
};
use super::BAUDS;
use crate::cli::PortView;
use crate::lists::{lemma_places, lemma_seek, place, places, seek};
use crate::project::{resolved, TargetView};
use crate::text;

verus! {

// -- compiling --

/// Board `i` has a sketch to build.
pub open spec fn buildable(s: AppView, i: int) -> bool {
    0 <= i < s.boards.len() && s.boards[i].sketch is Some
}

/// With no run going on, compiling asks for the folder of the active board's
/// sketch, and for nothing else; what waits for it carries that board's name and
/// kind, and the log is cleared for it.
pub proof fn law_compile_builds_the_active_board(s: AppView)
    requires
        s.job is None,
        s.asked is None,
        buildable(s, s.active),
    ensures
        s.compile() == (AppView {
            tab: Tab::Build,
            log: Seq::empty(),
            log_scroll: 0,
            asked: Some(
                PendingView::Compile {
                    name: s.boards[s.active].name,
                    fqbn: s.boards[s.active].fqbn,
                },
            ),
            actions: s.actions.push(ActionView::BuildFolder(s.boards[s.active].sketch->0)),
            ..s
        }),
{
}

/// A board without a sketch is not built: the log says so, by its name, and
/// nothing is asked for.
pub proof fn law_compile_needs_a_sketch(s: AppView)
    requires
        s.job is None,
        s.asked is None,
        0 <= s.active < s.boards.len(),
        s.boards[s.active].sketch is None,
    ensures
        s.compile() == (AppView {
            tab: Tab::Build,
            log: seq!["✗ "@ + s.boards[s.active].name + " has no sketch — press s"@],
            log_scroll: 0,
            ..s
        }),
{
    assert(s.compile().log =~= seq![
        "✗ "@ + s.boards[s.active].name + " has no sketch — press s"@,
    ]);
}

/// Without a board to build for, nothing is asked for or started.
pub proof fn law_compile_needs_a_board(s: AppView)
    requires
        !(0 <= s.active < s.boards.len()),
    ensures
        s.compile().actions == s.actions,
        s.compile().asked == s.asked,
        s.compile().job == s.job,
        s.job is None && s.asked is None ==> s.compile().log == seq!["✗ "@ + s.no_boards()],
{
    if s.job is None && s.asked is None {
        assert(s.compile().log =~= seq!["✗ "@ + s.no_boards()]);
    }
}

/// The arguments of a run that compiles.
pub open spec fn compiles(args: Seq<ArgView>, fqbn: Seq<char>, dir: Seq<char>, verbose: bool) -> bool {
    &&& args.len() == if verbose {
        5int
    } else {
        4
    }
    &&& args[0] == ArgView::Word("compile"@)
    &&& args[1] == ArgView::Word("-b"@)
    &&& args[2] == ArgView::Word(fqbn)
    &&& args[3] == ArgView::Folder(dir)
    &&& verbose ==> args[4] == ArgView::Word("-v"@)
}

/// Once the folder is there, the run that was asked for starts: it compiles what is
/// in the folder, for the kind that was asked for, under the board's name.
pub proof fn law_a_compile_runs_in_its_folder(s: AppView, dir: Seq<char>)
    requires
        s.asked is Some,
        s.asked->0 is Compile,
    ensures
        ({
            let t = s.built(Ok(dir));
            &&& t.asked is None
            &&& t.job == Some("compile "@ + s.asked->0->Compile_name)
            &&& t.actions.len() == s.actions.len() + 1
            &&& t.actions.drop_last() == s.actions
            &&& t.actions.last() matches ActionView::Run(args) && compiles(
                args,
                s.asked->0->Compile_fqbn,
                dir,
                s.settings.verbose,
            )
            &&& t.boards == s.boards
            &&& t.panes == s.panes
            &&& t.queue == s.queue
        }),
{
    let t = s.built(Ok(dir));
    assert(t.actions.drop_last() =~= s.actions);
}

/// Without a folder the run does not start, and the log says why.
pub proof fn law_no_folder_no_compile(s: AppView, e: Seq<char>)
    requires
        s.asked is Some,
        s.asked->0 is Compile,
    ensures
        s.built(Err(e)) == (AppView {
            asked: None,
            log: s.log.push("✗ "@ + s.asked->0->Compile_name + ": "@ + e),
            ..s
        }),
{
}

// -- uploading --

/// When a board is taken off the queue, what waits for its folder is that board:
/// its place, its own name and its own kind, and the folder is that of its own
/// sketch. Boards that have no sketch are passed over, those behind it wait on.
pub proof fn law_each_board_is_built_for_its_own_kind(s: AppView, k: int)
    requires
        0 <= k < s.queue.len(),
        forall|l: int| 0 <= l < k ==> !buildable(s, #[trigger] s.queue[l]),
        buildable(s, s.queue[k]),
    ensures
        ({
            let t = s.next_upload();
            let b = s.boards[s.queue[k]];
            &&& t.asked == Some(
                PendingView::Upload { board: s.queue[k], name: b.name, fqbn: b.fqbn },
            )
            &&& t.actions == s.actions.push(ActionView::BuildFolder(b.sketch->0))
            &&& t.queue == s.queue.skip(k + 1)
            &&& t.job == s.job
            &&& t.log.len() == s.log.len() + k
            &&& t.log.take(s.log.len() as int) == s.log
            &&& t == (AppView {
                asked: t.asked,
                actions: t.actions,
                queue: t.queue,
                log: t.log,
                ..s
            })
        }),
    decreases k,
{
    let t = AppView { queue: s.queue.drop_first(), ..s };
    if k == 0 {
        assert(s.queue.drop_first() =~= s.queue.skip(1));
        assert(s.log.take(s.log.len() as int) =~= s.log);
    } else {
        assert(!buildable(s, s.queue[0]));
        let u = t.say(t.unprepared(s.queue[0])->0);
        assert forall|l: int| 0 <= l < k - 1 implies !buildable(u, #[trigger] u.queue[l]) by {
            assert(u.queue[l] == s.queue[l + 1]);
            assert(!buildable(s, s.queue[l + 1]));
        }
        assert(u.queue[k - 1] == s.queue[k]);
        law_each_board_is_built_for_its_own_kind(u, k - 1);
        assert(u.queue.skip(k) =~= s.queue.skip(k + 1));
        let w = u.next_upload();
        assert(w.log.take(s.log.len() as int) =~= w.log.take(u.log.len() as int).take(
            s.log.len() as int,
        ));
        assert(u.log.take(s.log.len() as int) =~= s.log);
    }
}

/// A board that is passed over is named in the log.
pub proof fn law_boards_passed_over_are_named(s: AppView)
    requires
        s.queue.len() == 1,
        0 <= s.queue[0] < s.boards.len(),
        s.boards[s.queue[0]].sketch is None,
    ensures
        s.next_upload() == (AppView {
            queue: Seq::empty(),
            log: s.log.push("✗ "@ + s.boards[s.queue[0]].name + " has no sketch — press s"@),
            ..s
        }),
{
    reveal_with_fuel(AppView::next_upload, 2);
    assert(s.queue.drop_first() =~= Seq::<int>::empty());
}

/// The arguments of a run that uploads.
pub open spec fn uploads(
    args: Seq<ArgView>,
    fqbn: Seq<char>,
    port: PortView,
    dir: Seq<char>,
    verbose: bool,
) -> bool {
    let n = args.len() as int;
    let told = if port.protocol.len() > 0 {
        2int
    } else {
        0
    };
    let loud = if verbose {
        1int
    } else {
        0
    };
    &&& n == 7 + told + loud
    &&& args[0] == ArgView::Word("compile"@)
    &&& args[1] == ArgView::Word("-u"@)
    &&& args[2] == ArgView::Word("-b"@)
    &&& args[3] == ArgView::Word(fqbn)
    &&& args[4] == ArgView::Word("-p"@)
    &&& args[5] == ArgView::Word(port.address)
    &&& told > 0 ==> args[6] == ArgView::Word("-l"@) && args[7] == ArgView::Word(port.protocol)
    &&& verbose ==> args[n - 2] == ArgView::Word("-v"@)
    &&& args[n - 1] == ArgView::Folder(dir)
}

/// Once the folder is there, the upload starts: what is in the folder goes to the
/// port that the board is at, for the kind that was asked for.
pub proof fn law_an_upload_goes_to_its_own_port(s: AppView, dir: Seq<char>, j: int)
    requires
        s.asked is Some,
        s.asked->0 is Upload,
        0 <= s.asked->0->board < s.boards.len(),
        resolved(s.boards, s.ports)[s.asked->0->board] == Some(j),
    ensures
        ({
            let t = s.built(Ok(dir));
            &&& t.asked is None
            &&& t.job == Some("upload "@ + s.asked->0->Upload_name)
            &&& t.actions.len() == s.actions.len() + 1
            &&& t.actions.drop_last() == s.actions
            &&& t.actions.last() matches ActionView::Run(args) && uploads(
                args,
                s.asked->0->Upload_fqbn,
                s.ports[j].port,
                dir,
                s.settings.verbose,
            )
            &&& t.boards == s.boards
            &&& t.queue == s.queue
            &&& t.resume == s.resume
        }),
{
    let t = s.built(Ok(dir));
    assert(t.actions.drop_last() =~= s.actions);
}

/// A board that is not there is not uploaded to: the log says so, by its name, and
/// the next one is taken. The same goes for one whose folder is not to be had.
pub proof fn law_uploads_go_on_after_a_failure(s: AppView, dir: Seq<char>, e: Seq<char>)
    requires
        s.asked is Some,
        s.asked->0 is Upload,
        0 <= s.asked->0->board < s.boards.len(),
    ensures
        s.built(Err(e)) == (AppView {
            asked: None,
            log: s.log.push("✗ "@ + s.asked->0->Upload_name + ": "@ + e),
            ..s
        }).next_upload(),
        resolved(s.boards, s.ports)[s.asked->0->board] is None ==> s.built(Ok(dir)) == (AppView {
            asked: None,
            log: s.log.push(
                "✗ "@ + s.asked->0->Upload_name + " isn't connected — plug it in or press p"@,
            ),
            ..s
        }).next_upload(),
{
}

/// Flashing all uploads to every board that has a sketch, each once and in order,
/// where one of them is at a port; otherwise the log says that there is none.
pub proof fn law_flash_all_means_every_board(s: AppView, which: Seq<int>)
    requires
        forall|k: int| 0 <= k < which.len() ==> buildable(s, #[trigger] which[k]),
        forall|i: int| buildable(s, i) ==> which.contains(i),
        forall|a: int, b: int| 0 <= a < b < which.len() ==> #[trigger] which[a] < #[trigger] which[b],
    ensures
        (exists|i: int|
            buildable(s, i) && #[trigger] resolved(s.boards, s.ports)[i] is Some) ==> s.flash_all()
            == s.start_uploads(which),
        (forall|i: int|
            buildable(s, i) ==> #[trigger] resolved(s.boards, s.ports)[i] is None) ==> s.flash_all()
            == (AppView {
            tab: Tab::Build,
            log: s.log.push("✗ flash all: no connected boards with a sketch"@),
            ..s
        }),
{
    let p = s.has_sketch();
    let mine = places(s.boards.len(), p);
    lemma_places(s.boards.len(), p);
    assert forall|i: int| mine.contains(i) == which.contains(i) by {
        if mine.contains(i) {
            let k = choose|k: int| 0 <= k < mine.len() && mine[k] == i;
            assert(p(mine[k]));
            assert(buildable(s, i));
        }
        if which.contains(i) {
            let k = choose|k: int| 0 <= k < which.len() && which[k] == i;
            assert(buildable(s, which[k]));
            assert(p(i));
        }
    }
    lemma_same_ascending(mine, which);
    if exists|i: int| buildable(s, i) && #[trigger] resolved(s.boards, s.ports)[i] is Some {
        let i = choose|i: int|
            buildable(s, i) && #[trigger] resolved(s.boards, s.ports)[i] is Some;
        assert(s.boards[i].sketch is Some && s.links()[i] is Some);
        assert(s.can_flash());
    }
    if forall|i: int| buildable(s, i) ==> #[trigger] resolved(s.boards, s.ports)[i] is None {
        assert(!s.can_flash()) by {
            if s.can_flash() {
                let i = choose|i: int|
                    0 <= i < s.boards.len() && #[trigger] s.boards[i].sketch is Some
                        && s.links()[i] is Some;
                assert(buildable(s, i));
                assert(resolved(s.boards, s.ports)[i] is None);
            }
        }
    }
}

pub proof fn lemma_same_ascending(a: Seq<int>, b: Seq<int>)
    requires
        forall|i: int| a.contains(i) == b.contains(i),
        forall|x: int, y: int| 0 <= x < y < a.len() ==> #[trigger] a[x] < #[trigger] a[y],
        forall|x: int, y: int| 0 <= x < y < b.len() ==> #[trigger] b[x] < #[trigger] b[y],
    ensures
        a == b,
    decreases a.len() + b.len(),
{
    if a.len() == 0 || b.len() == 0 {
        if a.len() > 0 {
            assert(a.contains(a[0]));
        }
        if b.len() > 0 {
            assert(b.contains(b[0]));
        }
        assert(a =~= b);
    } else {
        let (x, y) = (a.last(), b.last());
        assert(a.contains(x) && b.contains(y));
        let k = choose|k: int| 0 <= k < b.len() && b[k] == x;
        let l = choose|l: int| 0 <= l < a.len() && a[l] == y;
        assert(x <= y) by {
            if k < b.len() - 1 {
                assert(b[k] < b[b.len() - 1]);
            }
        }
        assert(y <= x) by {
            if l < a.len() - 1 {
                assert(a[l] < a[a.len() - 1]);
            }
        }
        let (c, d) = (a.drop_last(), b.drop_last());
        assert forall|i: int| c.contains(i) == d.contains(i) by {
            if c.contains(i) {
                let m = choose|m: int| 0 <= m < c.len() && c[m] == i;
                assert(a[m] < a[a.len() - 1]);
                assert(a.contains(a[m]));
                let n = choose|n: int| 0 <= n < b.len() && b[n] == i;
                assert(d[n] == i);
            }
            if d.contains(i) {
                let m = choose|m: int| 0 <= m < d.len() && d[m] == i;
                assert(b[m] < b[b.len() - 1]);
                assert(b.contains(b[m]));
                let n = choose|n: int| 0 <= n < a.len() && a[n] == i;
                assert(c[n] == i);
            }
        }
        assert forall|x: int, y: int| 0 <= x < y < c.len() implies #[trigger] c[x] < #[trigger] c[y] by {
            assert(a[x] < a[y]);
        }
        assert forall|x: int, y: int| 0 <= x < y < d.len() implies #[trigger] d[x] < #[trigger] d[y] by {
            assert(b[x] < b[y]);
        }
        lemma_same_ascending(c, d);
        assert(a =~= c.push(x));
        assert(b =~= d.push(y));
    }
}

/// Where no monitor is open, an upload clears the log and takes the boards it is
/// given, and no others.
pub proof fn law_uploads_start_with_the_given_boards(s: AppView, which: Seq<int>)
    requires
        s.job is None,
        s.asked is None,
        forall|i: int| 0 <= i < s.panes.len() ==> (#[trigger] s.panes[i]).link is None,
    ensures
        s.start_uploads(which) == (AppView {
            tab: Tab::Build,
            log: Seq::empty(),
            log_scroll: 0,
            queue: which,
            ..s
        }).next_upload(),
{
    let n = s.panes.len();
    lemma_places(n, s.pane_linked());
    let open = places(n, s.pane_linked());
    if open.len() > 0 {
        assert(s.pane_linked()(open[0]));
        assert(s.panes[open[0]].link is None);
    }
    assert(s.resume + open =~= s.resume);
    let before = AppView { tab: Tab::Build, ..s }.cleared();
    lemma_nothing_to_stop(before, n);
}

proof fn lemma_nothing_to_stop(s: AppView, n: nat)
    requires
        n <= s.panes.len(),
        forall|i: int| 0 <= i < s.panes.len() ==> (#[trigger] s.panes[i]).link is None,
    ensures
        s.stop_first(n) == s,
    decreases n,
{
    if n > 0 {
        lemma_nothing_to_stop(s, (n - 1) as nat);
        assert(s.panes[n - 1].link is None);
    }
}

// -- installing --

/// Installing runs one command for the core that is asked for.
pub proof fn law_install_runs_for_its_core(s: AppView, core: Seq<char>)
    requires
        s.job is None,
        s.asked is None,
    ensures
        ({
            let t = s.install_core(core);
            &&& t.tab == Tab::Build
            &&& t.job == Some("install "@ + core)
            &&& t.asked is None
            &&& t.actions == s.actions.push(
                ActionView::Run(
                    seq![
                        ArgView::Word("core"@),
                        ArgView::Word("install"@),
                        ArgView::Word(core),
                    ],
                ),
            )
            &&& t.boards == s.boards
            &&& t.log.len() == 1
        }),
{
}

/// The core of a kind is what stands before its second colon.
pub proof fn law_a_core_is_vendor_and_architecture(
    vendor: Seq<char>,
    arch: Seq<char>,
    rest: Seq<char>,
)
    requires
        !vendor.contains(':'),
        !arch.contains(':'),
    ensures
        super::jobs::core_of(vendor + seq![':'] + arch + seq![':'] + rest) == vendor + seq![':']
            + arch,
        super::jobs::core_of(vendor + seq![':'] + arch) == vendor + seq![':'] + arch,
        super::jobs::core_of(vendor) == vendor,
{
    let n = vendor.len() as int;
    let m = n + 1 + arch.len();
    let long = vendor + seq![':'] + arch + seq![':'] + rest;
    let short = vendor + seq![':'] + arch;
    assert forall|i: int| 0 <= i < n implies long[i] != ':' && short[i] != ':' && vendor[i] != ':' by {
        assert(long[i] == vendor[i] && short[i] == vendor[i]);
        assert(vendor.contains(vendor[i]));
    }
    assert forall|i: int| n + 1 <= i < m implies long[i] != ':' && short[i] != ':' by {
        assert(long[i] == arch[i - n - 1] && short[i] == arch[i - n - 1]);
        assert(arch.contains(arch[i - n - 1]));
    }
    assert(long[n] == ':' && short[n] == ':' && long[m] == ':');
    text::lemma_first_is(long, ':', 0, n);
    text::lemma_first_is(long, ':', n + 1, m);
    text::lemma_first_is(short, ':', 0, n);
    text::lemma_first_is(short, ':', n + 1, m);
    text::lemma_first_is(vendor, ':', 0, n);
    assert(long.take(m) =~= short);
    assert(short.take(m) =~= short);
}

// -- how runs end --

/// A run that ends is told by its name, how it went and how long it took; a failed
/// one says why. With nothing queued, no other run starts.
pub proof fn law_a_run_is_told_of(s: AppView, name: Seq<char>, secs: Seq<char>, e: Seq<char>)
    requires
        s.job == Some(name),
        s.queue.len() == 0,
    ensures
        s.job_done(Err(e), secs) == (AppView {
            job: None,
            redrawing: false,
            log: s.log.push("✗ "@ + name + ": "@ + e),
            ..s
        }),
        !text::begins(name, "install"@) ==> s.job_done(Ok(true), secs) == (AppView {
            job: None,
            redrawing: false,
            log: s.log.push("✓ "@ + name + " done in "@ + secs + "s"@),
            ..s
        }),
        text::begins(name, "install"@) ==> s.job_done(Ok(true), secs) == (AppView {
            job: None,
            redrawing: false,
            log: s.log.push("✓ "@ + name + " done in "@ + secs + "s"@).push(
                "press a to pick your board"@,
            ),
            actions: s.actions.push(ActionView::FetchBoards),
            ..s
        }),
{
}

/// A failed run is told of; where a line of the log says that the platform is
/// missing, the log says how to install it.
pub proof fn law_a_missing_platform_is_noticed(s: AppView, name: Seq<char>, secs: Seq<char>)
    requires
        s.job == Some(name),
        s.queue.len() == 0,
    ensures
        ({
            let said = s.log.push("✗ "@ + name + " failed ("@ + secs + "s)"@);
            let missing = exists|i: int|
                0 <= i < said.len() && text::holds(#[trigger] said[i], "platform not installed"@);
            s.job_done(Ok(false), secs) == (AppView {
                job: None,
                redrawing: false,
                log: if missing {
                    said.push("press I to install the missing core"@)
                } else {
                    said
                },
                ..s
            })
        }),
{
}

/// A cancelled run is told of by its name.
pub proof fn law_a_cancelled_run_is_told_of(s: AppView, name: Seq<char>)
    requires
        s.job == Some(name),
    ensures
        s.cancel() == (AppView {
            job: None,
            queue: Seq::empty(),
            actions: s.actions.push(ActionView::Abort),
            log: s.log.push("✗ "@ + name + " cancelled"@),
            ..s
        }),
{
}

/// Every run is done where the one before it has ended: what is queued goes on.
pub proof fn law_the_queue_goes_on(s: AppView, r: Result<bool, Seq<char>>, secs: Seq<char>)
    requires
        s.job is Some,
    ensures
        exists|t: AppView|
            s.job_done(r, secs) == #[trigger] t.next_upload() && t.queue == s.queue && t.job is None
                && t.boards == s.boards && t.asked == s.asked && t.ports == s.ports,
{
    let name = s.job->0;
    let d = AppView { job: None, redrawing: false, ..s }.say(super::jobs::outcome(name, r, secs));
    let t = if text::begins(name, "install"@) && r == Ok::<bool, Seq<char>>(true) {
        d.say("press a to pick your board"@).act(ActionView::FetchBoards)
    } else if r == Ok::<bool, Seq<char>>(false) && super::jobs::mentions(
        d.log,
        "platform not installed"@,
    ) {
        d.say("press I to install the missing core"@)
    } else {
        d
    };
    assert(s.job_done(r, secs) == t.next_upload());
}

// -- the log --

/// A line that names no folder of the project comes out as it is, behind all lines
/// before it; a log that is scrolled stays where it is.
pub proof fn law_lines_are_logged_as_they_are(s: AppView, line: Seq<char>)
    requires
        !s.redrawing,
        !text::holds(line, s.root + "/"@),
        !text::holds(line, s.scratch + "/"@),
    ensures
        s.logged(line) == (AppView {
            log: s.log.push(line),
            log_scroll: if s.log_scroll > 0 {
                s.log_scroll + 1
            } else {
                s.log_scroll
            },
            ..s
        }),
{
    reveal_strlit("/");
    text::law_removed(line, s.root + "/"@);
    text::law_removed(line, s.scratch + "/"@);
}

/// A path in the project is shown from the project's folder on.
pub proof fn law_paths_are_logged_short(s: AppView, rest: Seq<char>)
    requires
        !s.redrawing,
        !text::holds(rest, s.root + "/"@),
        !text::holds(rest, s.scratch + "/"@),
    ensures
        s.logged(s.root + "/"@ + rest).log == s.log.push(rest),
{
    reveal_strlit("/");
    text::law_removed(rest, s.root + "/"@);
    text::law_removed(rest, s.scratch + "/"@);
}

/// So is a path in the folder that loose sketches are built in.
pub proof fn law_scratch_paths_are_logged_short(s: AppView, rest: Seq<char>)
    requires
        !s.redrawing,
        !text::holds(s.scratch + "/"@ + rest, s.root + "/"@),
        !text::holds(rest, s.scratch + "/"@),
    ensures
        s.logged(s.scratch + "/"@ + rest).log == s.log.push(rest),
{
    reveal_strlit("/");
    text::law_removed(s.scratch + "/"@ + rest, s.root + "/"@);
    text::law_removed(rest, s.scratch + "/"@);
}

/// A line takes the place of the progress before it, unless it is empty.
pub proof fn law_a_line_ends_the_progress(s: AppView, line: Seq<char>)
    requires
        s.redrawing,
        s.log.len() > 0,
        !text::holds(line, s.root + "/"@),
        !text::holds(line, s.scratch + "/"@),
    ensures
        line.len() > 0 ==> s.logged(line).log == s.log.update(s.log.len() - 1, line),
        line.len() == 0 ==> s.logged(line).log == s.log.push(line),
        !s.logged(line).redrawing,
{
    reveal_strlit("/");
    text::law_removed(line, s.root + "/"@);
    text::law_removed(line, s.scratch + "/"@);
    assert(s.log.drop_last().push(line) =~= s.log.update(s.log.len() - 1, line));
}

/// Progress is shown as it is: behind all lines before it, or in place of the
/// progress before it.
pub proof fn law_progress_is_shown(s: AppView, line: Seq<char>)
    requires
        s.redrawing ==> s.log.len() > 0,
    ensures
        s.progressed(line).log == if s.redrawing {
            s.log.update(s.log.len() - 1, line)
        } else {
            s.log.push(line)
        },
        s.progressed(line).redrawing,
        s.progressed(line) == (AppView {
            log: s.progressed(line).log,
            redrawing: true,
            log_scroll: if !s.redrawing && s.log_scroll > 0 {
                s.log_scroll + 1
            } else {
                s.log_scroll
            },
            ..s
        }),
{
    if s.redrawing {
        assert(s.log.drop_last().push(line) =~= s.log.update(s.log.len() - 1, line));
    }
}

// -- monitors --

/// A monitor is opened at the port that its board is at, at the rate of its own
/// pane, under a number that was not given out before.
pub proof fn law_a_monitor_opens_at_its_own_port(s: AppView, i: int, j: int)
    requires
        0 <= i < s.boards.len(),
        s.boards.len() == s.panes.len(),
        s.panes[i].link is None,
        s.panes[i].lines.len() <= super::SERIAL_CAP,
        resolved(s.boards, s.ports)[i] == Some(j),
    ensures
        ({
            let t = s.start_monitor(i);
            let port = s.ports[j].port;
            let id = s.mon_gen + 1;
            &&& t.actions == s.actions.push(
                ActionView::OpenMonitor { id, port, baud: s.panes[i].baud },
            )
            &&& t.mon_gen == id
            &&& t.panes.len() == s.panes.len()
            &&& t.panes[i].link == Some(LinkView { port: port.address, id })
            &&& t.panes[i].baud == s.panes[i].baud
            &&& forall|k: int|
                0 <= k < s.panes.len() && k != i ==> #[trigger] t.panes[k] == s.panes[k]
            &&& t == (AppView { actions: t.actions, mon_gen: id, panes: t.panes, ..s })
            &&& one_line(port.address) ==> said_last(
                t.panes[i].lines,
                "── "@ + port.address + " @ "@ + text::decimal(s.panes[i].baud as nat) + " ──"@,
            )
        }),
{
    let p = s.panes[i];
    let a = s.ports[j].port.address;
    let note = "── "@ + a + " @ "@ + text::decimal(p.baud as nat) + " ──"@;
    super::monitor::lemma_start_monitor(s, i);
    if one_line(a) {
        reveal_strlit("── ");
        reveal_strlit(" @ ");
        reveal_strlit(" ──");
        text::lemma_decimal(p.baud as nat);
        lemma_one_line_add("── "@, a);
        lemma_one_line_add("── "@ + a, " @ "@);
        lemma_digits(text::decimal(p.baud as nat));
        lemma_one_line_add("── "@ + a + " @ "@, text::decimal(p.baud as nat));
        lemma_one_line_add("── "@ + a + " @ "@ + text::decimal(p.baud as nat), " ──"@);
        lemma_said(p, note);
    }
}

/// The last thing written is this, and the next line is started.
pub open spec fn said_last(lines: Seq<Seq<char>>, note: Seq<char>) -> bool {
    lines.len() >= 2 && lines[lines.len() - 2] == note && lines.last().len() == 0
}

proof fn lemma_said(p: PaneView, note: Seq<char>)
    requires
        one_line(note),
        p.lines.len() <= super::SERIAL_CAP,
    ensures
        said_last(p.note(note).lines, note),
        p.note(note).link == p.link,
        p.note(note).baud == p.baud,
{
    law_a_note_has_its_own_line(p, note);
}

proof fn lemma_one_line_add(a: Seq<char>, b: Seq<char>)
    requires
        one_line(a),
        one_line(b),
    ensures
        one_line(a + b),
{
    assert forall|i: int| 0 <= i < (a + b).len() implies #[trigger] (a + b)[i] != '\n'
        && !text::control((a + b)[i]) by {
        if i < a.len() {
            assert((a + b)[i] == a[i]);
        } else {
            assert((a + b)[i] == b[i - a.len()]);
        }
    }
}

proof fn lemma_digits(d: Seq<char>)
    requires
        forall|i: int| 0 <= i < d.len() ==> text::is_digit(#[trigger] d[i]),
    ensures
        one_line(d),
{
}

/// A board that is not there gets no monitor: its pane says so.
pub proof fn law_no_port_no_monitor(s: AppView, i: int)
    requires
        0 <= i < s.boards.len(),
        s.boards.len() == s.panes.len(),
        s.panes[i].link is None,
        s.panes[i].lines.len() <= super::SERIAL_CAP,
        resolved(s.boards, s.ports)[i] is None,
    ensures
        ({
            let t = s.start_monitor(i);
            &&& t == (AppView { panes: s.panes.update(i, t.panes[i]), ..s })
            &&& t.panes[i].link is None
            &&& said_last(t.panes[i].lines, "── not connected ──"@)
        }),
{
    reveal_strlit("── not connected ──");
    lemma_said(s.panes[i], "── not connected ──"@);
}

/// Closing a monitor closes its own connection, says so on its pane, and ends the
/// line that is typed to it.
pub proof fn law_closing_closes_its_own_connection(s: AppView, i: int)
    requires
        0 <= i < s.panes.len(),
        s.panes[i].link is Some,
        s.panes[i].lines.len() <= super::SERIAL_CAP,
    ensures
        ({
            let t = s.stop_monitor(i);
            &&& t.actions == s.actions.push(ActionView::CloseMonitor(s.panes[i].link->0.id))
            &&& t.panes == s.panes.update(i, t.panes[i])
            &&& t.panes[i].link is None
            &&& t.panes[i].baud == s.panes[i].baud
            &&& said_last(t.panes[i].lines, "── closed ──"@)
            &&& t.input == if i == s.active {
                None
            } else {
                s.input
            }
            &&& t == (AppView { actions: t.actions, panes: t.panes, input: t.input, ..s })
        }),
{
    reveal_strlit("── closed ──");
    lemma_said(PaneView { link: None, ..s.panes[i] }, "── closed ──"@);
    assert(s.stop_monitor(i).panes =~= s.panes.update(i, s.stop_monitor(i).panes[i]));
}

/// A connection that ends is closed on its own pane, which says how it ended.
pub proof fn law_an_ended_connection_is_told_of(s: AppView, i: int, e: Seq<char>)
    requires
        s.sound(),
        s.linked(i),
        one_line(e),
    ensures
        ({
            let id = s.panes[i].link->0.id;
            let (t, u) = (s.serial_done(id, Ok(())), s.serial_done(id, Err(e)));
            &&& t.panes == s.panes.update(i, t.panes[i]) && u.panes == s.panes.update(
                i,
                u.panes[i],
            )
            &&& t.panes[i].link is None && u.panes[i].link is None
            &&& said_last(t.panes[i].lines, "── disconnected ──"@)
            &&& said_last(u.panes[i].lines, "── disconnected: "@ + e + " ──"@)
            &&& t.input == u.input && t.input == if i == s.active {
                None
            } else {
                s.input
            }
            &&& t == (AppView { panes: t.panes, input: t.input, ..s })
            &&& u == (AppView { panes: u.panes, input: u.input, ..s })
        }),
{
    let id = s.panes[i].link->0.id;
    super::laws::law_text_reaches_its_pane(s, i, Seq::empty());
    lemma_seek(0, s.panes.len() as int, s.has_id(id));
    assert(s.has_id(id)(i));
    let j = seek(0, s.panes.len() as int, s.has_id(id));
    assert(s.has_id(id)(j));
    assert(s.panes[j].link is Some && s.panes[i].link is Some);
    assert(j == i);
    reveal_strlit("── disconnected ──");
    reveal_strlit("── disconnected: ");
    reveal_strlit(" ──");
    let p = PaneView { link: None, ..s.panes[i] };
    assert(super::laws::kept(s.panes[i]));
    lemma_said(p, "── disconnected ──"@);
    lemma_one_line_add("── disconnected: "@, e);
    lemma_one_line_add("── disconnected: "@ + e, " ──"@);
    lemma_said(p, "── disconnected: "@ + e + " ──"@);
    let (t, u) = (s.serial_done(id, Ok(())), s.serial_done(id, Err(e)));
    assert(t.panes =~= s.panes.update(i, t.panes[i]));
    assert(u.panes =~= s.panes.update(i, u.panes[i]));
}

/// A rate steps along the list of rates and stops at its ends; one that is not
/// listed steps from the fifth.
pub proof fn law_rates_step_along_the_list(s: AppView, by: int, k: int)
    requires
        0 <= s.active < s.panes.len(),
        0 <= k < 15,
        BAUDS@[k] == s.panes[s.active].baud || k == 4 && !BAUDS@.contains(
            s.panes[s.active].baud,
        ),
        s.panes[s.active].link is None,
    ensures
        ({
            let to = if k + by < 0 {
                0
            } else if k + by > 14 {
                14
            } else {
                k + by
            };
            let t = s.step_baud(by);
            &&& t.panes == s.panes.update(
                s.active,
                PaneView { baud: BAUDS@[to], ..s.panes[s.active] },
            )
            &&& t == (AppView { panes: t.panes, ..s }).save(Some(s.active), true)
        }),
{
    let baud = s.panes[s.active].baud;
    let p = crate::settings::equals(BAUDS@, baud);
    crate::settings::lemma_lists_are_distinct();
    lemma_seek(0, 15, p);
    let f = seek(0, 15, p);
    if BAUDS@.contains(baud) {
        assert(BAUDS@[k] == baud);
        assert(p(k));
        assert(p(f));
        assert(f == k);
    } else {
        if f < 15 {
            assert(p(f));
            assert(BAUDS@[f] == baud);
        }
    }
}

/// A rate that is changed on an open monitor reopens it.
pub proof fn law_a_new_rate_reopens_the_monitor(s: AppView, by: int)
    requires
        0 <= s.active < s.panes.len(),
        s.panes[s.active].link is Some,
    ensures
        exists|t: AppView|
            s.step_baud(by) == #[trigger] t.save(Some(s.active), true).stop_monitor(
                s.active,
            ).start_monitor(s.active) && t == (AppView { panes: t.panes, ..s }) && t.panes
                == s.panes.update(
                s.active,
                PaneView { baud: t.panes[s.active].baud, ..s.panes[s.active] },
            ),
{
    let p = s.panes[s.active];
    let t = AppView {
        panes: s.panes.update(
            s.active,
            PaneView { baud: super::monitor::next_baud(p.baud, by), ..p },
        ),
        ..s
    };
    assert(s.step_baud(by) == t.save(Some(s.active), true).stop_monitor(s.active).start_monitor(
        s.active,
    ));
}

/// A new pane is blank, at the rate of the settings, and its sketch is asked for
/// the rate where it has one of its own.
pub proof fn law_a_new_pane_is_blank(s: AppView, i: int)
    requires
        0 <= i <= s.panes.len(),
        0 <= i < s.boards.len(),
    ensures
        s.new_pane(i).panes == s.panes.insert(
            i,
            PaneView { lines: Seq::empty(), scroll: 0, baud: s.settings.baud, link: None },
        ),
        s.new_pane(i).actions == match s.boards[i].sketch {
            Some(rel) => if text::ends(rel, ".ino"@) {
                s.actions
            } else {
                s.actions.push(ActionView::ReadBaud { board: i, rel })
            },
            None => s.actions,
        },
        s.new_pane(i) == (AppView {
            panes: s.new_pane(i).panes,
            actions: s.new_pane(i).actions,
            ..s
        }),
{
}

/// Going to another pane makes it the active one and ends the line that is typed;
/// staying changes nothing.
pub proof fn law_focus_moves(s: AppView, i: int)
    ensures
        s.focus(i) == (AppView {
            active: i,
            input: if i == s.active {
                s.input
            } else {
                None
            },
            ..s
        }),
{
}

/// Pane `i` is on the screen.
pub open spec fn on_screen(s: AppView, i: int) -> bool {
    0 <= i < s.panes.len() && (i == s.active || s.panes[i].link is Some)
}

/// The panes on the screen are the active one and those that are connected, in
/// order.
pub proof fn law_panes_on_the_screen(s: AppView)
    ensures
        forall|k: int| 0 <= k < s.shown_panes().len() ==> on_screen(s, #[trigger] s.shown_panes()[k]),
        forall|i: int| #[trigger] on_screen(s, i) ==> s.shown_panes().contains(i),
        forall|a: int, b: int|
            0 <= a < b < s.shown_panes().len() ==> #[trigger] s.shown_panes()[a]
                < #[trigger] s.shown_panes()[b],
{
    let p = s.is_shown();
    lemma_places(s.panes.len(), p);
    assert forall|k: int| 0 <= k < s.shown_panes().len() implies on_screen(
        s,
        #[trigger] s.shown_panes()[k],
    ) by {
        assert(p(s.shown_panes()[k]));
    }
    assert forall|i: int| #[trigger] on_screen(s, i) implies s.shown_panes().contains(i) by {
        assert(p(i));
    }
}

/// With two or more panes on the screen, going right leads to the next one of
/// them, and from the last to the first; going left leads back.
pub proof fn law_panes_go_round(s: AppView, i: int)
    requires
        on_screen(s, s.active),
        on_screen(s, i),
        i != s.active,
        forall|k: int| on_screen(s, k) ==> !(#[trigger] between(s.active, k, i)),
    ensures
        s.cycle_pane(1) == s.focus(i),
        s.focus(i).panes == s.panes,
{
    law_panes_on_the_screen(s);
    let ring = s.shown_panes();
    let n = ring.len() as int;
    let a = choose|a: int| 0 <= a < n && ring[a] == s.active;
    let b = choose|b: int| 0 <= b < n && ring[b] == i;
    let p = super::monitor::is_at(ring, s.active);
    lemma_seek(0, n, p);
    assert(p(a));
    let at = seek(0, n, p);
    assert(p(at));
    assert(at == a) by {
        if at < a {
            assert(ring[at] < ring[a]);
        }
    }
    assert(a != b);
    if a + 1 < n {
        if b != a + 1 {
            assert(on_screen(s, ring[a + 1]));
            assert(ring[a] < ring[a + 1]);
            if b > a + 1 {
                assert(ring[a + 1] < ring[b]);
            } else {
                assert(ring[b] < ring[a]);
            }
            assert(between(s.active, ring[a + 1], i));
        }
        assert((at + 1) % n == a + 1) by {
            vstd::arithmetic::div_mod::lemma_small_mod((a + 1) as nat, n as nat);
        }
    } else {
        if b != 0 {
            assert(on_screen(s, ring[0]));
            assert(ring[0] < ring[b]);
            assert(ring[b] < ring[a]);
            assert(between(s.active, ring[0], i));
        }
        assert((at + 1) % n == 0) by {
            vstd::arithmetic::div_mod::lemma_mod_self_0(n);
        }
    }
}

/// Going right from `a`, and from the end on from the start, `k` comes before `b`.
pub open spec fn between(a: int, k: int, b: int) -> bool {
    if a < b {
        a < k < b
    } else {
        a < k || k < b
    }
}

/// Going right and then left ends where it began, whatever is on the screen, as
/// long as going right does not take the pane at hand off it.
pub proof fn law_right_and_left(s: AppView)
    requires
        0 <= s.active < s.panes.len(),
        s.panes[s.active].link is Some || s.shown_panes().len() <= 1,
        s.cycle_pane(1).shown_panes().len() <= 1 <==> s.shown_panes().len() <= 1,
    ensures
        s.cycle_pane(1).cycle_pane(-1).active == s.active,
{
    let t = s.cycle_pane(1);
    law_panes_on_the_screen(s);
    law_panes_on_the_screen(t);
    let ring = s.pane_ring();
    let n = ring.len() as int;
    let p = super::monitor::is_at(ring, s.active);
    lemma_seek(0, n, p);
    if s.shown_panes().len() <= 1 {
        assert(ring[s.active] == s.active);
        assert(p(s.active));
    } else {
        assert(on_screen(s, s.active));
        let a = choose|a: int| 0 <= a < n && ring[a] == s.active;
        assert(p(a));
    }
    let at = seek(0, n, p);
    assert(p(at));
    let to = (at + 1) % n;
    assert(0 <= to < n) by (nonlinear_arith)
        requires
            n > 0,
            to == (at + 1) % n,
    ;
    assert(t.active == ring[to]);
    if s.shown_panes().len() > 1 {
        assert(on_screen(s, ring[to]));
        assert forall|i: int| #[trigger] on_screen(s, i) == on_screen(t, i) by {}
        assert forall|i: int| s.shown_panes().contains(i) == t.shown_panes().contains(i) by {
            if s.shown_panes().contains(i) {
                let k = choose|k: int| 0 <= k < s.shown_panes().len() && s.shown_panes()[k] == i;
                assert(on_screen(s, s.shown_panes()[k]));
                assert(on_screen(t, i));
            }
            if t.shown_panes().contains(i) {
                let k = choose|k: int| 0 <= k < t.shown_panes().len() && t.shown_panes()[k] == i;
                assert(on_screen(t, t.shown_panes()[k]));
                assert(on_screen(s, i));
            }
        }
        lemma_same_ascending(s.shown_panes(), t.shown_panes());
    }
    assert(t.pane_ring() =~= ring);
    let q = super::monitor::is_at(ring, t.active);
    lemma_seek(0, n, q);
    assert(q(to));
    let back = seek(0, n, q);
    assert(q(back));
    assert(back == to) by {
        if back < to {
            assert(ring[back] < ring[to]);
        }
    }
    assert((to + -1) % n == at) by {
        if at + 1 < n {
            vstd::arithmetic::div_mod::lemma_small_mod((at + 1) as nat, n as nat);
            vstd::arithmetic::div_mod::lemma_small_mod(at as nat, n as nat);
        } else {
            vstd::arithmetic::div_mod::lemma_mod_self_0(n);
            vstd::arithmetic::div_mod::lemma_mod_add_multiples_vanish(-1, n);
            vstd::arithmetic::div_mod::lemma_small_mod((n - 1) as nat, n as nat);
        }
    }
}

/// With no pane on the screen but the active one, going right leads to the pane
/// behind it and from the last to the first, and going left leads the other way.
pub proof fn law_closed_panes_go_round(s: AppView)
    requires
        0 <= s.active < s.panes.len(),
        forall|i: int| on_screen(s, i) ==> i == s.active,
    ensures
        s.cycle_pane(1) == s.focus(
            if s.active + 1 < s.panes.len() {
                s.active + 1
            } else {
                0
            },
        ),
        s.cycle_pane(-1) == s.focus(
            if s.active > 0 {
                s.active - 1
            } else {
                s.panes.len() - 1
            },
        ),
{
    law_panes_on_the_screen(s);
    let shown = s.shown_panes();
    if shown.len() > 1 {
        assert(on_screen(s, shown[0]) && on_screen(s, shown[1]));
        assert(shown[0] < shown[1]);
    }
    let n = s.panes.len() as int;
    let ring = s.pane_ring();
    assert(ring =~= Seq::new(s.panes.len(), |i: int| i));
    let p = super::monitor::is_at(ring, s.active);
    lemma_seek(0, n, p);
    assert(p(s.active));
    let at = seek(0, n, p);
    assert(p(at));
    assert(at == s.active);
    if at + 1 < n {
        vstd::arithmetic::div_mod::lemma_small_mod((at + 1) as nat, n as nat);
    } else {
        vstd::arithmetic::div_mod::lemma_mod_self_0(n);
    }
    if at > 0 {
        vstd::arithmetic::div_mod::lemma_small_mod((at - 1) as nat, n as nat);
    } else {
        vstd::arithmetic::div_mod::lemma_mod_add_multiples_vanish(-1, n);
        vstd::arithmetic::div_mod::lemma_small_mod((n - 1) as nat, n as nat);
    }
}

// -- saving --

/// Saving writes all boards of the project, as they are; where the project is one
/// sketch with one board at most, it writes none.
pub proof fn law_saving_writes_every_board(s: AppView)
    requires
        s.project_err is None,
    ensures
        !(s.root_is_sketch && s.boards.len() <= 1) ==> s.save(None, false) == (AppView {
            actions: s.actions.push(ActionView::SaveProject(s.boards)),
            ..s
        }),
        s.root_is_sketch && s.boards.len() <= 1 ==> s.save(None, false) == s,
{
}

/// A board that is saved is told to its own sketch folder: its kind, the port it is
/// at or else the one it remembers, and, where asked for, the rate of its pane. The
/// sketch is remembered as made for the kind.
pub proof fn law_a_board_is_told_to_its_sketch(s: AppView, i: int, with_baud: bool)
    requires
        s.project_err is None,
        0 <= i < s.boards.len(),
        s.boards[i].sketch is Some,
        !text::ends(s.boards[i].sketch->0, ".ino"@),
    ensures
        ({
            let t = s.save(Some(i), with_baud);
            let rel = s.boards[i].sketch->0;
            &&& t.actions == s.save(None, with_baud).actions.push(
                ActionView::Attach {
                    rel,
                    fqbn: s.boards[i].fqbn,
                    port: match resolved(s.boards, s.ports)[i] {
                        Some(j) => Some(s.ports[j].port),
                        None => match s.boards[i].port {
                            Some(a) => Some(
                                PortView {
                                    address: a,
                                    protocol: Seq::empty(),
                                    protocol_label: Seq::empty(),
                                },
                            ),
                            None => None,
                        },
                    },
                    baud: if with_baud {
                        Some(s.panes[i].baud)
                    } else {
                        None
                    },
                },
            )
            &&& t.sketch_fqbn == s.sketch_fqbn.insert(rel, s.boards[i].fqbn)
            &&& t == (AppView { actions: t.actions, sketch_fqbn: t.sketch_fqbn, ..s })
        }),
{
}

/// A board without a sketch folder is told to none.
pub proof fn law_loose_sketches_are_told_nothing(s: AppView, i: int, with_baud: bool)
    requires
        s.project_err is None,
        0 <= i < s.boards.len() ==> (s.boards[i].sketch is None || text::ends(
            s.boards[i].sketch->0,
            ".ino"@,
        )),
    ensures
        s.save(Some(i), with_baud) == s.save(None, with_baud),
{
}

/// Where the project file did not parse, saving only says so.
pub proof fn law_a_broken_project_is_only_told_of(s: AppView, mirror: Option<int>, with_baud: bool)
    requires
        s.project_err is Some,
    ensures
        s.save(mirror, with_baud) == (AppView {
            log: s.log.push(
                "✗ fluxus.yaml didn't parse, not overwriting it — fix it by hand"@,
            ),
            ..s
        }),
{
}

// -- what is picked --

/// A pick opens its list for the board it is meant for, with nothing typed and the
/// first offer selected.
pub proof fn law_a_list_opens_fresh(s: AppView, kind: Pick, target: int)
    ensures
        s.open(kind, target) == (AppView {
            picker: Some(PickerView { kind, target, query: Seq::empty(), sel: 0 }),
            ..s
        }),
{
}

/// The kind that is picked for a board becomes its kind and its name; its port and
/// its sketch stay, the other boards stay, and it is saved.
pub proof fn law_a_picked_kind_is_taken(s: AppView, i: int, label: Seq<char>, detail: Seq<char>)
    requires
        0 <= i < s.boards.len(),
        !text::begins(detail, "install "@),
    ensures
        ({
            let t = s.apply(Pick::Board, i, label, detail);
            &&& t.boards[i].name == label
            &&& t.boards[i].fqbn == detail
            &&& t.boards[i].port == s.boards[i].port
            &&& t.boards[i].sketch == s.boards[i].sketch
            &&& t.boards == s.boards.update(i, t.boards[i])
            &&& t.panes == s.panes
            &&& t == (AppView { boards: t.boards, ..s }).save(Some(i), false)
        }),
{
    let t = s.apply(Pick::Board, i, label, detail);
    assert(t.boards =~= s.boards.update(i, t.boards[i]));
}

/// The port that is picked for a board is the one it remembers from then on;
/// nothing else of it changes, and it is saved.
pub proof fn law_a_picked_port_is_taken(s: AppView, i: int, label: Seq<char>, detail: Seq<char>)
    requires
        0 <= i < s.boards.len(),
        !text::begins(detail, "install "@),
    ensures
        ({
            let t = s.apply(Pick::Port, i, label, detail);
            &&& t.boards[i].port == Some(label)
            &&& t.boards[i].name == s.boards[i].name
            &&& t.boards[i].fqbn == s.boards[i].fqbn
            &&& t.boards[i].sketch == s.boards[i].sketch
            &&& t.boards == s.boards.update(i, t.boards[i])
            &&& t == (AppView { boards: t.boards, ..s }).save(Some(i), false)
        }),
{
    let t = s.apply(Pick::Port, i, label, detail);
    assert(t.boards =~= s.boards.update(i, t.boards[i]));
}

/// The sketch that is picked for a board is set for it.
pub proof fn law_a_picked_sketch_is_set(s: AppView, i: int, label: Seq<char>, detail: Seq<char>)
    requires
        !text::begins(detail, "install "@),
    ensures
        s.apply(Pick::Sketch, i, label, detail) == s.set_sketch(i, label),
{
}

/// A board that is picked to be added is added, at the port that it was picked for.
pub proof fn law_a_picked_board_is_added(s: AppView, i: int, label: Seq<char>, detail: Seq<char>)
    requires
        !text::begins(detail, "install "@),
    ensures
        s.apply(Pick::AddBoard, i, label, detail) == (AppView {
            pending_port: None,
            ..s
        }).add_board(label, detail, s.pending_port),
{
}

/// Picking a board whose core is missing installs that core and adds nothing.
pub proof fn law_a_missing_core_is_installed(
    s: AppView,
    kind: Pick,
    i: int,
    label: Seq<char>,
    core: Seq<char>,
)
    ensures
        s.apply(kind, i, label, "install "@ + core) == (AppView {
            pending_port: None,
            ..s
        }).install_core(core),
{
    let detail = "install "@ + core;
    text::law_parts_of_a_text(Seq::empty(), "install "@, core);
    assert(detail.skip("install "@.len() as int) =~= core);
}

/// A sketch with a folder of its own is read before it is set: nothing changes but
/// that its file is asked for.
pub proof fn law_a_sketch_is_read_first(s: AppView, i: int, rel: Seq<char>)
    requires
        0 <= i < s.boards.len(),
    ensures
        !text::ends(rel, ".ino"@) ==> s.set_sketch(i, rel) == (AppView {
            actions: s.actions.push(ActionView::ReadSketch { board: i, rel }),
            ..s
        }),
        text::ends(rel, ".ino"@) ==> s.set_sketch(i, rel) == s.sketch_read(i, rel, None),
{
}

/// A sketch that is set is the board's; its name and kind stay, and so does a port
/// that it remembers. One without a port takes the one that the sketch names. The
/// pane takes the rate that the sketch sets, where it sets one, and the board is
/// saved.
pub proof fn law_a_sketch_is_set(s: AppView, i: int, rel: Seq<char>, yaml: Option<Seq<char>>)
    requires
        0 <= i < s.boards.len(),
        s.boards.len() == s.panes.len(),
    ensures
        ({
            let t = s.sketch_read(i, rel, yaml);
            &&& t.boards[i].sketch == Some(rel)
            &&& t.boards[i].name == s.boards[i].name
            &&& t.boards[i].fqbn == s.boards[i].fqbn
            &&& t.boards[i].port == if s.boards[i].port is Some {
                s.boards[i].port
            } else if yaml is Some {
                crate::sketch::value_at(yaml->0, "default_port:"@)
            } else {
                None
            }
            &&& t.boards == s.boards.update(i, t.boards[i])
            &&& t.panes == s.panes.update(i, t.panes[i])
            &&& t.panes[i] == (PaneView { baud: t.panes[i].baud, ..s.panes[i] })
            &&& t.panes[i].baud == match yaml {
                Some(y) => match crate::sketch::baud_of(text::lines(y)) {
                    Some(b) => b as u32,
                    None => s.panes[i].baud,
                },
                None => s.panes[i].baud,
            }
            &&& t == (AppView { boards: t.boards, panes: t.panes, ..s }).save(Some(i), false)
        }),
{
    let t = s.sketch_read(i, rel, yaml);
    assert(t.boards =~= s.boards.update(i, t.boards[i]));
    assert(t.panes =~= s.panes.update(i, t.panes[i]));
}

/// The sketch of a board that is read for its rate changes that board's pane alone,
/// and nothing of it but the rate.
pub proof fn law_a_rate_that_is_read_is_taken(s: AppView, i: int, yaml: Seq<char>, rate: u32)
    requires
        0 <= i < s.panes.len(),
        crate::sketch::baud_of(text::lines(yaml)) == Some(rate as nat),
    ensures
        s.baud_read(i, Some(yaml)) == (AppView {
            panes: s.panes.update(i, PaneView { baud: rate, ..s.panes[i] }),
            ..s
        }),
        s.baud_read(i, None) == s,
{
}

/// Sketch `k` is the only one that is made for a kind.
pub open spec fn only_made_for(s: AppView, fqbn: Seq<char>, k: int) -> bool {
    0 <= k < s.sketches.len() && forall|l: int|
        0 <= l < s.sketches.len() ==> ((s.sketch_fqbn.contains_key(#[trigger] s.sketches[l])
            && s.sketch_fqbn[s.sketches[l]] == fqbn) <==> l == k)
}

/// A board that is added stands behind the others, with the name, the kind and the
/// port it is given and without a sketch; it has a blank pane, and it is the one
/// selected. A list of sketches opens for it, unless just one is made for its kind.
pub proof fn law_an_added_board_is_asked_a_sketch(
    s: AppView,
    name: Seq<char>,
    fqbn: Seq<char>,
    port: Option<Seq<char>>,
)
    requires
        s.boards.len() == s.panes.len(),
        forall|k: int| !only_made_for(s, fqbn, k),
    ensures
        ({
            let t = s.add_board(name, fqbn, port);
            let n = s.boards.len() as int;
            &&& t.boards == s.boards.push(TargetView { name, fqbn, port, sketch: None })
            &&& t.panes == s.panes.push(
                PaneView { lines: Seq::empty(), scroll: 0, baud: s.settings.baud, link: None },
            )
            &&& t.picker == Some(
                PickerView { kind: Pick::Sketch, target: n, query: Seq::empty(), sel: 0 },
            )
            &&& t.sel == n
            &&& t.tab == Tab::Project
            &&& t.active == if n == 0 {
                0
            } else {
                s.active
            }
            &&& s.project_err is None && !(s.root_is_sketch && n == 0) ==> t.actions
                == s.actions.push(ActionView::SaveProject(t.boards))
        }),
{
    let p = s.made_for(fqbn);
    let made = s.sketches.filter(p);
    let t = s.add_board(name, fqbn, port);
    if made.len() == 1 {
        lemma_single(s.sketches, p);
        let k = choose|k: int|
            0 <= k < s.sketches.len() && p(s.sketches[k]) && forall|l: int|
                0 <= l < s.sketches.len() && l != k ==> !p(#[trigger] s.sketches[l]);
        assert(only_made_for(s, fqbn, k)) by {
            assert forall|l: int| 0 <= l < s.sketches.len() implies ((s.sketch_fqbn.contains_key(
                #[trigger] s.sketches[l],
            ) && s.sketch_fqbn[s.sketches[l]] == fqbn) <==> l == k) by {
                if l != k {
                    assert(!p(s.sketches[l]));
                }
            }
        }
    }
    assert(t.panes =~= s.panes.push(
        PaneView { lines: Seq::empty(), scroll: 0, baud: s.settings.baud, link: None },
    ));
}

/// Where just one sketch is made for its kind, a board that is added gets it.
pub proof fn law_an_added_board_gets_its_sketch(
    s: AppView,
    name: Seq<char>,
    fqbn: Seq<char>,
    port: Option<Seq<char>>,
    k: int,
)
    requires
        s.boards.len() == s.panes.len(),
        only_made_for(s, fqbn, k),
    ensures
        s.add_board(name, fqbn, port) == (AppView {
            boards: s.boards.push(TargetView { name, fqbn, port, sketch: None }),
            panes: s.panes.push(
                PaneView { lines: Seq::empty(), scroll: 0, baud: s.settings.baud, link: None },
            ),
            sel: s.boards.len() as int,
            tab: Tab::Project,
            active: if s.boards.len() == 0 {
                0
            } else {
                s.active
            },
            ..s
        }).set_sketch(s.boards.len() as int, s.sketches[k]),
{
    let p = s.made_for(fqbn);
    assert forall|l: int| 0 <= l < s.sketches.len() implies p(#[trigger] s.sketches[l]) == (l == k) by {
        assert((s.sketch_fqbn.contains_key(s.sketches[l]) && s.sketch_fqbn[s.sketches[l]] == fqbn)
            <==> l == k);
    }
    lemma_only(s.sketches, p, k);
    let i = s.boards.len() as int;
    let b = TargetView { name, fqbn, port, sketch: None };
    let one = AppView { boards: s.boards.push(b), ..s };
    assert(one.new_pane(i).panes =~= s.panes.push(
        PaneView { lines: Seq::empty(), scroll: 0, baud: s.settings.baud, link: None },
    ));
}

proof fn lemma_only(v: Seq<Seq<char>>, p: spec_fn(Seq<char>) -> bool, k: int)
    requires
        0 <= k < v.len(),
        forall|l: int| 0 <= l < v.len() ==> p(#[trigger] v[l]) == (l == k),
    ensures
        v.filter(p) == seq![v[k]],
    decreases v.len(),
{
    reveal(Seq::filter);
    let m = v.drop_last();
    assert forall|l: int| 0 <= l < m.len() implies p(#[trigger] m[l]) == (l == k) by {
        assert(m[l] == v[l]);
    }
    assert(p(v[v.len() - 1]) == (v.len() - 1 == k));
    if k < m.len() {
        lemma_only(m, p, k);
    } else {
        lemma_none_of(m, p);
        assert(v.filter(p) =~= seq![v[k]]);
    }
}

proof fn lemma_none_of(v: Seq<Seq<char>>, p: spec_fn(Seq<char>) -> bool)
    requires
        forall|l: int| 0 <= l < v.len() ==> !p(#[trigger] v[l]),
    ensures
        v.filter(p) == Seq::<Seq<char>>::empty(),
    decreases v.len(),
{
    reveal(Seq::filter);
    if v.len() > 0 {
        let m = v.drop_last();
        assert forall|l: int| 0 <= l < m.len() implies !p(#[trigger] m[l]) by {
            assert(m[l] == v[l]);
        }
        lemma_none_of(m, p);
        assert(!p(v[v.len() - 1]));
    }
}

proof fn lemma_single(v: Seq<Seq<char>>, p: spec_fn(Seq<char>) -> bool)
    requires
        v.filter(p).len() == 1,
    ensures
        exists|k: int|
            0 <= k < v.len() && p(v[k]) && forall|l: int|
                0 <= l < v.len() && l != k ==> !p(#[trigger] v[l]),
    decreases v.len(),
{
    reveal(Seq::filter);
    if v.len() > 0 {
        let m = v.drop_last();
        let last = v.len() - 1;
        if p(v[last]) {
            assert(m.filter(p).len() == 0);
            lemma_empty_filter(m, p);
            assert forall|l: int| 0 <= l < v.len() && l != last implies !p(#[trigger] v[l]) by {
                assert(m[l] == v[l]);
            }
        } else {
            lemma_single(m, p);
            let k = choose|k: int|
                0 <= k < m.len() && p(m[k]) && forall|l: int|
                    0 <= l < m.len() && l != k ==> !p(#[trigger] m[l]);
            assert(v[k] == m[k]);
            assert forall|l: int| 0 <= l < v.len() && l != k implies !p(#[trigger] v[l]) by {
                if l < m.len() {
                    assert(m[l] == v[l]);
                }
            }
        }
    }
}

proof fn lemma_empty_filter(v: Seq<Seq<char>>, p: spec_fn(Seq<char>) -> bool)
    requires
        v.filter(p).len() == 0,
    ensures
        forall|l: int| 0 <= l < v.len() ==> !p(#[trigger] v[l]),
    decreases v.len(),
{
    reveal(Seq::filter);
    if v.len() > 0 {
        let m = v.drop_last();
        lemma_empty_filter(m, p);
        assert forall|l: int| 0 <= l < v.len() implies !p(#[trigger] v[l]) by {
            if l < m.len() {
                assert(m[l] == v[l]);
            }
        }
    }
}

/// A port that reports the kind of its board adds that board, under its name and at
/// that port; it is the first board that the port reports with a kind.
pub proof fn law_a_known_port_adds_its_board(s: AppView, j: int, k: int)
    requires
        0 <= k < s.ports[j].matching_boards.len(),
        s.ports[j].matching_boards[k].fqbn.len() > 0,
        forall|l: int| 0 <= l < k ==> (#[trigger] s.ports[j].matching_boards[l]).fqbn.len() == 0,
    ensures
        s.add_from_port(j) == s.add_board(
            s.ports[j].matching_boards[k].name,
            s.ports[j].matching_boards[k].fqbn,
            Some(s.ports[j].port.address),
        ),
{
    let bs = s.ports[j].matching_boards;
    let p = super::picking::of_known_kind(bs);
    lemma_seek(0, bs.len() as int, p);
    assert(p(k));
    let f = seek(0, bs.len() as int, p);
    assert(p(f));
    if f < k {
        assert(bs[f].fqbn.len() == 0);
    }
}

/// A port that reports no kind asks for one, and is kept for the board that is
/// picked.
pub proof fn law_an_unknown_port_asks(s: AppView, j: int)
    requires
        forall|l: int|
            0 <= l < s.ports[j].matching_boards.len() ==> (
            #[trigger] s.ports[j].matching_boards[l]).fqbn.len() == 0,
    ensures
        s.add_from_port(j) == (AppView {
            pending_port: Some(s.ports[j].port.address),
            picker: Some(
                PickerView { kind: Pick::AddBoard, target: 0, query: Seq::empty(), sel: 0 },
            ),
            ..s
        }),
{
    let bs = s.ports[j].matching_boards;
    let p = super::picking::of_known_kind(bs);
    lemma_seek(0, bs.len() as int, p);
    let f = seek(0, bs.len() as int, p);
    if f < bs.len() {
        assert(p(f));
        assert(bs[f].fqbn.len() == 0);
    }
}

// -- all monitors at once --

/// The list holds the places of exactly the boards that are at a port, in order.
pub open spec fn lists_boards_there(s: AppView, list: Seq<int>) -> bool {
    &&& forall|a: int, b: int| 0 <= a < b < list.len() ==> #[trigger] list[a] < #[trigger] list[b]
    &&& forall|i: int|
        #[trigger] list.contains(i) <==> 0 <= i < s.boards.len() && resolved(s.boards, s.ports)[i]
            is Some
}

/// No pane is connected.
pub open spec fn all_closed(s: AppView) -> bool {
    forall|i: int| 0 <= i < s.panes.len() ==> (#[trigger] s.panes[i]).link is None
}

/// An upload is going on, waits for its folder, or is to come.
pub open spec fn upload_at_hand(s: AppView) -> bool {
    ||| s.queue.len() > 0
    ||| s.asked is Some && s.asked->0 is Upload
    ||| s.job is Some && text::begins(s.job->0, "upload"@)
}

proof fn lemma_boards_there(s: AppView, list: Seq<int>)
    requires
        lists_boards_there(s, list),
    ensures
        places(s.boards.len(), s.connected()) == list,
{
    let p = s.connected();
    let v = places(s.boards.len(), p);
    lemma_places(s.boards.len(), p);
    assert forall|i: int| v.contains(i) == list.contains(i) by {
        if v.contains(i) {
            let k = choose|k: int| 0 <= k < v.len() && v[k] == i;
            assert(p(v[k]));
        }
        if list.contains(i) {
            assert(p(i));
        }
    }
    lemma_same_ascending(v, list);
}

/// With every pane closed and none waiting, the boards that are there are opened
/// one after the other. While an upload is at hand, they wait for it instead, and
/// where no board is there, the active pane says so.
pub proof fn law_boards_that_are_there_are_opened(s: AppView, there: Seq<int>)
    requires
        all_closed(s),
        s.resume.len() == 0,
        lists_boards_there(s, there),
    ensures
        there.len() > 0 && !upload_at_hand(s) ==> s.toggle_monitor() == (AppView {
            tab: Tab::Monitor,
            ..s
        }).start_all(there),
        there.len() > 0 && upload_at_hand(s) ==> s.toggle_monitor() == (AppView {
            tab: Tab::Monitor,
            resume: there,
            ..s
        }),
        there.len() == 0 && 0 <= s.active < s.panes.len() ==> s.toggle_monitor() == (AppView {
            tab: Tab::Monitor,
            panes: s.panes.update(
                s.active,
                s.panes[s.active].note("── no connected boards ──"@),
            ),
            ..s
        }),
        there.len() == 0 && s.active >= s.panes.len() ==> s.toggle_monitor() == (AppView {
            tab: Tab::Monitor,
            ..s
        }),
{
    lemma_boards_there(s, there);
    assert(!s.any_linked()) by {
        assert forall|i: int| !s.linked(i) by {}
    }
}

/// Where a pane is open or waits, every one is closed and none waits any more.
pub proof fn law_open_monitors_are_closed(s: AppView)
    requires
        !all_closed(s) || s.resume.len() > 0,
    ensures
        s.toggle_monitor() == (AppView {
            tab: Tab::Monitor,
            resume: Seq::empty(),
            ..s
        }).stop_monitors(),
{
    if !all_closed(s) {
        let i = choose|i: int| 0 <= i < s.panes.len() && (#[trigger] s.panes[i]).link is Some;
        assert(s.linked(i));
    }
}

/// Panes are opened in the order of the list, and closed in their own order.
pub proof fn law_one_pane_after_the_other(s: AppView, list: Seq<int>, i: int, n: nat)
    ensures
        s.start_all(Seq::empty()) == s,
        s.start_all(list.push(i)) == s.start_all(list).start_monitor(i),
        s.stop_first(0) == s,
        s.stop_first(n + 1) == s.stop_first(n).stop_monitor(n as int),
        s.stop_monitors() == s.stop_first(s.panes.len()),
{
    assert(list.push(i).drop_last() =~= list);
}

/// Panes that wait are opened once nothing runs, where their boards are at a port;
/// the others wait on.
pub proof fn law_waiting_panes_are_opened(s: AppView)
    requires
        forall|k: int| 0 <= k < s.resume.len() ==> 0 <= #[trigger] s.resume[k] < s.boards.len(),
    ensures
        s.job is Some || s.asked is Some || s.queue.len() > 0 ==> s.resume_ready() == s,
        s.job is None && s.asked is None && s.queue.len() == 0 ==> s.resume_ready() == (AppView {
            resume: s.resume.filter(|i: int| !at_a_port(s, i)),
            ..s
        }).start_all(s.resume.filter(|i: int| at_a_port(s, i))),
{
    let (yes, no) = (|i: int| at_a_port(s, i), |i: int| !at_a_port(s, i));
    assert(yes =~= s.connected());
    assert(no =~= s.disconnected());
}

pub open spec fn at_a_port(s: AppView, i: int) -> bool {
    0 <= i < s.boards.len() && resolved(s.boards, s.ports)[i] is Some
}

/// Uploads close every pane first, those that were open wait to be opened again
/// behind those that wait already, and the log starts anew.
pub proof fn law_uploads_close_the_monitors_first(s: AppView, which: Seq<int>, open: Seq<int>)
    requires
        forall|a: int, b: int|
            0 <= a < b < open.len() ==> #[trigger] open[a] < #[trigger] open[b],
        forall|i: int|
            #[trigger] open.contains(i) <==> 0 <= i < s.panes.len() && s.panes[i].link is Some,
    ensures
        s.job is Some || s.asked is Some ==> s.start_uploads(which) == (AppView {
            tab: Tab::Build,
            ..s
        }),
        s.job is None && s.asked is None ==> s.start_uploads(which) == (AppView {
            queue: which,
            ..(AppView {
                tab: Tab::Build,
                log: Seq::empty(),
                log_scroll: 0,
                resume: s.resume + open,
                ..s
            }).stop_monitors()
        }).next_upload(),
{
    let p = s.pane_linked();
    let v = places(s.panes.len(), p);
    lemma_places(s.panes.len(), p);
    assert forall|i: int| v.contains(i) == open.contains(i) by {
        if v.contains(i) {
            let k = choose|k: int| 0 <= k < v.len() && v[k] == i;
            assert(p(v[k]));
        }
        if open.contains(i) {
            assert(p(i));
        }
    }
    lemma_same_ascending(v, open);
}

} // verus!
