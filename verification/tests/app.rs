use fluxus::app::events::{Found, Setup};
use fluxus::app::lookups::narrow_down;
use fluxus::app::{
    Action, Answer, App, AppEvent, Arg, Key, KeyPress, Pane, Pick, Tab, BAUDS, SERIAL_CAP,
};
use fluxus::cli::{Attached, Board, Detected, Port};
use fluxus::project::Target;
use fluxus::settings::Settings;

fn setup() -> Setup {
    Setup {
        cli_version: "1.0.4".into(),
        root: "/work/blackout".into(),
        root_name: Some("blackout".into()),
        scratch: "/tmp/scratch".into(),
        project: Ok(vec![]),
        sketches: vec![],
        settings: Settings::default(),
    }
}

fn fresh() -> App {
    App::new(setup())
}

fn target(name: &str, port: Option<&str>, sketch: Option<&str>) -> Target {
    Target {
        name: name.into(),
        fqbn: "x:y:z".into(),
        port: port.map(Into::into),
        sketch: sketch.map(Into::into),
    }
}

fn with_boards(boards: Vec<Target>) -> App {
    App::new(Setup { project: Ok(boards), ..setup() })
}

fn port(address: &str) -> Port {
    Port { address: address.into(), ..Default::default() }
}

fn detected(address: &str) -> Detected {
    Detected { port: port(address), matching_boards: vec![] }
}

fn press(app: &mut App, code: Key) {
    assert!(app.is_ready());
    app.key(KeyPress { code, control: false });
}

fn presses(app: &mut App, keys: &str) {
    for c in keys.chars() {
        press(app, Key::Char(c));
    }
}

fn happen(app: &mut App, ev: AppEvent) {
    assert!(app.is_ready() && app.can_take(&ev));
    app.event(ev);
}

/// Does what is asked for, with these `sketch.yaml` files, until nothing is left.
fn settle(app: &mut App, yamls: &[(&str, &str)]) -> Vec<Action> {
    let read = |rel: &str| yamls.iter().find(|(r, _)| *r == rel).map(|(_, y)| y.to_string());
    let mut done = vec![];
    loop {
        let actions = app.take_actions();
        if actions.is_empty() {
            return done;
        }
        for a in actions {
            match &a {
                Action::ReadSketch { board, rel } => {
                    app.answer(Answer::SketchRead { board: *board, rel: rel.clone(), yaml: read(rel) })
                }
                Action::ReadBaud { board, rel } => app.answer(Answer::BaudRead { board: *board, yaml: read(rel) }),
                Action::BuildFolder(rel) => app.answer(Answer::Built(Ok(format!("/work/blackout/{rel}")))),
                Action::SaveProject(_) => app.answer(Answer::ProjectSaved(Ok(()))),
                Action::SaveSettings(_) => app.answer(Answer::SettingsSaved(Ok(()))),
                _ => {}
            }
            done.push(a);
        }
    }
}

fn words(args: &[Arg]) -> Vec<&str> {
    args.iter()
        .map(|a| match a {
            Arg::Word(s) | Arg::Folder(s) => s.as_str(),
        })
        .collect()
}

fn runs(done: &[Action]) -> Vec<Vec<&str>> {
    done.iter()
        .filter_map(|a| match a {
            Action::Run(args) => Some(words(args)),
            _ => None,
        })
        .collect()
}

fn ids(app: &App) -> Vec<Option<u64>> {
    app.panes.iter().map(|p| p.link.as_ref().map(|l| l.id)).collect()
}

// -- panes --

#[test]
fn serial_chunks_join_into_lines() {
    let mut p = Pane { lines: vec![], scroll: 0, baud: 9600, link: None };
    for chunk in ["tem", "p: 21\r\nhum", "id: 40\r\n", "no newline"] {
        p.push(chunk);
    }
    assert_eq!(p.lines, ["temp: 21", "humid: 40", "no newline"]);
    p.note("── closed ──");
    assert_eq!(p.lines[3..], ["── closed ──", ""]);
}

#[test]
fn a_pane_keeps_its_last_lines() {
    let mut p = Pane::fresh(9600);
    for i in 0..SERIAL_CAP + 10 {
        p.push(&format!("{i}\n"));
    }
    assert_eq!(p.lines.len(), SERIAL_CAP);
    assert_eq!(p.lines[0], "11");
    assert_eq!(p.lines[SERIAL_CAP - 1], "");
}

#[test]
fn a_scrolled_pane_stays_where_it_is() {
    let mut p = Pane::fresh(9600);
    p.push("a\nb\n");
    assert_eq!(p.scroll, 0);
    p.scroll = 2;
    p.push("c\nd\ne");
    assert_eq!(p.scroll, 4);
    p.push("\u{7}\u{1b}x\t!");
    assert_eq!(p.lines.last().unwrap(), "ex!");
}

// -- runs --

#[test]
fn progress_redraws_in_place_and_resume_waits_for_the_port() {
    let mut app = fresh();
    happen(&mut app, AppEvent::Log("$ arduino-cli compile -u".into()));
    for pct in [10, 55, 100] {
        happen(&mut app, AppEvent::Progress(format!("Writing | ## | {pct}%")));
    }
    happen(&mut app, AppEvent::Log(String::new()));
    happen(&mut app, AppEvent::Log("Done".into()));
    assert_eq!(app.log, ["$ arduino-cli compile -u", "Writing | ## | 100%", "", "Done"]);

    app.boards.push(target("uno", Some("/dev/uno"), None));
    app.new_pane(0);
    app.resume = vec![0];
    happen(&mut app, AppEvent::Ports(Ok(vec![])));
    assert!(app.panes[0].link.is_none(), "port still gone");
    happen(&mut app, AppEvent::Ports(Ok(vec![detected("/dev/uno")])));
    assert!(app.panes[0].link.is_some(), "port back");
    assert!(app.resume.is_empty());
}

#[test]
fn a_line_takes_the_place_of_a_redraw() {
    let mut app = fresh();
    happen(&mut app, AppEvent::Progress("10%".into()));
    happen(&mut app, AppEvent::Log("Done".into()));
    assert_eq!(app.log, ["Done"]);
}

#[test]
fn paths_in_the_log_are_short() {
    let mut app = fresh();
    happen(&mut app, AppEvent::Log("at /work/blackout/cam/main.ino and /tmp/scratch/x, /work/other".into()));
    assert_eq!(app.log, ["at cam/main.ino and x, /work/other"]);
}

#[test]
fn a_scrolled_log_stays_where_it_is() {
    let mut app = fresh();
    for i in 0..30 {
        happen(&mut app, AppEvent::Log(format!("line {i}")));
    }
    press(&mut app, Key::Char('1'));
    press(&mut app, Key::PageUp);
    press(&mut app, Key::Up);
    press(&mut app, Key::Char('k'));
    assert_eq!(app.log_scroll, 22);
    happen(&mut app, AppEvent::Log("more".into()));
    assert_eq!(app.log_scroll, 23);
    press(&mut app, Key::Down);
    press(&mut app, Key::PageDown);
    assert_eq!(app.log_scroll, 2);
    presses(&mut app, "g");
    assert_eq!(app.log_scroll, 31);
    presses(&mut app, "G");
    assert_eq!(app.log_scroll, 0);
}

#[test]
fn compiling_asks_for_a_folder_and_runs_there() {
    let mut app = with_boards(vec![target("uno", None, Some("cam/main"))]);
    settle(&mut app, &[]);
    presses(&mut app, "c");
    assert_eq!(app.tab, Tab::Build);
    assert!(app.job.is_none());
    let done = settle(&mut app, &[]);
    assert!(matches!(&done[0], Action::BuildFolder(rel) if rel == "cam/main"));
    assert_eq!(runs(&done), [["compile", "-b", "x:y:z", "/work/blackout/cam/main"]]);
    assert_eq!(app.log, ["$ arduino-cli compile -b x:y:z cam/main"]);
    assert_eq!(app.job.as_ref().unwrap().name, "compile uno");

    app.settings.verbose = true;
    presses(&mut app, "c");
    assert!(settle(&mut app, &[]).is_empty(), "one run at a time");
    happen(&mut app, AppEvent::JobDone(Ok(true), "2.5".into()));
    assert_eq!(app.log.last().unwrap(), "✓ compile uno done in 2.5s");
    presses(&mut app, "c");
    let done = settle(&mut app, &[]);
    assert_eq!(runs(&done), [["compile", "-b", "x:y:z", "/work/blackout/cam/main", "-v"]]);
}

#[test]
fn runs_end_in_one_of_three_ways() {
    let mut app = with_boards(vec![target("uno", None, Some("a"))]);
    settle(&mut app, &[]);
    presses(&mut app, "c");
    settle(&mut app, &[]);
    happen(&mut app, AppEvent::Log("Error: platform not installed".into()));
    happen(&mut app, AppEvent::JobDone(Ok(false), "1.0".into()));
    assert_eq!(app.log[2..], ["✗ compile uno failed (1.0s)", "press I to install the missing core"]);
    presses(&mut app, "I");
    let done = settle(&mut app, &[]);
    assert_eq!(runs(&done), [["core", "install", "x:y"]]);
    happen(&mut app, AppEvent::JobDone(Ok(true), "9.0".into()));
    assert_eq!(app.log[1..], ["✓ install x:y done in 9.0s", "press a to pick your board"]);
    assert!(matches!(settle(&mut app, &[])[..], [Action::FetchBoards]));
    presses(&mut app, "c");
    settle(&mut app, &[]);
    happen(&mut app, AppEvent::JobDone(Err("spawning arduino-cli".into()), "0.0".into()));
    assert_eq!(app.log[1..], ["✗ compile uno: spawning arduino-cli"]);
}

#[test]
fn what_cannot_be_built_is_said() {
    let mut app = fresh();
    presses(&mut app, "c");
    assert_eq!(app.log, ["✗ no boards in project — plug one in, or press a to add one"]);
    let mut app = with_boards(vec![target("uno", None, None)]);
    presses(&mut app, "c");
    assert_eq!(app.log, ["✗ uno has no sketch — press s"]);
    let mut app = with_boards(vec![target("uno", None, Some("x.ino"))]);
    presses(&mut app, "c");
    assert!(matches!(app.take_actions()[..], [Action::BuildFolder(_)]));
    app.answer(Answer::Built(Err("no x.ino".into())));
    assert_eq!(app.log, ["✗ uno: no x.ino"]);
}

#[test]
fn uploads_follow_one_another_and_pause_the_monitors() {
    let mut app = with_boards(vec![
        target("a", Some("/dev/a"), Some("s/a")),
        target("b", Some("/dev/gone"), Some("s/b")),
        target("c", Some("/dev/c"), Some("s/c")),
        target("d", Some("/dev/d"), None),
    ]);
    settle(&mut app, &[]);
    let mut a = detected("/dev/a");
    a.port.protocol = "serial".into();
    happen(&mut app, AppEvent::Ports(Ok(vec![detected("/dev/d"), a, detected("/dev/c")])));
    presses(&mut app, "m");
    assert_eq!(ids(&app), [Some(1), None, Some(2), Some(3)]);
    settle(&mut app, &[]);
    presses(&mut app, "F");
    assert_eq!(ids(&app), [None, None, None, None]);
    assert_eq!(app.resume, [0, 2, 3]);
    let done = settle(&mut app, &[]);
    assert!(matches!(done[..3], [Action::CloseMonitor(1), Action::CloseMonitor(2), Action::CloseMonitor(3)]));
    assert_eq!(runs(&done), [[
        "compile", "-u", "-b", "x:y:z", "-p", "/dev/a", "-l", "serial", "/work/blackout/s/a"
    ]]);

    happen(&mut app, AppEvent::Ports(Ok(vec![detected("/dev/d"), detected("/dev/c")])));
    assert_eq!(ids(&app), [None; 4], "a run is going on");
    happen(&mut app, AppEvent::JobDone(Ok(true), "3.0".into()));
    let done = settle(&mut app, &[]);
    assert_eq!(runs(&done), [["compile", "-u", "-b", "x:y:z", "-p", "/dev/c", "/work/blackout/s/c"]]);
    assert!(app.log.contains(&"✗ b isn't connected — plug it in or press p".to_string()));
    happen(&mut app, AppEvent::JobDone(Ok(true), "3.0".into()));
    assert!(app.queue.is_empty() && app.job.is_none());
    happen(&mut app, AppEvent::Ports(Ok(vec![detected("/dev/d"), detected("/dev/c")])));
    assert_eq!(ids(&app), [None, None, Some(4), Some(5)]);
    assert_eq!(app.resume, [0]);
}

#[test]
fn nothing_to_flash_is_said() {
    let mut app = with_boards(vec![target("a", Some("/dev/a"), None)]);
    presses(&mut app, "F");
    assert_eq!(app.log, ["✗ flash all: no connected boards with a sketch"]);
    assert_eq!(app.tab, Tab::Build);
}

#[test]
fn cancelling_ends_the_run_and_empties_the_queue() {
    let mut app = with_boards(vec![target("a", Some("/dev/a"), Some("s")), target("b", Some("/dev/b"), Some("s"))]);
    settle(&mut app, &[]);
    happen(&mut app, AppEvent::Ports(Ok(vec![detected("/dev/a"), detected("/dev/b")])));
    presses(&mut app, "F");
    settle(&mut app, &[]);
    press(&mut app, Key::Esc);
    assert!(app.job.is_none() && app.queue.is_empty());
    assert_eq!(app.log.last().unwrap(), "✗ upload a cancelled");
    assert!(matches!(settle(&mut app, &[])[..], [Action::Abort]));
    let before = app.log.clone();
    happen(&mut app, AppEvent::JobDone(Ok(true), "1.0".into()));
    assert_eq!(app.log, before);
}

// -- monitors --

#[test]
fn each_board_gets_its_own_pane() {
    let mut app = fresh();
    happen(&mut app, AppEvent::Ports(Ok(vec![detected("/dev/a"), detected("/dev/b")])));
    for a in ["/dev/a", "/dev/b", "/dev/gone"] {
        app.boards.push(target(a, Some(a), None));
        app.new_pane(app.boards.len() - 1);
    }
    app.toggle_monitor();
    assert_eq!(ids(&app), [Some(1), Some(2), None]);
    assert_eq!(app.shown_panes(), [0, 1]);

    happen(&mut app, AppEvent::Serial(2, "rx on b\n".into()));
    happen(&mut app, AppEvent::Serial(99, "stale\n".into()));
    assert!(app.panes[1].lines.contains(&"rx on b".to_string()));
    assert!(!app.panes.iter().any(|p| p.lines.contains(&"stale".to_string())));

    app.cycle_pane(1);
    assert_eq!(app.active, 1);
    app.cycle_pane(1);
    assert_eq!(app.active, 0);
    happen(&mut app, AppEvent::SerialDone(1, Ok(())));
    assert!(app.panes[0].link.is_none() && app.panes[1].link.is_some());

    app.toggle_monitor();
    assert!(app.panes.iter().all(|p| p.link.is_none()));
    app.cycle_pane(1);
    assert_eq!(app.active, 1);
    app.cycle_pane(1);
    assert_eq!(app.active, 2);
}

#[test]
fn what_comes_after_closing_is_dropped() {
    let mut app = with_boards(vec![target("a", Some("/dev/a"), None)]);
    happen(&mut app, AppEvent::Ports(Ok(vec![detected("/dev/a")])));
    presses(&mut app, "m");
    assert_eq!(app.panes[0].lines, ["── /dev/a @ 9600 ──", ""]);
    presses(&mut app, "mm");
    assert_eq!(ids(&app), [Some(2)]);
    let lines = app.panes[0].lines.clone();
    happen(&mut app, AppEvent::Serial(1, "late\n".into()));
    happen(&mut app, AppEvent::SerialDone(1, Ok(())));
    assert_eq!(app.panes[0].lines, lines);
    assert_eq!(ids(&app), [Some(2)]);
    happen(&mut app, AppEvent::SerialDone(2, Err("gone".into())));
    assert_eq!(app.panes[0].lines[app.panes[0].lines.len() - 2], "── disconnected: gone ──");
}

#[test]
fn what_is_typed_goes_to_the_board() {
    let mut app = with_boards(vec![target("a", Some("/dev/a"), None)]);
    happen(&mut app, AppEvent::Ports(Ok(vec![detected("/dev/a")])));
    presses(&mut app, "mi");
    presses(&mut app, "hq");
    press(&mut app, Key::Backspace);
    presses(&mut app, "i");
    assert_eq!(app.input.as_deref(), Some("hi"));
    app.take_actions();
    press(&mut app, Key::Enter);
    assert_eq!(app.input.as_deref(), Some(""));
    assert!(matches!(&app.take_actions()[..], [Action::Send(1, s)] if s == "hi\n"));
    assert!(app.panes[0].lines.contains(&"→ hi".to_string()));
    assert!(!app.quit);
    happen(&mut app, AppEvent::SerialDone(1, Ok(())));
    assert_eq!(app.input, None);
}

#[test]
fn a_new_rate_reopens_the_monitor_and_is_saved() {
    let mut app = with_boards(vec![target("a", Some("/dev/a"), Some("s")), target("b", None, None)]);
    settle(&mut app, &[("s", "default_port_config:\n  baudrate: 115200\n")]);
    assert_eq!(app.panes[0].baud, 115200);
    assert_eq!(app.panes[1].baud, 9600);
    happen(&mut app, AppEvent::Ports(Ok(vec![detected("/dev/a")])));
    presses(&mut app, "m");
    settle(&mut app, &[]);
    presses(&mut app, "+");
    assert_eq!(app.panes[0].baud, 230400);
    assert_eq!(ids(&app), [Some(2), None]);
    let done = settle(&mut app, &[]);
    assert!(matches!(&done[0], Action::SaveProject(b) if b.len() == 2));
    assert!(matches!(&done[1], Action::Attach { rel, baud: Some(230400), port: Some(p), .. } if rel == "s" && p.address == "/dev/a"));
    assert!(matches!(done[2], Action::CloseMonitor(1)));
    assert!(matches!(done[3], Action::OpenMonitor { id: 2, baud: 230400, .. }));
    for _ in 0..20 {
        presses(&mut app, "-");
    }
    assert_eq!(app.panes[0].baud, BAUDS[0]);
}

#[test]
fn no_connected_board_is_said() {
    let mut app = with_boards(vec![target("a", Some("/dev/a"), None)]);
    presses(&mut app, "m");
    assert_eq!(app.panes[0].lines, ["── no connected boards ──", ""]);
    app.start_monitor(0);
    assert_eq!(app.panes[0].lines[1..], ["── not connected ──", ""]);
}

// -- the project --

#[test]
fn detected_port_adds_board_and_guesses_sketch() {
    let found = |rel: &str, fqbn: &str| Found { rel: rel.into(), yaml: Some(format!("default_fqbn: {fqbn}\n")) };
    let yamls = [
        ("giga-r1/main", "default_fqbn: arduino:mbed_giga:giga\n"),
        ("cam/main", "default_fqbn: esp32:esp32:esp32cam\n"),
        ("cam/test", "default_fqbn: esp32:esp32:esp32cam\n"),
    ];
    let mut app = App::new(Setup {
        sketches: vec![
            found("cam/main", "esp32:esp32:esp32cam"),
            found("cam/test", "esp32:esp32:esp32cam"),
            found("giga-r1/main", "arduino:mbed_giga:giga"),
        ],
        ..setup()
    });
    let giga = Board { name: "Arduino Giga R1".into(), fqbn: "arduino:mbed_giga:giga".into(), core: String::new() };
    happen(
        &mut app,
        AppEvent::Ports(Ok(vec![
            Detected { port: port("/dev/cu.usbmodem1101"), matching_boards: vec![giga] },
            Detected { port: port("/dev/cu.usbserial-110"), matching_boards: vec![] },
        ])),
    );
    assert_eq!(app.free_ports(), [0, 1]);

    app.add_from_port(0);
    settle(&mut app, &yamls);
    assert_eq!(app.boards[0].sketch.as_deref(), Some("giga-r1/main"));
    assert_eq!(app.boards[0].port.as_deref(), Some("/dev/cu.usbmodem1101"));
    assert!(app.picker.is_none());
    assert_eq!(app.free_ports(), [1]);

    app.add_from_port(1);
    assert!(app.picker.as_ref().is_some_and(|p| p.kind == Pick::AddBoard));
    app.apply(Pick::AddBoard, 0, "AI Thinker ESP32-CAM".into(), "esp32:esp32:esp32cam".into());
    settle(&mut app, &yamls);
    assert_eq!(app.boards[1].port.as_deref(), Some("/dev/cu.usbserial-110"));
    assert!(app.picker.as_ref().is_some_and(|p| p.kind == Pick::Sketch));
    let picks: Vec<_> = app.picks().into_iter().map(|(s, _)| s).collect();
    assert_eq!(picks, ["cam/main", "cam/test", "giga-r1/main"]);
}

#[test]
fn picks_narrow_down_whatever_the_case() {
    let mut app = fresh();
    let board = |name: &str, fqbn: &str| Board { name: name.into(), fqbn: fqbn.into(), core: "arduino:sam".into() };
    happen(
        &mut app,
        AppEvent::AllBoards(Ok(vec![board("Arduino Due", ""), board("ÄÖ Uno", "arduino:avr:uno"), board("Nano", "arduino:avr:nano")])),
    );
    presses(&mut app, "a");
    assert_eq!(
        app.picks(),
        [
            ("ÄÖ Uno".to_string(), "arduino:avr:uno".to_string()),
            ("Nano".to_string(), "arduino:avr:nano".to_string()),
            ("Arduino Due".to_string(), "install arduino:sam".to_string()),
        ]
    );
    assert_eq!(app.picker.as_ref().unwrap().query, "", "nothing typed, everything offered");
    presses(&mut app, "äö");
    assert_eq!(app.picks().len(), 1, "upper case letters beyond ASCII match too");
    press(&mut app, Key::Backspace);
    press(&mut app, Key::Backspace);
    presses(&mut app, "DUE");
    press(&mut app, Key::Enter);
    let done = settle(&mut app, &[]);
    assert_eq!(runs(&done), [["core", "install", "arduino:sam"]]);
    assert!(app.boards.is_empty() && app.picker.is_none());
}

#[test]
fn items_are_kept_by_their_keys() {
    let pairs = |v: &[(&str, &str)]| v.iter().map(|(a, b)| (a.to_string(), b.to_string())).collect::<Vec<_>>();
    let items = pairs(&[("A", "1"), ("B", "2"), ("C", "3")]);
    let keys = pairs(&[("xay", ""), ("", "b"), ("c", "xa")]);
    assert_eq!(narrow_down(&items, &keys, "a"), pairs(&[("A", "1"), ("C", "3")]));
    assert_eq!(narrow_down(&items, &keys, ""), items);
    assert_eq!(narrow_down(&items, &keys, "q"), []);
}

#[test]
fn a_board_added_by_hand_gets_a_sketch() {
    let mut app = App::new(Setup {
        sketches: vec![Found { rel: "loose.ino".into(), yaml: None }, Found { rel: "s".into(), yaml: None }],
        ..setup()
    });
    happen(&mut app, AppEvent::AllBoards(Ok(vec![Board { name: "Uno".into(), fqbn: "a:b:uno".into(), core: String::new() }])));
    presses(&mut app, "a");
    press(&mut app, Key::Enter);
    let done = settle(&mut app, &[]);
    assert!(matches!(&done[..], [Action::SaveProject(b)] if b[0].name == "Uno" && b[0].sketch.is_none()));
    assert_eq!(app.tab, Tab::Project);
    press(&mut app, Key::Down);
    press(&mut app, Key::Enter);
    let done = settle(&mut app, &[("s", "default_port: /dev/ttyS0\ndefault_port_config:\n  baudrate: 300\n")]);
    assert_eq!(app.boards[0].sketch.as_deref(), Some("s"));
    assert_eq!(app.boards[0].port.as_deref(), Some("/dev/ttyS0"));
    assert_eq!(app.panes[0].baud, 300);
    assert!(matches!(&done[2], Action::Attach { rel, fqbn, port: Some(p), baud: None } if rel == "s" && fqbn == "a:b:uno" && p.address == "/dev/ttyS0"));
}

#[test]
fn a_broken_project_file_is_not_overwritten() {
    let mut app = App::new(Setup { project: Err("parsing fluxus.yaml: oops".into()), ..setup() });
    happen(&mut app, AppEvent::AllBoards(Ok(vec![Board { name: "Uno".into(), fqbn: "a:b:uno".into(), core: String::new() }])));
    presses(&mut app, "a");
    press(&mut app, Key::Enter);
    assert!(settle(&mut app, &[]).is_empty());
    assert_eq!(app.log, ["✗ fluxus.yaml didn't parse, not overwriting it — fix it by hand"]);
}

#[test]
fn a_project_that_is_one_sketch_needs_no_file() {
    let mut app = App::new(Setup { sketches: vec![Found { rel: ".".into(), yaml: None }], ..setup() });
    assert!(app.wants_defaults());
    happen(&mut app, AppEvent::Defaults(Attached { fqbn: String::new(), port: None }));
    assert!(app.boards.is_empty());
    happen(&mut app, AppEvent::Defaults(Attached { fqbn: "a:b:uno".into(), port: Some(port("/dev/a")) }));
    assert_eq!(app.boards.len(), 1);
    assert_eq!((app.boards[0].name.as_str(), app.boards[0].sketch.as_deref()), ("a:b:uno", Some(".")));
    assert_eq!(app.tab, Tab::Build);
    happen(&mut app, AppEvent::AllBoards(Ok(vec![Board { name: "Uno".into(), fqbn: "a:b:uno".into(), core: String::new() }])));
    assert_eq!(app.boards[0].name, "Uno");
    settle(&mut app, &[]);
    presses(&mut app, "2+");
    let done = settle(&mut app, &[]);
    assert!(matches!(&done[..], [Action::Attach { rel, .. }] if rel == "."));
}

#[test]
fn removing_a_board_keeps_the_others() {
    let mut app = with_boards(vec![target("a", None, None), target("b", Some("/dev/b"), None), target("c", Some("/dev/c"), None)]);
    happen(&mut app, AppEvent::Ports(Ok(vec![detected("/dev/b"), detected("/dev/c")])));
    presses(&mut app, "3jj");
    press(&mut app, Key::Enter);
    assert_eq!(app.active, 2);
    app.resume = vec![1, 2];
    presses(&mut app, "kd");
    assert_eq!(app.boards.iter().map(|t| t.name.as_str()).collect::<Vec<_>>(), ["a", "c"]);
    assert_eq!((app.active, app.sel), (1, 1));
    assert_eq!(app.resume, [1]);
    assert_eq!(app.panes.len(), 2);
}

#[test]
fn ports_are_sorted_by_address() {
    let mut app = fresh();
    let twice = |label: &str| {
        let mut d = detected("/dev/b");
        d.port.protocol_label = label.into();
        d
    };
    happen(&mut app, AppEvent::Ports(Ok(vec![detected("/dev/é"), twice("1"), detected("/dev/a"), twice("2"), detected("/dev/Z")])));
    let got: Vec<(&str, &str)> = app.ports.iter().map(|d| (d.port.address.as_str(), d.port.protocol_label.as_str())).collect();
    assert_eq!(got, [("/dev/Z", ""), ("/dev/a", ""), ("/dev/b", "1"), ("/dev/b", "2"), ("/dev/é", "")]);
    happen(&mut app, AppEvent::Ports(Err("no daemon".into())));
    assert_eq!(app.ports.len(), 5);
    assert_eq!(app.ports_err.as_deref(), Some("no daemon"));
}

#[test]
fn detected_boards_are_counted() {
    let mut app = fresh();
    assert_eq!(app.no_boards(), "no boards in project — plug one in, or press a to add one");
    let usb = |a: &str| {
        let mut d = detected(a);
        d.port.protocol_label = "Serial Port (USB)".into();
        d
    };
    happen(&mut app, AppEvent::Ports(Ok(vec![usb("/dev/a"), detected("/dev/bluetooth")])));
    assert_eq!(app.no_boards(), "detected 1 board — press 3, then enter to add it");
    happen(&mut app, AppEvent::Ports(Ok(vec![usb("/dev/a"), usb("/dev/b")])));
    assert_eq!(app.no_boards(), "detected 2 boards — press 3, then enter to add them");
}

// -- keys --

#[test]
fn control_c_quits_and_typing_does_not() {
    let mut app = fresh();
    presses(&mut app, "aq");
    assert!(!app.quit);
    assert_eq!(app.picker.as_ref().unwrap().query, "q");
    app.key(KeyPress { code: Key::Char('c'), control: true });
    assert!(app.quit);
    let mut app = fresh();
    presses(&mut app, "q");
    assert!(app.quit);
}

#[test]
fn tabs_go_round() {
    let mut app = fresh();
    assert_eq!(app.tab, Tab::Project);
    press(&mut app, Key::Tab);
    assert_eq!(app.tab, Tab::Settings);
    press(&mut app, Key::Tab);
    assert_eq!(app.tab, Tab::Build);
    press(&mut app, Key::BackTab);
    press(&mut app, Key::BackTab);
    assert_eq!(app.tab, Tab::Project);
    presses(&mut app, "2");
    assert_eq!(app.tab.title(), "Monitor");
}

#[test]
fn settings_change_and_are_saved() {
    let mut app = fresh();
    presses(&mut app, "4");
    press(&mut app, Key::Right);
    assert_eq!(app.settings.theme, "light");
    presses(&mut app, "jjjj ");
    assert_eq!(app.set_sel, 3);
    assert!(app.settings.verbose);
    let saved = app.take_actions();
    assert!(matches!(&saved[..], [Action::SaveSettings(a), Action::SaveSettings(b)] if !a.verbose && b.verbose));
    app.answer(Answer::SettingsSaved(Err("no HOME to save settings in".into())));
    app.answer(Answer::ProjectSaved(Err("disk full".into())));
    assert_eq!(
        app.log,
        ["✗ couldn't save settings: no HOME to save settings in", "✗ couldn't save fluxus.yaml: disk full"]
    );
}
