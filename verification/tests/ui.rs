use fluxus::app::events::{Found, Setup};
use fluxus::app::{App, AppEvent, Key, KeyPress, Pane, Pick, Tab};
use fluxus::cli::{Board, Detected, Port};
use fluxus::project::Target;
use fluxus::settings::Settings;
use fluxus::ui::bars::{footer, header, render, tab_bar, Body};
use fluxus::ui::picker::{picker, tree};
use fluxus::ui::tables::{boards_hint, project, settings_tab, NO_BOARDS};
use fluxus::ui::views::{build, grid_columns, log_style, pane, scrollback, serial, window_on, Content, Window, WIDEST};
use fluxus::ui::{Color, Span, Theme, Tone};

fn setup() -> Setup {
    Setup {
        cli_version: "1.0.4".into(),
        root: "/work/blackout".into(),
        root_name: Some("blackout".into()),
        scratch: "/tmp/scratch".into(),
        project: Ok(vec![]),
        sketches: vec![],
        settings: Settings::default(),
    }
}

fn target(name: &str, fqbn: &str, port: Option<&str>, sketch: Option<&str>) -> Target {
    Target { name: name.into(), fqbn: fqbn.into(), port: port.map(Into::into), sketch: sketch.map(Into::into) }
}

fn detected(address: &str) -> Detected {
    Detected { port: Port { address: address.into(), ..Default::default() }, matching_boards: vec![] }
}

fn press(app: &mut App, c: char) {
    app.key(KeyPress { code: Key::Char(c), control: false });
}

fn texts(line: &[Span]) -> Vec<&str> {
    line.iter().map(|s| s.text.as_str()).collect()
}

fn text(line: &[Span]) -> String {
    texts(line).concat()
}

fn plain(text: &str) -> Span {
    Span { text: text.into(), tone: Tone::Plain, bold: false }
}

#[test]
fn tree_shares_parent_dirs() {
    let labels = ["giga-r1/i2c_scan", "giga-r1/main", "scratchpad/motor_test.ino", "."].map(String::from);
    let rows = tree(&labels, "blackout");
    let d = |v: &[(usize, &str)]| v.iter().map(|&(i, s)| (i, s.to_string())).collect::<Vec<_>>();
    assert_eq!(rows[0], (d(&[(0, "giga-r1"), (1, "i2c_scan")]), 2, "i2c_scan.ino".into()));
    assert_eq!(rows[1], (d(&[(1, "main")]), 2, "main.ino".into()));
    assert_eq!(rows[2], (d(&[(0, "scratchpad")]), 1, "motor_test.ino".into()));
    assert_eq!(rows[3], (vec![], 0, "blackout.ino".into()));
}

#[test]
fn monitor_grid_fits_any_board_count() {
    for n in 1..=5 {
        let mut app = App::new(setup());
        let ports = (0..n).map(|j| detected(&format!("/dev/p{j}")));
        app.event(AppEvent::Ports(Ok(ports.collect())));
        for j in 0..n {
            app.boards.push(target(&format!("board{j}"), "x:y:z", Some(&format!("/dev/p{j}")), None));
            app.panes.push(Pane { lines: vec![], scroll: 0, baud: 9600, link: None });
        }
        press(&mut app, 'm');
        assert_eq!(app.shown_panes().len(), n);
        assert_eq!(render(&app), Body::Serial);
        let grid = serial(&app);
        assert_eq!(grid.many, n > 1);
        let shown: Vec<usize> = grid.rows.concat();
        let screen: String = shown.iter().map(|&i| text(&pane(&app, i, grid.many).title)).collect();
        assert!((0..n).all(|j| screen.contains(&format!("board{j}"))), "{n} panes");
    }
}

#[test]
fn grids_are_square() {
    let got: Vec<usize> = (0..=17).map(grid_columns).collect();
    assert_eq!(got, [0, 1, 2, 3, 2, 3, 3, 3, 3, 3, 4, 4, 4, 4, 4, 4, 4, 5]);
    let mut app = App::new(Setup {
        project: Ok((0..5).map(|i| target(&format!("b{i}"), "x:y:z", Some(&format!("/dev/{i}")), None)).collect()),
        ..setup()
    });
    app.event(AppEvent::Ports(Ok((0..5).map(|i| detected(&format!("/dev/{i}"))).collect())));
    press(&mut app, 'm');
    assert_eq!(serial(&app).rows, [vec![0, 1, 2], vec![3, 4]]);
    let none = App::new(setup());
    assert_eq!(serial(&none).hint.as_deref(), Some("add a board in Project (3), then press m"));
    assert!(serial(&none).rows.is_empty());
}

#[test]
fn log_lines_have_tones() {
    assert_eq!(log_style("✗ failed"), Tone::Bad);
    assert_eq!(log_style("x.cpp:3: ERROR: no"), Tone::Bad);
    assert_eq!(log_style("Error during build"), Tone::Bad);
    assert_eq!(log_style("x.cpp:3: Warning: eh"), Tone::Gold);
    assert_eq!(log_style("✓ done"), Tone::Good);
    assert_eq!(log_style("Sketch uses 12 bytes"), Tone::Good);
    assert_eq!(log_style("Global variables use 3"), Tone::Good);
    assert_eq!(log_style("$ arduino-cli"), Tone::Accent);
    assert_eq!(log_style("errors"), Tone::Plain);
}

#[test]
fn windows_follow_the_end() {
    assert_eq!(window_on(100, 20, 0), Window { top: 80, scrolled: false });
    assert_eq!(window_on(100, 20, 30), Window { top: 50, scrolled: true });
    assert_eq!(window_on(100, 20, 500), Window { top: 0, scrolled: true });
    assert_eq!(window_on(10, 20, 5), Window { top: 0, scrolled: false });
    assert_eq!(window_on(100000, 1, 0), Window { top: u16::MAX, scrolled: false });
    let lines = vec![plain("Hello World"), plain(""), plain("  indented")];
    assert_eq!(scrollback(&lines, 20, 1, 0), Window { top: 2, scrolled: false });
    assert_eq!(scrollback(&lines, 10, 1, 0).top, 3);
    assert_eq!(scrollback(&lines, 10, 1, 1), Window { top: 2, scrolled: true });
    assert_eq!(scrollback(&lines, 0, 1, 0), Window { top: 0, scrolled: false });
    let long = vec![plain(&"a".repeat(4 * WIDEST as usize + 1))];
    assert_eq!(scrollback(&long, WIDEST, 1, 0), Window { top: 4, scrolled: false });
    let wide = vec![plain(&"字 \u{200b}".repeat(70000))];
    assert!(scrollback(&wide, WIDEST, 1, 0).top > 0);
}

#[test]
fn the_log_is_shown_with_its_run() {
    let mut app = App::new(setup());
    let b = build(&app);
    assert_eq!(text(&b.title), " build ");
    assert_eq!(b.content, Content::Hint("press c to compile, u to upload".into()));
    app.install_core("arduino:avr");
    let b = build(&app);
    assert_eq!(text(&b.title), " build — install arduino:avr… ");
    match b.content {
        Content::Text { lines, scroll } => {
            assert_eq!(texts(&lines), ["$ arduino-cli core install arduino:avr"]);
            assert_eq!((lines[0].tone, scroll), (Tone::Accent, 0));
        }
        other => panic!("{other:?}"),
    }
}

#[test]
fn the_header_tells_of_the_board() {
    let mut app = App::new(setup());
    assert_eq!(text(&header(&app).line), " no boards in project — plug one in, or press a to add one");
    assert_eq!(text(&header(&app).title), " fluxus blackout ");
    assert_eq!(text(&header(&app).right), " arduino-cli 1.0.4 ");
    assert!(header(&app).bottom.is_none());
    app.boards.push(target("uno", "a:b:c", Some("/dev/a"), None));
    app.new_pane(0);
    assert_eq!(text(&header(&app).line), " uno  a:b:c    ○ /dev/a (unplugged)    sketch none — press s");
    app.event(AppEvent::Ports(Ok(vec![detected("/dev/a")])));
    app.boards[0].sketch = Some("s".into());
    app.project_err = Some("oops".into());
    let h = header(&app);
    assert_eq!(text(&h.line), " uno  a:b:c    ● /dev/a    sketch s");
    assert_eq!((h.line[1].tone, h.line[1].bold, h.line[4].tone), (Tone::Gold, true, Tone::Good));
    assert_eq!(text(&h.bottom.unwrap()), " oops ");
    app.boards[0].port = None;
    app.event(AppEvent::Ports(Ok(vec![])));
    assert_eq!(header(&app).line[4].text, "○ not connected");
}

#[test]
fn tabs_and_keys() {
    let mut app = App::new(setup());
    let (titles, sel) = tab_bar(&app);
    assert_eq!(titles, [" 1 Build ", " 2 Monitor ", " 3 Project ", " 4 Settings "]);
    assert_eq!(sel, 2);
    assert_eq!(text(&footer(&app)), " enter add to project   j/k move   a add by hand   F flash all   q quit  ");
    for (key, keys) in [
        ('1', " c compile   u upload   F flash all   m monitor   s sketch   j/k scroll   q quit  "),
        ('2', " m open/close   ←→ pane   i send   +/- baud   x clear   j/k scroll   u upload   q quit  "),
        ('4', " j/k move   ←→ change   q quit  "),
        ('a', " type filter   ↑↓ move   enter choose   esc cancel  "),
    ] {
        press(&mut app, key);
        assert_eq!(text(&footer(&app)), keys);
    }
    app.picker = None;
    app.install_core("x");
    assert_eq!(text(&footer(&app)), " j/k scroll   esc cancel   tab switch   q quit  ");
    app.input = Some("hi".into());
    assert_eq!(text(&footer(&app)), " type message   enter send   esc done  ");
    assert_eq!(texts(&serial(&app).input.unwrap().line), ["hi", "▏"]);
    app.input = None;
    app.job = None;
    app.tab = Tab::Project;
    app.boards.push(target("uno", "a:b:c", None, None));
    assert_eq!(
        text(&footer(&app)),
        " a add   enter make active   s sketch   p port   b board   d remove   F flash all   q quit  "
    );
}

#[test]
fn monitors_stand_below_the_log() {
    let mut app = App::new(Setup { project: Ok(vec![target("uno", "a:b:c", Some("/dev/a"), None)]), ..setup() });
    assert_eq!(render(&app), Body::Build);
    app.event(AppEvent::Ports(Ok(vec![detected("/dev/a")])));
    let p = pane(&app, 0, true);
    assert_eq!(texts(&p.title), [" uno ", "closed @ 9600 "]);
    assert_eq!(p.content, Content::Hint("press m to open the serial monitor".into()));
    assert!(p.active);
    press(&mut app, 'm');
    app.event(AppEvent::Serial(1, "hi\n→ x".into()));
    let p = pane(&app, 0, false);
    assert_eq!(texts(&p.title), [" uno ", "/dev/a @ 9600 "]);
    assert!(!p.active);
    match p.content {
        Content::Text { lines, .. } => {
            assert_eq!(texts(&lines), ["── /dev/a @ 9600 ──", "hi", "→ x"]);
            assert_eq!(lines.iter().map(|s| s.tone).collect::<Vec<_>>(), [Tone::Dim, Tone::Plain, Tone::Accent]);
        }
        other => panic!("{other:?}"),
    }
    press(&mut app, '1');
    assert_eq!(render(&app), Body::BuildAndSerial);
    press(&mut app, '3');
    assert_eq!(render(&app), Body::Project);
    press(&mut app, '4');
    assert_eq!(render(&app), Body::Settings);
}

#[test]
fn boards_and_ports_stand_in_columns() {
    let mut app = App::new(Setup {
        project: Ok(vec![
            target("uno", "a:b:ü", Some("/dev/a"), Some("s")),
            target("gigä", "a:b", Some("/dev/gone"), None),
            target("x", "q", None, None),
        ]),
        ..setup()
    });
    assert_eq!(boards_hint(&app), None);
    assert_eq!(boards_hint(&App::new(setup())).as_deref(), Some(NO_BOARDS));
    assert_eq!(NO_BOARDS, "pick a detected port below, or press a to add a board by hand");
    assert_eq!(text(&project(&app).1.title), " new ports — scanning… ");
    let mut known = detected("/dev/b");
    known.port.protocol_label = "Serial Port (USB)".into();
    known.matching_boards = vec![
        Board { name: "?".into(), fqbn: String::new(), core: String::new() },
        Board { name: "Uno".into(), fqbn: "a:b:uno".into(), core: String::new() },
    ];
    app.event(AppEvent::Ports(Ok(vec![known, detected("/dev/a"), detected("/dev/c")])));
    let (boards, ports) = project(&app);
    assert_eq!(text(&boards.title), " boards (3) ");
    assert_eq!(boards.sel, Some(0));
    assert_eq!(texts(&boards.rows[0]), [" ▸ ", "uno   ", "a:b:ü   ", "● /dev/a         ", "s"]);
    assert_eq!(texts(&boards.rows[1]), ["   ", "gigä  ", "a:b     ", "○ /dev/gone      ", "no sketch"]);
    assert_eq!(texts(&boards.rows[2]), ["   ", "x     ", "q       ", "○ not connected  ", "no sketch"]);
    let tones: Vec<Tone> = boards.rows.iter().map(|r| r[3].tone).collect();
    assert_eq!(tones, [Tone::Good, Tone::Bad, Tone::Dim]);
    assert_eq!(text(&ports.title), " new ports (2) enter adds to project ");
    assert_eq!(ports.sel, None);
    assert_eq!(
        texts(&ports.rows[0]),
        ["   /dev/b                            ", "Serial Port (USB)   ", "Uno", "  a:b:uno"]
    );
    assert_eq!(ports.rows[1][2].text, "unknown board — you pick the type");
    app.sel = 4;
    app.event(AppEvent::Ports(Err("down".into())));
    let (boards, ports) = project(&app);
    assert_eq!((boards.sel, ports.sel), (None, Some(1)));
    assert_eq!(text(&ports.bottom.unwrap()), " down ");
}

#[test]
fn settings_tell_where_they_are_kept() {
    let app = App::new(setup());
    let t = settings_tab(&app, &Some("/home/me/.config/x".into()), "/home/me");
    assert_eq!(text(&t.title), " settings ~/.config/x ");
    assert_eq!(texts(&t.rows[1]), ["   default baud        ", "‹ 9600 ›"]);
    assert_eq!((t.rows.len(), t.sel), (4, Some(0)));
    assert_eq!(text(&settings_tab(&app, &Some("/etc/x".into()), "").title), " settings /etc/x ");
    assert_eq!(text(&settings_tab(&app, &None, "/home/me").title), " settings not saved — no HOME ");
}

#[test]
fn pickers_show_what_there_is() {
    let found = |rel: &str| Found { rel: rel.into(), yaml: None };
    let mut app = App::new(Setup {
        project: Ok(vec![target("uno", "a:b:c", None, None)]),
        sketches: vec![found("cam/main"), found("cam/x.ino"), found(".")],
        ..setup()
    });
    app.open(Pick::Sketch, 0);
    press(&mut app, 'a');
    let l = picker(&app, app.picker.as_ref().unwrap());
    assert_eq!(text(&l.title), " sketch for uno: a▏");
    assert!(l.empty.is_none() && l.leaf);
    let lines: Vec<Vec<String>> = l.items.iter().map(|i| i.iter().map(|line| text(line)).collect()).collect();
    assert_eq!(lines[0], [" cam/", "   main/", "     main.ino  "]);
    assert_eq!(lines[1], ["   x.ino  "]);

    app.open(Pick::Port, 0);
    let l = picker(&app, app.picker.as_ref().unwrap());
    assert_eq!(text(&l.title), " port for uno: ▏");
    assert_eq!(l.empty.unwrap().text, "no ports detected");
    app.open(Pick::AddBoard, 0);
    assert_eq!(picker(&app, app.picker.as_ref().unwrap()).empty.unwrap().text, "loading boards…");
    app.event(AppEvent::AllBoards(Err("broken".into())));
    assert_eq!(picker(&app, app.picker.as_ref().unwrap()).empty.unwrap().tone, Tone::Bad);
    app.event(AppEvent::AllBoards(Ok(vec![])));
    assert_eq!(
        picker(&app, app.picker.as_ref().unwrap()).empty.unwrap().text,
        "no cores installed — try: arduino-cli core install arduino:avr"
    );
    app.event(AppEvent::AllBoards(Ok(vec![Board { name: "Uno".into(), fqbn: "a:b:uno".into(), core: String::new() }])));
    let l = picker(&app, app.picker.as_ref().unwrap());
    assert_eq!(text(&l.title), " add board: ▏");
    assert_eq!(texts(&l.items[0][0]), [" Uno                                     ", "a:b:uno"]);
    let none = App::new(setup());
    let mut none = none;
    none.open(Pick::Sketch, 3);
    let l = picker(&none, none.picker.as_ref().unwrap());
    assert_eq!((text(&l.title), l.empty.unwrap().text), (" sketch: ▏".to_string(), "no .ino files under /work/blackout".to_string()));
}

#[test]
fn themes_give_colours() {
    assert_eq!(Theme::at(0).color(Tone::Accent), Some(Color::Cyan));
    assert_eq!(Theme::at(1).color(Tone::Gold), Some(Color::Rgb(154, 103, 0)));
    assert_eq!(Theme::at(2).select_bg, Color::Rgb(60, 56, 54));
    assert_eq!(Theme::at(3).color(Tone::Dim), Some(Color::DarkGray));
    assert_eq!(Theme::at(3).color(Tone::Plain), None);
}
