use fluxus::app::AppEvent;
use fluxus::cli::{
    attach, attach_args, attached, board_list, board_search, check_version, chunk, complain, json_args, judge, monitor,
    monitor_args, monitor_end, monitor_line, plain_args, read_line, reply, run_event, stream, unparsed, Board, Chunk,
    Found, Output, Port, Search, VersionReply,
};

fn out(success: bool, stdout: &[u8], stderr: &[u8]) -> Output {
    Output { success, stdout: stdout.to_vec(), stderr: stderr.to_vec() }
}

fn args(words: &[&str]) -> Vec<String> {
    words.iter().map(|w| w.to_string()).collect()
}

/// Reads all lines of what comes in these pieces.
fn read_all(pieces: &[&[u8]]) -> Vec<(Vec<u8>, bool)> {
    let mut lines = vec![];
    let mut buf = vec![];
    let mut rest: Vec<&[u8]> = pieces.to_vec();
    loop {
        while rest.first().is_some_and(|p| p.is_empty()) {
            rest.remove(0);
        }
        let avail: &[u8] = rest.first().copied().unwrap_or(b"");
        match chunk(&mut buf, avail) {
            Chunk::Line { used, redraw } => {
                lines.push((std::mem::take(&mut buf), redraw));
                rest[0] = &rest[0][used..];
            }
            Chunk::More { used } => rest[0] = &rest[0][used..],
            Chunk::Last => {
                lines.push((std::mem::take(&mut buf), false));
            }
            Chunk::End => return lines,
        }
    }
}

#[test]
fn parses_board_search() {
    let raw = r#"{"boards":[
        {"name":"Arduino Uno","fqbn":"arduino:avr:uno","platform":{"metadata":{"id":"arduino:avr"},"release":{"installed":true}}},
        {"name":"Arduino Due","platform":{"metadata":{"id":"arduino:sam"},"release":{}}}
    ]}"#;
    let v: serde_json::Value = serde_json::from_str(raw).unwrap();
    let text = |v: &serde_json::Value| v.as_str().unwrap_or_default().to_string();
    let boards = v["boards"].as_array().unwrap().iter();
    let search = Search {
        boards: boards
            .map(|b| Found {
                board: Board { name: text(&b["name"]), fqbn: text(&b["fqbn"]), core: String::new() },
                platform: text(&b["platform"]["metadata"]["id"]),
            })
            .collect(),
    };
    let b = search.boards();
    assert_eq!((b[0].fqbn.as_str(), b[0].core.as_str()), ("arduino:avr:uno", "arduino:avr"));
    assert_eq!((b[1].fqbn.as_str(), b[1].core.as_str()), ("", "arduino:sam"));
    assert_eq!(b[1].name, "Arduino Due");
}

#[test]
fn commands() {
    assert_eq!(json_args(&board_list()), ["board", "list", "--json"]);
    assert_eq!(board_search(), ["board", "search"]);
    assert_eq!(attached("/s/Blink"), ["board", "attach", "/s/Blink"]);
    let mut port = Port { address: "/dev/a".into(), ..Default::default() };
    assert_eq!(attach_args("/s", Some("a:b:c"), Some(&port)), ["board", "attach", "-b", "a:b:c", "-p", "/dev/a", "/s"]);
    assert_eq!(
        plain_args(&monitor_args(&port, 9600)),
        ["monitor", "-p", "/dev/a", "--quiet", "--config", "baudrate=9600", "--no-color"]
    );
    port.protocol = "serial".into();
    assert_eq!(attach_args("/s", None, Some(&port)), ["board", "attach", "-p", "/dev/a", "-l", "serial", "/s"]);
    assert_eq!(monitor_args(&port, 300)[5..], ["baudrate=300", "-l", "serial"]);
}

#[test]
fn old_versions_will_not_do() {
    let v = |s: &str| check_version(VersionReply::Version(s.into()));
    assert_eq!(v("1.0.4").unwrap(), "1.0.4");
    assert_eq!(v("nightly").unwrap(), "nightly");
    assert_eq!(v("+2").unwrap(), "+2");
    assert_eq!(v("0.35.3").unwrap_err(), "arduino-cli 0.35.3 is too old; fluxus needs >= 1.0");
    assert_eq!(
        check_version(VersionReply::Missing).unwrap_err(),
        "arduino-cli not found on PATH.\nInstall it: https://arduino.github.io/arduino-cli/latest/installation/"
    );
    assert_eq!(check_version(VersionReply::Failed("e".into())).unwrap_err(), "running arduino-cli version: e");
    assert_eq!(check_version(VersionReply::Garbled("e".into())).unwrap_err(), "parsing arduino-cli version: e");
}

#[test]
fn failures_are_told_with_what_was_printed() {
    let a = args(&["board", "list"]);
    assert_eq!(reply(&a, &out(true, b"{}", b"")), Ok(()));
    assert_eq!(reply(&a, &out(false, b"x", b" bad\xff \n")).unwrap_err(), "arduino-cli board list: bad\u{fffd}");
    assert_eq!(reply(&a, &out(false, b"only here\n", b"")).unwrap_err(), "arduino-cli board list: only here");
    assert_eq!(complain(&a, "\tno \n"), "arduino-cli board list: no");
    assert_eq!(unparsed(&a, "EOF"), "parsing arduino-cli board list: EOF");
}

#[test]
fn attaching_needs_an_answer_in_json() {
    let a = args(&["board", "attach", "s"]);
    assert_eq!(attach(&a, &out(true, br#"{"fqbn": "a:b:c"}"#, b"")), Ok(()));
    assert_eq!(attach(&a, &out(true, b"", b"")).unwrap_err(), "parsing arduino-cli board attach s: EOF while parsing a value at line 1 column 0");
    assert!(attach(&a, &out(true, b"{} {}", b"")).is_err());
    assert_eq!(attach(&a, &out(false, b"{}", b"no")).unwrap_err(), "arduino-cli board attach s: no");
    assert_eq!(judge(&a, &out(true, b"", b""), None), Ok(()));
    assert_eq!(judge(&a, &out(true, b"", b""), Some("odd".into())).unwrap_err(), "parsing arduino-cli board attach s: odd");
}

#[test]
fn lines_end_at_either_break() {
    let want = vec![
        (b"one".to_vec(), false),
        (b"10%".to_vec(), true),
        (b"20%".to_vec(), true),
        (b"".to_vec(), false),
        (b"end".to_vec(), false),
    ];
    assert_eq!(read_all(&[b"one\n10%\r20%\r\nend"]), want);
    assert_eq!(read_all(&[b"on", b"e\n1", b"0%", b"\r20%\r", b"\nen", b"d"]), want);
    assert_eq!(read_all(&[]), []);
    assert_eq!(read_all(&[b"\n"]), [(vec![], false)]);
}

#[test]
fn lines_become_events() {
    assert_eq!(read_line(b"caf\xc3\xa9 \t"), "café");
    assert!(matches!(run_event(" x ".into(), true), AppEvent::Progress(l) if l == " x "));
    assert!(matches!(stream(b"10% ", true), AppEvent::Progress(l) if l == "10%"));
    assert!(matches!(stream(b"\xff", false), AppEvent::Log(l) if l == "\u{fffd}"));
    assert!(matches!(monitor(7, b"a \r\n"), AppEvent::Serial(7, s) if s == "a \r\n"));
    assert!(matches!(monitor_line(7, b"a \r"), AppEvent::Serial(7, s) if s == "a\n"));
    assert_eq!(monitor_end(true, "exit status: 0"), Ok(()));
    assert_eq!(monitor_end(false, "exit status: 1").unwrap_err(), "monitor exited (exit status: 1)");
}
