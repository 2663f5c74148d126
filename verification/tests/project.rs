use fluxus::cli::{Board, Detected, Port};
use fluxus::project::{load, resolve, Target, FILE};

fn target(name: &str, fqbn: &str, port: Option<&str>) -> Target {
    Target { name: name.into(), fqbn: fqbn.into(), port: port.map(Into::into), sketch: None }
}

fn detected(addr: &str, fqbn: Option<&str>) -> Detected {
    Detected {
        port: Port { address: addr.into(), ..Default::default() },
        matching_boards: fqbn
            .map(|f| Board { name: f.into(), fqbn: f.into(), core: String::new() })
            .into_iter()
            .collect(),
    }
}

#[test]
fn resolves_ports_like_flash_sh() {
    let boards = [
        target("giga", "arduino:mbed_giga:giga", Some("/dev/cu.usbmodem1101")),
        target("cam 1", "esp32:esp32:esp32cam", Some("/dev/cu.usbserial-110")),
        target("cam 2", "esp32:esp32:esp32cam", Some("/dev/cu.usbserial-120")),
        target("uno", "arduino:avr:uno", None),
    ];
    let ports = [
        detected("/dev/cu.usbserial-110", None),
        detected("/dev/cu.usbmodem1201", Some("arduino:mbed_giga:giga")),
        detected("/dev/cu.usbmodem1301", Some("arduino:avr:uno")),
    ];
    assert_eq!(resolve(&boards, &ports), [Some(1), Some(0), None, Some(2)]);

    let two_same = [target("a", "arduino:avr:uno", None), target("b", "arduino:avr:uno", None)];
    assert_eq!(resolve(&two_same, &ports), [Some(2), None]);
}

#[test]
fn no_port_is_given_twice() {
    let ports = [detected("/dev/a", Some("x:y:z")), detected("/dev/b", None)];
    let boards = [
        target("late", "x:y:z", None),
        target("first", "p:q:r", Some("/dev/a")),
        target("second", "p:q:r", Some("/dev/a")),
    ];
    assert_eq!(resolve(&boards, &ports), [None, Some(0), None]);
    assert_eq!(resolve(&[], &ports), []);
    assert_eq!(resolve(&boards, &[]), [None, None, None]);
}

#[test]
fn blank_files_hold_no_boards() {
    assert_eq!(FILE, "fluxus.yaml");
    assert_eq!(load(None), None);
    assert_eq!(load(Some(" \n\t".into())), None);
    assert_eq!(load(Some("boards: [oops".into())).as_deref(), Some("boards: [oops"));
}
