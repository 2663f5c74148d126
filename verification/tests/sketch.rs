use fluxus::sketch::{
    find, get_baud, is_folder, load_baud, main_file, save_baud, set_baud, top_level, yaml_value, Folder, Resolved, Spot,
};

#[test]
fn baud_roundtrip_keeps_the_rest() {
    let yaml = "# mine\nprofiles:\n  uno:\n    fqbn: arduino:avr:uno\n    port_config:\n      baudrate: 300\n\
                default_port_config:\n    parity: none\n    baudrate: \"57600\" # fast\ndefault_fqbn: arduino:avr:nano\n";
    assert_eq!(get_baud(yaml), Some(57600));
    let out = set_baud(yaml, 115200).unwrap();
    assert_eq!(get_baud(&out), Some(115200));
    assert_eq!(out, yaml.replace("    baudrate: \"57600\" # fast", "    baudrate: 115200"));

    let added = set_baud("default_fqbn: a:b:c\ndefault_port_config:\n  parity: none\n", 9600).unwrap();
    assert_eq!(added, "default_fqbn: a:b:c\ndefault_port_config:\n  baudrate: 9600\n  parity: none\n");
    assert_eq!(set_baud("", 9600).unwrap(), "default_port_config:\n  baudrate: 9600\n");
    assert_eq!(get_baud("profiles:\n  x:\n    port_config:\n      baudrate: 300\n"), None);
    assert!(set_baud("default_port_config: {baudrate: 9600}\n", 300).is_err());
}

#[test]
fn an_inline_entry_is_left_alone() {
    assert_eq!(
        set_baud("default_port_config: {baudrate: 9600}\n", 300).unwrap_err(),
        "default_port_config in sketch.yaml is inline; set the baud there by hand"
    );
    assert_eq!(
        set_baud("default_port_config: # soon\n", 300).unwrap(),
        "default_port_config: # soon\n  baudrate: 300\n"
    );
}

#[test]
fn the_last_baud_wins() {
    for yaml in [
        "",
        "default_fqbn: a:b:c\n",
        "default_port_config:\n  parity: none\nx: y",
        "default_port_config: # soon\n\n\tbaudrate: 'x' # fast\n  baudrate: 7\nz:\n  baudrate: 1\n",
    ] {
        let once = set_baud(yaml, 9600).unwrap();
        assert_eq!(set_baud(&once, 9600).unwrap(), once);
        assert_eq!(set_baud(&once, 300).unwrap(), set_baud(yaml, 300).unwrap());
    }
}

#[test]
fn carriage_returns_do_not_hide_the_baud() {
    let yaml = "default_port_config:\r\n  baudrate: 9600\r\nx: y";
    assert_eq!(get_baud(yaml), Some(9600));
    let out = set_baud(yaml, 300).unwrap();
    assert_eq!(out, "default_port_config:\n  baudrate: 300\nx: y\n");
    let odd = "default_port_config:\r\r\n";
    let out = set_baud(odd, 300).unwrap();
    assert_eq!(out, "default_port_config:\r\n  baudrate: 300\n");
    assert_eq!(get_baud(&out), Some(300));
}

#[test]
fn a_baud_that_is_no_number_reads_as_none() {
    assert_eq!(get_baud("default_port_config:\n  baudrate: fast\n"), None);
    assert_eq!(get_baud("default_port_config:\n  baudrate: 4294967296\n"), None);
    assert_eq!(get_baud("default_port_config:\n  baudrate: '+300'\n"), Some(300));
    assert_eq!(get_baud("default_port_config:\n\n# note\n\tbaudrate: 300\n"), Some(300));
}

#[test]
fn nothing_is_written_where_the_baud_is_set() {
    assert_eq!(save_baud("default_port_config:\n  baudrate: 300\n", 300), Ok(None));
    assert_eq!(save_baud("", 300), Ok(Some("default_port_config:\n  baudrate: 300\n".to_string())));
    assert!(save_baud("default_port_config: {}\n", 300).is_err());
    let out = save_baud("a: b", 1200).unwrap().unwrap();
    assert_eq!(save_baud(&out, 1200), Ok(None));
    assert_eq!(load_baud(&Some(out)), Some(1200));
    assert_eq!(load_baud(&None), None);
}

#[test]
fn top_level_lines() {
    assert!(top_level("a: b"));
    assert!(!top_level(" a: b"));
    assert!(!top_level("\ta: b"));
    assert!(!top_level("# a"));
    assert!(!top_level("\u{a0}"));
    assert!(!top_level(""));
}

#[test]
fn yaml_values() {
    let yaml = "# default_fqbn: no\ndefault_fqbn: arduino:avr:uno # mine\ndefault_port: '/dev/ttyUSB0'\nempty:\n";
    assert_eq!(yaml_value(yaml, "default_fqbn:").as_deref(), Some("arduino:avr:uno"));
    assert_eq!(yaml_value(yaml, "default_port:").as_deref(), Some("/dev/ttyUSB0"));
    assert_eq!(yaml_value(yaml, "empty:"), None);
    assert_eq!(yaml_value(yaml, "absent:"), None);
}

fn folder(shown: &str, name: Option<&str>, has_main: bool) -> Folder {
    Folder { shown: shown.into(), name: name.map(Into::into), has_main }
}

#[test]
fn finds_a_sketch_by_what_the_path_leads_to() {
    let blink = || folder("/x/Blink", Some("Blink"), true);
    let x = || folder("/x", Some("x"), false);
    let dir = Some(Resolved { is_file: false, itself: blink(), parent: Some(x()) });
    assert_eq!(find("Blink", &dir), Ok(Spot::Itself));
    let ino = Some(Resolved { is_file: true, itself: folder("/x/Blink/Blink.ino", Some("Blink.ino"), false), parent: Some(blink()) });
    assert_eq!(find("Blink/Blink.ino", &ino), Ok(Spot::Parent));
    let root = Some(Resolved { is_file: false, itself: x(), parent: None });
    assert_eq!(find("x", &root), Err("no sketch: /x has no x.ino".to_string()));
    assert_eq!(find("missing", &None), Err("missing not found".to_string()));
    let alone = Some(Resolved { is_file: true, itself: blink(), parent: None });
    assert_eq!(find("f", &alone), Err("sketch has no parent folder".to_string()));
    let nameless = Some(Resolved { is_file: false, itself: folder("/", None, false), parent: None });
    assert_eq!(find("/", &nameless), Err("sketch folder has no name".to_string()));
    assert_eq!(main_file("Blink"), "Blink.ino");
    assert!(is_folder("cam/main") && !is_folder("scratchpad/motor_test.ino"));
}
