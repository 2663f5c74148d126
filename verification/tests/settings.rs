use fluxus::app::BAUDS;
use fluxus::settings::{load, path, step_in, step_name, Base, Settings, ROWS, THEMES};

#[test]
fn steps_wrap_both_ways() {
    let mut s = Settings::default();
    s.step(0, -1);
    assert_eq!(s.theme, "mono");
    s.step(0, 1);
    assert_eq!(s.theme_index(), 0);
    s.step(2, 1);
    assert_eq!(s.eol(), "\r\n");
    s.baud = 2000000;
    s.step(1, 1);
    assert_eq!(s.baud, 300);
    let read: serde_norway::Value = serde_norway::from_str("verbose: true\n").unwrap();
    let partial = load(Some(Settings { verbose: read["verbose"].as_bool().unwrap(), ..Settings::default() }));
    assert!(partial.verbose && partial.baud == 9600);
}

#[test]
fn rows_show_the_values() {
    let mut s = Settings::default();
    s.step(3, 1);
    let rows = s.rows();
    assert_eq!(rows.len(), ROWS);
    assert_eq!(
        rows.map(|(k, v)| (k, v)),
        [
            ("theme", "fluxus".to_string()),
            ("default baud", "9600".to_string()),
            ("send line ending", "lf".to_string()),
            ("verbose compile", "on".to_string()),
        ]
    );
}

#[test]
fn unknown_values_step_from_the_first() {
    let mut s = Settings { theme: "neon".into(), baud: 1, line_ending: "?".into(), verbose: false };
    assert_eq!(s.theme_index(), 0);
    assert_eq!(s.eol(), "\n");
    s.step(0, 1);
    assert_eq!(s.theme, THEMES[1]);
    s.step(1, -1);
    assert_eq!(s.baud, BAUDS[14]);
    s.step(2, -1);
    assert_eq!((s.line_ending.as_str(), s.eol()), ("none", ""));
    s.step(7, 0);
    assert!(s.verbose);
    s.step(0, isize::MIN);
    assert_eq!(s.theme, THEMES[1]);
}

#[test]
fn a_step_and_its_opposite_cancel_out() {
    for row in 0..ROWS {
        for by in [1, 2, -3, 14] {
            let mut s = Settings::default();
            s.step(row, by);
            s.step(row, -by);
            assert_eq!(s, Settings::default());
        }
    }
}

#[test]
fn steps_add_up() {
    let list = [3, 1, 4, 15];
    for cur in list {
        for (a, b) in [(0, 0), (1, -1), (3, 7), (-5, 2), (-1000, 999)] {
            assert_eq!(step_in(&list, step_in(&list, cur, a), b), step_in(&list, cur, a + b));
        }
        assert_eq!(step_in(&list, cur, 0), cur);
        assert_eq!(step_in(&list, cur, 4), cur);
    }
    assert_eq!(step_in(&list, 9, 2), step_in(&list, 3, 2));
    assert_eq!(step_in(&list, 9, 2), 4);
    assert_eq!(step_name(&THEMES, "mono", 1), "fluxus");
}

#[test]
fn the_way_to_the_settings() {
    assert_eq!(path(true, true), Some((Base::Config, vec!["fluxus", "settings.yaml"])));
    assert_eq!(path(false, true), Some((Base::Home, vec![".config", "fluxus", "settings.yaml"])));
    assert_eq!(path(false, false), None);
    assert_eq!(load(None), Settings::default());
    let s = Settings { verbose: true, ..Settings::default() };
    assert_eq!(load(Some(s.clone())), s);
}
