use fluxus::text;

#[test]
fn characters_are_told_apart_as_in_std() {
    for c in (0..=0x10ffffu32).filter_map(char::from_u32) {
        assert_eq!(text::is_white(c), c.is_whitespace(), "{c:?}");
        assert_eq!(text::is_control(c), c.is_control(), "{c:?}");
    }
}

#[test]
fn texts_are_cut_as_in_std() {
    for s in ["", " a b\t", "\u{a0}é\u{2003}", "x\r\ny\n\nz", "\r", "a\n", "a/b//", "/", "a.b"] {
        assert_eq!(text::trim(s), s.trim());
        assert_eq!(text::trim_start(s), s.trim_start());
        assert_eq!(text::trim_end(s), s.trim_end());
        assert_eq!(text::lines_of(s), s.lines().collect::<Vec<_>>());
        assert_eq!(text::split_of(s, '/'), s.split('/').collect::<Vec<_>>());
        assert_eq!(text::until(s, '.'), s.split('.').next().unwrap());
        assert_eq!(text::to_small(s), s.to_ascii_lowercase());
        assert_eq!(text::pad(s, 4), format!("{s:<4}"));
        for p in ["", "a", " ", "\n", "a/"] {
            assert_eq!(text::starts_with(s, p), s.starts_with(p));
            assert_eq!(text::ends_with(s, p), s.ends_with(p));
            assert_eq!(text::contains(s, p), s.contains(p));
            assert_eq!(text::strip_prefix(s, p), s.strip_prefix(p).map(String::from));
            assert_eq!(text::is_before(s, p), s < p);
            assert_eq!(text::is_before(p, s), p < s);
            assert_eq!(text::remove(s, p), s.replace(p, ""));
        }
    }
    assert_eq!(text::to_small("AZ[@ÄÖ`az"), "az[@ÄÖ`az");
    assert_eq!(text::pad("äö", 3), "äö ");
    assert!(text::is_before("\u{ffff}", "\u{10000}"));
    assert_eq!(text::remove("aaab", "aa"), "ab");
}

#[test]
fn numbers_are_read_and_written_as_in_std() {
    for n in [0, 7, 10, 9600, 2000000, u64::MAX] {
        assert_eq!(text::number(n), n.to_string());
        assert_eq!(text::parse(&n.to_string(), u64::MAX), Some(n));
    }
    for s in ["", "+", "+5", "-5", "007", " 7", "4294967295", "4294967296", "18446744073709551616", "1e3", "٣"] {
        assert_eq!(text::parse(s, u32::MAX as u64), s.parse::<u32>().ok().map(u64::from), "{s:?}");
        assert_eq!(text::parse(s, u64::MAX), s.parse::<u64>().ok(), "{s:?}");
    }
}

#[test]
fn lines_are_joined() {
    let parts: Vec<String> = ["a", "", "b"].map(String::from).to_vec();
    assert_eq!(text::join(&parts, ", "), "a, , b");
    assert_eq!(text::unlines_of(&parts), "a\n\nb\n");
    assert_eq!(text::blank(3), "   ");
}
