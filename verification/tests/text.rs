use jump_list::text;

#[test]
fn lines_end_at_newlines() {
    let cases = [
        "", "a", "a\n", "a\nb", "a\r\nb\r\n", "a\r", "a\rb\n", "\n", "\n\n", "a\n\nb", "a\r\r\nb", "\r\n",
        "é\nß\r\n日本",
    ];
    for case in cases {
        let expected: Vec<String> = case.lines().map(|line| line.to_string()).collect();
        assert_eq!(text::lines(case), expected, "{:?}", case);
    }
    assert_eq!(text::lines("a\r\nb\n"), vec!["a".to_string(), "b".to_string()]);
}

#[test]
fn splits_take_the_outermost_separator() {
    assert_eq!(
        text::split_once("a@b@c", '@'),
        Some(("a".to_string(), "b@c".to_string()))
    );
    assert_eq!(
        text::rsplit_once("a:b:c", ':'),
        Some(("a:b".to_string(), "c".to_string()))
    );
    assert_eq!(text::split_once("abc", '@'), None);
    assert_eq!(text::rsplit_once("abc", ':'), None);
    assert_eq!(text::split_once("@", '@'), Some((String::new(), String::new())));
    assert_eq!(
        text::rsplit_once("é:ß", ':'),
        Some(("é".to_string(), "ß".to_string()))
    );
}

#[test]
fn prefixes_are_stripped() {
    assert_eq!(text::strip_prefix("remote:ssh", "remote:"), Some("ssh".to_string()));
    assert_eq!(text::strip_prefix("remote", "remote:"), None);
    assert_eq!(text::strip_prefix("xremote:", "remote:"), None);
}

#[test]
fn parts_are_joined() {
    let parts = vec!["a".to_string(), String::new(), "c".to_string()];
    assert_eq!(text::join(&parts, ", "), "a, , c");
    assert_eq!(text::join(&vec!["a".to_string()], ", "), "a");
    assert_eq!(text::join(&vec![], ", "), "");
}

#[test]
fn joined_lines_are_read_back() {
    let parts = vec!["/a".to_string(), String::new(), "c\r".to_string()];
    assert_eq!(text::lines(&text::join(&parts, "\n")), parts);
}

#[test]
fn numbers_in_decimal() {
    for n in [0, 7, 10, 99, 100, 65535, u64::MAX] {
        assert_eq!(text::decimal_text(n), n.to_string());
    }
}

#[test]
fn ports_are_parsed() {
    let cases = [
        "", "+", "-1", "0", "22", "+22", "0022", "65535", "65536", "99999999999999999999", "22 ", " 22", "2x",
        "++2", "٢",
    ];
    for case in cases {
        assert_eq!(text::parse_port(case), case.parse::<u16>().ok(), "{:?}", case);
    }
    assert_eq!(text::parse_port("2222"), Some(2222));
}

#[test]
fn ports_are_read_back() {
    for port in 0..=u16::MAX {
        assert_eq!(text::parse_port(&text::decimal_text(port as u64)), Some(port));
    }
}

#[test]
fn texts_are_compared() {
    assert!(text::same_text("path", "path"));
    assert!(!text::same_text("path", "Path"));
    assert_eq!(text::characters("aß日"), vec!['a', 'ß', '日']);
}
