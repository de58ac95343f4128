use mirae_tts_engine::kps9566::Kps9566;

/// The rows of the standard table that the checks below read.
fn table() -> Kps9566 {
    Kps9566::from_txt(
        "# KPS 9566 to Unicode, excerpt\n0x8141\t0xAC03\t# 갃\n0xBCBF\t0xC870\t# 조\n0xB0BC\t0xAC74\t# 건\n0xB0A1\t0xAC00\t# 가\n",
    )
    .unwrap()
}

#[test]
fn decodes_korean_word() {
    let t = table();
    assert_eq!(t.decode(&[0xbc, 0xbf, 0xb0, 0xbc]), "조건");
}

#[test]
fn decodes_ascii_and_mixed() {
    let t = table();
    assert_eq!(t.decode(b"Hello, 2026"), "Hello, 2026");
    assert_eq!(t.decode(&[0x41, 0xb0, 0xa1, 0x21]), "A가!");
}

#[test]
fn unmapped_and_truncated() {
    let t = table();
    assert_eq!(t.decode(&[0xFF, 0xFF]), "\u{FFFD}");
    assert_eq!(t.decode(&[0xb0]), "\u{FFFD}");
    assert_eq!(t.decode(&[0x41, 0xFF, 0xFF]), "A\u{FFFD}");
    assert_eq!(t.get(0xFFFF), None);
}

#[test]
fn parse_error_on_garbage() {
    assert!(Kps9566::from_txt("hello world").is_err());
    assert!(Kps9566::from_txt("0xZZZZ\t0xAC03").is_err());
    let t = Kps9566::from_txt("# comment\n\n0x8141\t0xAC03\t# 갃\n").unwrap();
    assert_eq!(t.len(), 1);
    assert_eq!(t.get(0x8141), Some('\u{AC03}'));
}

#[test]
fn spot_checks_of_excerpt() {
    let t = table();
    assert_eq!(t.len(), 4);
    assert_eq!(t.get(0x8141), Some('\u{AC03}'));
    assert_eq!(t.get(0xBCBF), Some('\u{C870}'));
    assert_eq!(t.get(0xB0BC), Some('\u{AC74}'));
    assert_eq!(t.lookup(0xB0A1), Some(0xAC00));
}

#[test]
fn parse_error_names_line_and_text() {
    let e = Kps9566::from_txt("0x8141 0xAC03\n  0x10000 0x41  \n").unwrap_err();
    assert_eq!(e.line, 2);
    assert_eq!(e.text, "0x10000 0x41");
}

#[test]
fn crlf_lines_and_unsorted_input() {
    let t = Kps9566::from_txt("0xB0A1 0xAC00\r\n0x8141 0xAC03\r\n").unwrap();
    assert_eq!(t.len(), 2);
    assert_eq!(t.decode(&[0x81, 0x41, 0xb0, 0xa1]), "갃가");
}

#[test]
fn surrogate_value_is_no_char() {
    let t = Kps9566::from_txt("0x8141 0xD800\n").unwrap();
    assert_eq!(t.lookup(0x8141), Some(0xD800));
    assert_eq!(t.get(0x8141), None);
    assert_eq!(t.decode(&[0x81, 0x41]), "\u{FFFD}");
}
