use mirae_tts_engine::kps9566::Kps9566;
use mirae_tts_engine::speech::SpeechDict;

fn ascii_table() -> Kps9566 {
    Kps9566::from_txt("").unwrap()
}

#[test]
fn test_parse_simple() {
    let mut dict = SpeechDict::new();
    dict.parse_bytes(b"hello\tworld\r\nfoo\tbar\r\n", &ascii_table());
    assert_eq!(dict.len(), 2);
    assert_eq!(dict.lookup("hello"), Some("world"));
    assert_eq!(dict.lookup("foo"), Some("bar"));
    assert_eq!(dict.lookup("missing"), None);
}

#[test]
fn test_parse_empty() {
    let mut dict = SpeechDict::new();
    dict.parse_bytes(b"", &ascii_table());
    assert_eq!(dict.len(), 0);
}

#[test]
fn test_parse_no_tab() {
    let mut dict = SpeechDict::new();
    dict.parse_bytes(b"no_tab_here\r\n", &ascii_table());
    assert_eq!(dict.len(), 0);
}

#[test]
fn test_parse_lf_only() {
    let mut dict = SpeechDict::new();
    dict.parse_bytes(b"word\tpron\n", &ascii_table());
    assert_eq!(dict.len(), 1);
    assert_eq!(dict.lookup("word"), Some("pron"));
}

#[test]
fn later_line_replaces_earlier_reading() {
    let mut dict = SpeechDict::new();
    dict.parse_bytes(b"w\tone\nw\ttwo\n\tx\ny\t\n", &ascii_table());
    assert_eq!(dict.len(), 1);
    assert_eq!(dict.lookup("w"), Some("two"));
}

#[test]
fn kps_codes_decode_through_table() {
    let table = Kps9566::from_txt("0x8141 0xAC03\n").unwrap();
    let mut dict = SpeechDict::new();
    dict.parse_bytes(&[0x81, 0x41, 0x09, b'a', 0x0a], &table);
    assert_eq!(dict.lookup("\u{AC03}"), Some("a"));
}
