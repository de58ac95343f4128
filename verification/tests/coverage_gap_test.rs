use mirae_tts_engine::alphabet::{ascii_letter_reading, is_letter_reading_type, letter_reading_dispatch};

#[test]
fn alphabet_ascii_readings() {
    assert_eq!(
        ascii_letter_reading(b'a').unwrap(),
        &[0xcb, 0xe6, 0xcb, 0xcb]
    );
    assert_eq!(
        ascii_letter_reading(b'A').unwrap(),
        &[0xcb, 0xe6, 0xcb, 0xcb]
    );
    assert_eq!(
        ascii_letter_reading(b'z').unwrap(),
        &[0xbd, 0xa3, 0xc0, 0xe2]
    );
    assert!(ascii_letter_reading(b'0').is_none());
}

#[test]
fn alphabet_type_gate() {
    assert!(is_letter_reading_type(0x1f));
    assert!(is_letter_reading_type(0x22));
    assert!(!is_letter_reading_type(0x21));
    assert!(!is_letter_reading_type(0x14));
}

#[test]
fn alphabet_dispatch_single_and_jamo() {
    let r = letter_reading_dispatch(b"a");
    assert_eq!(r.len(), 1);
    assert_eq!(r[0].bytes, vec![0xcb, 0xe6, 0xcb, 0xcb]);
    let r2 = letter_reading_dispatch(&[0xA4, 0xA1]);
    assert_eq!(r2.len(), 1);
    assert!(!r2[0].bytes.is_empty());
}

