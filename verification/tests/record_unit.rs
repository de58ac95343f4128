use mirae_tts_engine::record::{ProsodyRecord, MARKER_SENTENCE_END};
#[test]
fn roundtrip_bytes() {
    let r = ProsodyRecord {
        prev_code: 0x1234,
        code: 0x6D86,
        marker: 2,
        flags: 0x80,
        tone_class: 0x28,
    };
    let b = r.to_bytes();
    assert_eq!(b.len(), 12);
    assert_eq!(&b[0..2], &[0x34, 0x12]);
    assert_eq!(&b[2..4], &[0x86, 0x6D]);
    assert_eq!(b[4], 2);
    assert_eq!(b[5], 0x80);
    assert_eq!(b[6], 0x28);
    assert_eq!(ProsodyRecord::from_bytes(&b), Some(r));
    assert_eq!(ProsodyRecord::from_bytes(&b[..10]), None);
}

#[test]
fn default_and_new() {
    let r = ProsodyRecord::new(0x0100);
    assert_eq!(r.code, 0x0100);
    assert_eq!(r.tone_class, 0);
    assert_eq!(ProsodyRecord::default().code, 0);
}

#[test]
fn level_and_tone() {
    let r = ProsodyRecord {
        tone_class: 0x35,
        ..ProsodyRecord::new(0)
    };
    assert_eq!(r.tone_level(), 5);
    assert_eq!(r.tone_value(), 3);
    let r = ProsodyRecord {
        tone_class: 0x23,
        ..ProsodyRecord::new(0)
    };
    assert_eq!(r.tone_level(), 3);
    assert_eq!(r.tone_value(), 5);
}

#[test]
fn marker_init_mapping() {
    let mut r = ProsodyRecord::new(0);
    r.init_from_marker(0, true);
    assert_eq!(r.marker, MARKER_SENTENCE_END);
    assert_eq!(r.tone_class, 1);
    assert_eq!(r.flags, 0);
    let mut r = ProsodyRecord::new(0);
    r.init_from_marker(0, false);
    assert_eq!(r.marker, 0);
    assert_eq!(r.tone_class, 0);
    let mut r = ProsodyRecord::new(0);
    r.init_from_marker(0x82, false);
    assert_eq!(r.flags, 1);
    assert_eq!(r.tone_class, 3);
}
