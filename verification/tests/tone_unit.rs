use mirae_tts_engine::record::{ProsodyRecord, MARKER_SENTENCE_END, MARKER_SPECIAL};
use mirae_tts_engine::tone::{
    apply_sandhi, build_sentence, initial_tone_class, normalize_class, normalize_voiceinfo_class,
    NORMALIZED_CLASSES, PAUSE_CODE,
};
#[test]
fn initial_class_mapping() {
    assert_eq!(initial_tone_class(0), 0);
    assert_eq!(initial_tone_class(1), 1);
    assert_eq!(initial_tone_class(2), 3);
    assert_eq!(initial_tone_class(3), 2);
    assert_eq!(initial_tone_class(4), 0);
    assert_eq!(initial_tone_class(5), 3);
    assert_eq!(initial_tone_class(6), 5);
    assert_eq!(initial_tone_class(7), 4);
    assert_eq!(initial_tone_class(0x82), 3);
}

#[test]
fn build_sentence_records() {
    let s = build_sentence(&[0x0100, 0x0101, 0x0102], &[0, 3, 0]);
    assert_eq!(s.len(), 3);
    assert_eq!(s[0].tone_class, 0);
    assert_eq!(s[0].marker, 0);
    assert_eq!(s[1].tone_class, 2);
    assert_eq!(s[2].tone_class, 1);
    assert_eq!(s[2].marker, MARKER_SENTENCE_END);
    let s = build_sentence(&[0x0100], &[0x83]);
    assert_eq!(s[0].flags, 1);
    assert_eq!(s[0].tone_class, 2);
}

#[test]
fn normalize_class_roundtrip() {
    for (i, &cls) in NORMALIZED_CLASSES.iter().enumerate() {
        assert_eq!(normalize_class(cls), Some(i as u8));
    }
    assert_eq!(normalize_class(0x28), Some(0));
    assert_eq!(normalize_class(0x1E), Some(2));
    assert_eq!(normalize_class(2), None);
    assert_eq!(normalize_class(0xFF), None);
    assert_eq!(normalize_class(5), None);
}

#[test]
fn normalize_voiceinfo_class_remaps() {
    assert_eq!(normalize_voiceinfo_class(21), Some(8));
    assert_eq!(normalize_voiceinfo_class(12), Some(9));
    assert_eq!(normalize_voiceinfo_class(15), Some(7));
    assert_eq!(normalize_voiceinfo_class(1), Some(5));
    assert_eq!(normalize_voiceinfo_class(40), Some(0));
}

#[test]
fn sandhi_first_sentence() {
    let mut buf: Vec<ProsodyRecord> = Vec::new();
    let mut s1 = build_sentence(&[0x0100, 0x0101], &[0, 0]);
    apply_sandhi(&mut buf, &mut s1);
    assert_eq!(buf[0].tone_class, 0x28);
    assert_eq!(buf[1].tone_class, 1);
    assert_eq!(buf[1].marker, MARKER_SENTENCE_END);
}

#[test]
fn sandhi_prev5_sets_prev_class_to_5() {
    let mut buf: Vec<ProsodyRecord> = Vec::new();
    let mut s1 = build_sentence(&[0x0100, 0x0101], &[6, 6]);
    apply_sandhi(&mut buf, &mut s1);
    assert_eq!(buf[0].tone_class, 45);
    assert_eq!(buf[1].tone_class, 5 + 0x1E);

    let mut s2 = build_sentence(&[0x0200, 0x0201], &[1, 1]);
    apply_sandhi(&mut buf, &mut s2);
    assert_eq!(buf[1].tone_class, 5);
    assert_eq!(buf[2].tone_class, 51);
    assert_eq!(buf[3].tone_class, 11);
}

#[test]
fn sandhi_boundary_marker_linking() {
    let mut buf: Vec<ProsodyRecord> = Vec::new();
    let mut s1 = build_sentence(&[0x0100, 0x0101], &[0, 0]);
    apply_sandhi(&mut buf, &mut s1);
    assert_eq!(buf[0].tone_class, 0x28);
    assert_eq!(buf[1].tone_class, 1);
    assert_eq!(buf[1].marker, MARKER_SENTENCE_END);

    let mut s2 = build_sentence(&[0x0200, 0x0201], &[2, 1]);
    apply_sandhi(&mut buf, &mut s2);
    assert_eq!(buf[2].tone_class, 13);
    assert_eq!(buf[2].marker, MARKER_SPECIAL);
    assert_eq!(buf[3].tone_class, 31);
}

#[test]
fn sandhi_default_adds_prev_tone_times_10() {
    let mut buf: Vec<ProsodyRecord> = Vec::new();
    let mut s1 = build_sentence(&[0x0100, 0x0101, 0x0102], &[0, 3, 1]);
    apply_sandhi(&mut buf, &mut s1);
    assert_eq!(buf[0].tone_class, 0x28);
    assert_eq!(buf[1].tone_class, 2);
    assert_eq!(buf[2].tone_class, 21);
}

#[test]
fn sandhi_single_record_sentence() {
    let mut buf: Vec<ProsodyRecord> = Vec::new();
    let mut s1 = build_sentence(&[0x0100], &[0]);
    apply_sandhi(&mut buf, &mut s1);
    assert_eq!(buf[0].tone_class, 1 % 10 + 0x28);
    assert_eq!(buf[0].marker, MARKER_SENTENCE_END);
    let mut s2 = build_sentence(&[0x0200], &[0]);
    apply_sandhi(&mut buf, &mut s2);
    assert_eq!(buf[1].marker, MARKER_SPECIAL);
    assert_eq!(buf[1].tone_class, 11);
}

#[test]
fn sandhi_empty_sentence_noop() {
    let mut buf: Vec<ProsodyRecord> = Vec::new();
    let mut s: Vec<ProsodyRecord> = Vec::new();
    apply_sandhi(&mut buf, &mut s);
    assert!(buf.is_empty());
}

#[test]
fn sandhi_first_record_no_previous_adjustment() {
    let mut buf: Vec<ProsodyRecord> = Vec::new();
    let mut s1 = build_sentence(&[0x0100], &[7]);
    apply_sandhi(&mut buf, &mut s1);
    assert_eq!(buf[0].tone_class, 4 % 10 + 0x28);
}

#[test]
fn previous_tone_five_from_the_buffer_pins_the_buffer_record() {
    let mut buf = vec![ProsodyRecord { tone_class: 45, ..ProsodyRecord::new(0x0100) }];
    let mut sentence = vec![
        ProsodyRecord::new(PAUSE_CODE),
        ProsodyRecord { tone_class: 1, ..ProsodyRecord::new(0x0200) },
    ];
    apply_sandhi(&mut buf, &mut sentence);
    assert_eq!(buf.len(), 3);
    assert_eq!(buf[0].tone_class, 5);
    assert_eq!(buf[1].tone_class, 50);
    assert_eq!(buf[2].tone_class, 31);
}
