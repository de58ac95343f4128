use mirae_tts_engine::record::ProsodyRecord;
use mirae_tts_engine::tone::{apply_sandhi, build_sentence};

#[test]
fn sandhi_pipeline_with_built_records() {
    let mut buf: Vec<ProsodyRecord> = Vec::new();
    let mut s1 = build_sentence(&[0x0100, 0x0101], &[0, 0]);
    apply_sandhi(&mut buf, &mut s1);
    let mut s2 = build_sentence(&[0x0200, 0x0201], &[2, 1]);
    apply_sandhi(&mut buf, &mut s2);

    assert_eq!(buf.len(), 4);
    assert_eq!(buf[0].tone_class, 40);
    assert_eq!(buf[1].tone_class, 1);
    assert_eq!(buf[1].marker, 1);
    assert_eq!(buf[2].tone_class, 13);
    assert_eq!(buf[2].marker, 2);
    assert_eq!(buf[3].tone_class, 31);
    assert_eq!(buf[3].marker, 0);
}

#[test]
fn sandhi_case5_chain() {
    let mut buf: Vec<ProsodyRecord> = Vec::new();
    let mut s1 = build_sentence(&[0x0100, 0x0101], &[6, 6]);
    apply_sandhi(&mut buf, &mut s1);
    assert_eq!(buf[0].tone_class, 45);
    assert_eq!(buf[1].tone_class, 5 + 0x1E);

    let mut s2 = build_sentence(&[0x0200, 0x0201], &[1, 1]);
    apply_sandhi(&mut buf, &mut s2);
    assert_eq!(buf[1].tone_class, 5);
    assert_eq!(buf[2].tone_class, 51);
    assert_eq!(buf[3].tone_class, 11);
}

#[test]
fn record_serialization_12_bytes() {
    let r = ProsodyRecord {
        prev_code: 0x0001,
        code: 0x6D86,
        marker: 2,
        flags: 0,
        tone_class: 0x28,
    };
    let b = r.to_bytes();
    assert_eq!(b.len(), 12);
    let r2 = ProsodyRecord::from_bytes(&b).unwrap();
    assert_eq!(r, r2);
    // bytes: +0 prev, +2 cur, +4 marker, +5 flags, +6 class
    assert_eq!(&b[0..2], &[0x01, 0x00]);
    assert_eq!(&b[2..4], &[0x86, 0x6D]);
    assert_eq!(b[4], 2);
    assert_eq!(b[6], 0x28);
}

