use mirae_tts_engine::g2p::exact_hooks::{RawSecondRecord, SecondRecordError, SECOND_RECORD_SIZE};

fn block(count: u32) -> Vec<u8> {
    let mut b = vec![0u8; SECOND_RECORD_SIZE];
    b[0x1db0..0x1db4].copy_from_slice(&count.to_le_bytes());
    b
}

#[test]
fn accepts_a_valid_record() {
    let b = block(3);
    let r = RawSecondRecord::parse(&b).unwrap();
    assert_eq!(r.as_bytes(), &b[..]);
    assert_eq!(r.morph_count(), 3);
}

#[test]
fn rejects_wrong_length() {
    assert_eq!(
        RawSecondRecord::parse(&[0u8; 5]),
        Err(SecondRecordError::InvalidLength { expected: SECOND_RECORD_SIZE, actual: 5 })
    );
}

#[test]
fn rejects_bad_counts() {
    assert_eq!(RawSecondRecord::parse(&block(0)), Err(SecondRecordError::InvalidMorphCount(0)));
    assert_eq!(RawSecondRecord::parse(&block(200)), Err(SecondRecordError::InvalidMorphCount(200)));
    assert!(RawSecondRecord::parse(&block(101)).is_ok());
    assert_eq!(RawSecondRecord::parse(&block(102)), Err(SecondRecordError::InvalidMorphCount(102)));
}

#[test]
fn rejects_unterminated_slots() {
    let mut b = block(2);
    for k in 10 * 0x32..11 * 0x32 {
        b[k] = 0xFF;
    }
    assert_eq!(RawSecondRecord::parse(&b), Err(SecondRecordError::MissingSlotTerminator { index: 10 }));
    let mut c = block(2);
    for k in 11 * 0x32..12 * 0x32 {
        c[k] = 0x41;
    }
    assert_eq!(RawSecondRecord::parse(&c), Err(SecondRecordError::MissingSlotTerminator { index: 11 }));
}
