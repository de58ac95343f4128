use mirae_tts_engine::dict::{key_from_syllables, syllable_to_key};

#[test]
fn syllable_key_conversion() {
    assert_eq!(key_from_syllables(&[0x0420]).unwrap(), vec![0x01, 0x14]);
    assert_eq!(
        key_from_syllables(&[0x3453]).unwrap(),
        vec![0x0d, 0x15, 0x3b]
    );
    assert_eq!(key_from_syllables(&[1 << 10]).unwrap(), vec![0x01]);
    assert_eq!(key_from_syllables(&[1 << 5]).unwrap(), vec![0x14]);
    assert_eq!(key_from_syllables(&[0x0001]).unwrap(), vec![0x29]);
    assert_eq!(key_from_syllables(&[0x001b]).unwrap(), vec![0x43]);
    assert_eq!(
        key_from_syllables(&[(19 << 10) | (21 << 5) | 27]).unwrap(),
        vec![0x13, 0x28, 0x43]
    );
    assert_eq!(key_from_syllables(&[0x8000 | 0x30]).unwrap(), vec![0x46]);
    assert_eq!(key_from_syllables(&[0x8000 | 0x39]).unwrap(), vec![0x4f]);
    assert_eq!(key_from_syllables(&[0x8000 | 0x2d]).unwrap(), vec![0x45]);
    assert_eq!(key_from_syllables(&[0x8000 | 0x2e]).unwrap(), vec![0x44]);
    assert_eq!(key_from_syllables(&[0x8000 | 0x41]), None);
    assert_eq!(key_from_syllables(&[0x0420, 0x8000 | 0x41]), None);
    let mut out = vec![0x01];
    assert!(syllable_to_key(0x0420, &mut out));
    assert_eq!(out, vec![0x01, 0x01, 0x14]);
    assert_eq!(
        key_from_syllables(&[(13 << 10) | (9 << 5) | 7]).unwrap(),
        vec![0x0d, 0x1c, 0x2f]
    );
}
