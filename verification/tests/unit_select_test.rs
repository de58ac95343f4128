use mirae_tts_engine::unit_select::{is_pause, is_real_phoneme};

#[test]
fn helper_predicates_against_spec() {
    assert!(is_pause(0x1b, 0x12));
    assert!(is_pause(0x12, 0x1));
    assert!(is_pause(6, 3));
    assert!(!is_pause(0x1b, 0x10));
    assert!(!is_pause(0, 0));
    assert!(is_real_phoneme(0x1b, 5));
    assert!(!is_real_phoneme(0, 1));
    assert!(!is_real_phoneme(6, 3));
}
