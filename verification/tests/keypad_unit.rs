use mirae_tts_engine::keypad::{KeyPad, TABLE_BYTES};

#[test]
fn rejects_wrong_size() {
    assert!(KeyPad::parse(&[0u8; 10]).is_none());
    assert!(KeyPad::parse(&[0u8; TABLE_BYTES - 1]).is_none());
}
