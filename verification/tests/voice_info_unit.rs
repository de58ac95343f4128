use mirae_tts_engine::voice_info::{VoiceInfo, VoiceInfoEntry};
#[test]
fn entry0_matches_t1_hexdump() {
    let raw: [u8; 28] = [
        0x86, 0x6d, 0xb3, 0x6e, 0x80, 0x6d, 0x86, 0x6d, 0x00, 0x00, 0x00, 0x00, 0x1a, 0x16,
        0x00, 0x00, 0x50, 0x14, 0x56, 0x00, 0x28, 0x00, 0x01, 0xff, 0xf9, 0xff, 0x00, 0x00,
    ];
    let e = VoiceInfoEntry::from_bytes(&raw);
    assert_eq!(e.phone_cur, 0x6d86);
    assert_eq!(e.phone_prev, 0x6eb3);
    assert_eq!(e.phone_next, 0x6d80);
    assert_eq!(e.phone_cur2, 0x6d86);
    assert_eq!(e.woff, 0);
    assert_eq!(e.wlen, 5658);
    assert_eq!(e.pitch, 0x56);
    assert_eq!(e.classcode, 0x0028);
    assert_eq!(e.flags, 0xff01);
    assert_eq!(e.pause, -7);
    assert_eq!(e.woff_lo, 0);
    assert!(e.is_normal());
    assert!(!e.is_special());
    assert_eq!(VoiceInfoEntry::from_bytes(&e.to_bytes()), e);
}

#[test]
fn parse_rejects_truncated() {
    assert!(VoiceInfo::from_bytes(&[0u8; 3]).is_err());
    assert!(VoiceInfo::from_bytes(&[1, 0, 0, 0]).is_err());
}
