use mirae_tts_engine::g2p::g2p_dict::{key_str_to_codes, merge_finals, morph_type_code, split_finals};

#[test]
fn key_str_to_codes_conversion() {
    assert_eq!(key_str_to_codes(&[0x01, 0x14]).unwrap(), vec![0x0420]);
    assert_eq!(
        key_str_to_codes(&[0x0d, 0x1c, 0x01, 0x18, 0x2c]).unwrap(),
        vec![0x3520, 0x04A4]
    );
    assert_eq!(key_str_to_codes(&[0x46]).unwrap(), vec![0x8030]);
    assert_eq!(key_str_to_codes(&[0x45]).unwrap(), vec![0x802d]);
    assert_eq!(key_str_to_codes(&[0x44]).unwrap(), vec![0x802e]);
    assert!(key_str_to_codes(&[0x00]).is_none());
}

#[test]
fn split_and_merge_finals() {
    let split = split_finals(&[0x1127]);
    assert_eq!(split, vec![0x1120, 0x0007]);
    assert_eq!(merge_finals(&split), vec![0x1127]);
    assert_eq!(split_finals(&[0x0420]), vec![0x0420]);
    assert_eq!(split_finals(&[0x1124]), vec![0x1124]);
}

#[test]
fn classify_candidate_kinds() {
    assert_eq!(super_classify(&[0x8030, 0x8031]), 1);
    assert_eq!(super_classify(&[0x8000 | 0x2d]), 2);
    assert_eq!(super_classify(&[0x8030, 0x8000 | 0x2d]), 3);
    assert_eq!(super_classify(&[0x0420]), 0x10);
}

#[test]
fn morph_type_code_mapping() {
    assert_eq!(morph_type_code(0x14), Some(0x8030));
    assert_eq!(morph_type_code(0x16), Some(0x8032));
    assert_eq!(morph_type_code(0x1f), Some(0x803b));
    assert_eq!(morph_type_code(0x13), None);
    assert_eq!(morph_type_code(0x20), None);
}

fn super_classify(codes: &[u16]) -> u8 {
    mirae_tts_engine::g2p::g2p_dict::classify_candidate(codes)
}
