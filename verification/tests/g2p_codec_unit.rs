use mirae_tts_engine::g2p::g2p_dict::{
    candidate_substrings, codes_to_kps_bytes, decimal_codes, kps_bytes_to_codes,
    kps_code_to_phoneme, kps_final_class, phoneme_codes_from_syllables, sino_integer_codes,
    sino_integer_kps_syllables, to_phoneme_code, KpsTables, MAX_CANDIDATES,
};

/// An evenly spaced block: row `r` (1..=19) starts at 0xB0A1 + 0x180 * (r - 1); column `c`
/// (1..=21) of a row starts 0x13 * (c - 1) after the row. The first column of every onset holds
/// finals of classes 0, 2 and 5.
fn tables() -> KpsTables {
    let row_starts: Vec<u16> = (0..19u16).map(|i| 0xB0A1 + 0x180 * i).collect();
    let mut col_starts = vec![0xffffu16; 421];
    for r in 1..=19usize {
        for c in 1..=21usize {
            col_starts[r * 21 + c] = 0xB0A1 + 0x180 * (r as u16 - 1) + 0x13 * (c as u16 - 1);
        }
    }
    let mut col_masks = vec![0u32; 399];
    for onset in 0..19usize {
        col_masks[onset * 21] = 0b100101;
    }
    KpsTables {
        row_starts,
        col_starts,
        col_masks,
        sino_digits: (0..10u16).map(|d| 0xB0A1 + d).collect(),
        sino_units: (0..6u16).map(|u| 0xB0B4 + u).collect(),
    }
}

#[test]
fn syllable_bytes_to_codes_and_back() {
    let t = tables();
    assert_eq!(kps_bytes_to_codes(&t, &[0xB0, 0xA1]), Some(vec![0x0420]));
    assert_eq!(kps_bytes_to_codes(&t, &[0xB0, 0xA2]), Some(vec![0x0421]));
    assert_eq!(codes_to_kps_bytes(&t, &[0x0420, 0x0421]), Some(vec![0xB0, 0xA1, 0xB0, 0xA2]));
}

#[test]
fn ascii_and_symbol_codes() {
    let t = tables();
    assert_eq!(kps_bytes_to_codes(&t, b"1-."), Some(vec![0x8031, 0x802d, 0x802e]));
    assert_eq!(kps_bytes_to_codes(&t, &[0xA3, 0xB5]), Some(vec![0x8035]));
    assert_eq!(kps_bytes_to_codes(&t, &[0xA1, 0xAF]), Some(vec![0x802d]));
    assert_eq!(kps_bytes_to_codes(&t, &[0xA1, 0xA4]), Some(vec![0x802e]));
    assert_eq!(kps_bytes_to_codes(&t, &[0xA1, 0xB2]), Some(vec![0x81B2]));
    assert_eq!(codes_to_kps_bytes(&t, &[0x8031, 0x802e]), Some(vec![b'1', b'.']));
}

#[test]
fn truncated_and_invalid_codes() {
    let t = tables();
    assert_eq!(kps_bytes_to_codes(&t, &[0x41, 0xB0]), None);
    assert_eq!(codes_to_kps_bytes(&t, &[0x0020]), None);
    assert_eq!(codes_to_kps_bytes(&t, &[0x7C20]), None);
}

#[test]
fn phoneme_codes_of_syllables() {
    let t = tables();
    assert_eq!(to_phoneme_code(&t, 0x0420), 0x6C00);
    assert_eq!(to_phoneme_code(&t, 0x0421), 0x0000);
    assert_eq!(to_phoneme_code(&t, 0x0422), 0x0800);
    assert_eq!(to_phoneme_code(&t, 0x0423), 0x1400);
    assert_eq!(to_phoneme_code(&t, 0x8031), 0x8031);
    assert_eq!(phoneme_codes_from_syllables(&t, &[0x0420, 0x0422]), vec![0x6C00, 0x0800]);
    assert_eq!(kps_code_to_phoneme(&t, 0xB0A1), 0x6C00);
    assert_eq!(kps_code_to_phoneme(&t, 0x4141), 0);
}

#[test]
fn final_classes() {
    let t = tables();
    assert_eq!(kps_final_class(&t, 0xB0A1), 27);
    assert_eq!(kps_final_class(&t, 0xB0A2), 0);
    assert_eq!(kps_final_class(&t, 0xB0A3), 2);
    assert_eq!(kps_final_class(&t, 0xB0A4), 5);
    assert_eq!(kps_final_class(&t, 0x4141), 27);
}

#[test]
fn sino_place_value_reading() {
    let t = tables();
    assert_eq!(sino_integer_kps_syllables(&t, &[1, 5, 0, 0]), vec![0xB0B6, 0xB0A6, 0xB0B5]);
    assert_eq!(sino_integer_kps_syllables(&t, &[3, 5]), vec![0xB0A4, 0xB0B4, 0xB0A6]);
    assert_eq!(sino_integer_kps_syllables(&t, &[0, 0]), vec![0xB0A1]);
    assert_eq!(sino_integer_kps_syllables(&t, &[1, 0, 0, 0, 0]), vec![0xB0B7]);
    assert_eq!(sino_integer_kps_syllables(&t, &[2, 0, 0, 0, 1]), vec![0xB0A3, 0xB0B7, 0xB0A2]);
    let codes = sino_integer_codes(&t, &[3, 5]);
    assert_eq!(codes.len(), 3);
    assert_eq!(codes[0], kps_code_to_phoneme(&t, 0xB0A4));
}

#[test]
fn decimal_reading() {
    let t = tables();
    let point = kps_code_to_phoneme(&t, 0xC9B0);
    assert_eq!(decimal_codes(&t, &[2], &[0]), vec![0x1532, point, 0x4863]);
    assert_eq!(decimal_codes(&t, &[], &[]), vec![point]);
    assert_eq!(decimal_codes(&t, &[1], &[]), vec![kps_code_to_phoneme(&t, 0xB0A2), point]);
}

#[test]
fn candidates_by_start_then_length() {
    let c = candidate_substrings(&[1, 2, 3]);
    assert_eq!(c, vec![vec![1], vec![1, 2], vec![1, 2, 3], vec![2], vec![2, 3], vec![3]]);
    assert!(candidate_substrings(&[]).is_empty());
    let long: Vec<u16> = (0..30).collect();
    let c = candidate_substrings(&long);
    assert_eq!(c.len(), MAX_CANDIDATES);
    assert_eq!(c[0], vec![0]);
    assert_eq!(c[29], (0..30).collect::<Vec<u16>>());
    assert_eq!(c[30], vec![1]);
}
