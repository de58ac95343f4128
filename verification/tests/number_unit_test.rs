use mirae_tts_engine::g2p::number_unit_lookup;

// Expected readings as KPS 9566 bytes.
const METER: [u8; 4] = [0xb8, 0xa1, 0xc0, 0xbe];
const GRAM: [u8; 4] = [0xb0, 0xfb, 0xb5, 0xbd];
const KILOGRAM: [u8; 8] = [0xbf, 0xd4, 0xb5, 0xe1, 0xb0, 0xfb, 0xb5, 0xbd];
const VOLT: [u8; 4] = [0xb8, 0xf6, 0xc0, 0xe2];
const WATT: [u8; 4] = [0xcc, 0xae, 0xc0, 0xe2];

#[test]
fn number_unit_lookup_basic() {
    let r = number_unit_lookup(b"3", b"m");
    assert!(r.is_some(), "3 + m should match");
    assert_eq!(r.unwrap(), METER);

    let r = number_unit_lookup(b"3", b"km");
    assert!(r.is_some(), "3 + km should match");

    let r = number_unit_lookup(b"3", b"g");
    assert!(r.is_some(), "3 + g should match");
    assert_eq!(r.unwrap(), GRAM);

    let r = number_unit_lookup(b"3", b"kg");
    assert!(r.is_some(), "3 + kg should match");
    assert_eq!(r.unwrap(), KILOGRAM);

    let r = number_unit_lookup(b"3", b"V");
    assert!(r.is_some(), "3 + V should match");
    assert_eq!(r.unwrap(), VOLT);

    let r = number_unit_lookup(b"3", b"W");
    assert!(r.is_some(), "3 + W should match");
    assert_eq!(r.unwrap(), WATT);

    let r = number_unit_lookup(b"3", b"hello");
    assert!(r.is_none(), "3 + hello should not match");

    let r = number_unit_lookup(b"abc", b"m");
    assert!(r.is_none(), "abc + m should not match");

    let r = number_unit_lookup(b"", b"m");
    assert!(r.is_none(), "empty + m should not match");
    let r = number_unit_lookup(b"3", b"");
    assert!(r.is_none(), "3 + empty should not match");
}

/// An evenly spaced syllable block (see the codec tests): every Hangul code converts.
fn tables() -> mirae_tts_engine::g2p::codec::KpsTables {
    let row_starts: Vec<u16> = (0..19u16).map(|i| 0xB0A1 + 0x180 * i).collect();
    let mut col_starts = vec![0xffffu16; 421];
    for r in 1..=19usize {
        for c in 1..=21usize {
            col_starts[r * 21 + c] = 0xB0A1 + 0x180 * (r as u16 - 1) + 0x13 * (c as u16 - 1);
        }
    }
    let mut col_masks = vec![0u32; 399];
    for onset in 0..19usize {
        col_masks[onset * 21] = 0b100101;
    }
    mirae_tts_engine::g2p::codec::KpsTables {
        row_starts,
        col_starts,
        col_masks,
        sino_digits: (0..10u16).map(|d| 0xB0A1 + d).collect(),
        sino_units: (0..6u16).map(|u| 0xB0B4 + u).collect(),
    }
}

#[test]
fn number_unit_reading_stage1_all_digit() {
    let t = tables();
    let r = mirae_tts_engine::g2p::number_unit_reading(&t, b"3", b"m");
    assert!(r.is_some(), "3 + m should produce reading");
    let codes = r.unwrap();
    assert!(!codes.is_empty(), "should produce non-empty codes");

    let r = mirae_tts_engine::g2p::number_unit_reading(&t, b"100", b"km");
    assert!(r.is_some(), "100 + km should produce reading");
}

#[test]
fn number_unit_reading_stage2_decimal() {
    let t = tables();
    let r = mirae_tts_engine::g2p::number_unit_reading(&t, b"2.5", b"km");
    assert!(r.is_some(), "2.5 + km should produce reading");
    let codes = r.unwrap();
    assert!(!codes.is_empty(), "should produce non-empty codes for decimal");

    let r = mirae_tts_engine::g2p::number_unit_reading(&t, b"3.14", b"m");
    assert!(r.is_some(), "3.14 + m should produce reading");

    let r = mirae_tts_engine::g2p::number_unit_reading(&t, b".5", b"km");
    assert!(r.is_some(), ".5 + km should produce reading");
}

#[test]
fn number_unit_reading_stage3_korean_number_word() {
    let t = tables();
    let r = mirae_tts_engine::g2p::number_unit_reading(&t, b"\xc2\xd9", b"m");
    assert!(r.is_some(), "han + m should produce unit reading");
    let codes = r.unwrap();
    assert!(!codes.is_empty(), "should produce codes for Korean word + unit");
}

#[test]
fn number_unit_reading_stage7_no_match() {
    let t = tables();
    let r = mirae_tts_engine::g2p::number_unit_reading(&t, b"hello", b"m");
    assert!(r.is_none(), "hello + m should not match");

    let r = mirae_tts_engine::g2p::number_unit_reading(&t, b"3", b"xyz");
    assert!(r.is_none(), "3 + xyz should not match");

    let r = mirae_tts_engine::g2p::number_unit_reading(&t, b"", b"m");
    assert!(r.is_none(), "empty + m should not match");
}

#[test]
fn number_unit_reading_various_units() {
    let t = tables();
    let test_cases: &[(&[u8], &[u8])] = &[
        (b"5", b"g"),
        (b"10", b"V"),
        (b"100", b"W"),
        (b"1000", b"A"),
        (b"2", b"Hz"),
        (b"3", b"Hz"),
        (b"5", b"ppm"),
        (b"10", b"dB"),
        (b"25", b"J"),
        (b"37", b"F"),
    ];
    for (num, unit) in test_cases {
        let r = mirae_tts_engine::g2p::number_unit_reading(&t, num, unit);
        assert!(
            r.is_some(),
            "{} + {} should produce reading",
            String::from_utf8_lossy(num),
            String::from_utf8_lossy(unit)
        );
        let codes = r.unwrap();
        assert!(
            !codes.is_empty(),
            "{} + {} should produce non-empty codes",
            String::from_utf8_lossy(num),
            String::from_utf8_lossy(unit)
        );
    }
}

#[test]
fn number_unit_reading_empty_and_edge_cases() {
    let t = tables();
    let r = mirae_tts_engine::g2p::number_unit_reading(&t, b"0", b"m");
    assert!(r.is_some(), "0 + m should produce reading");

    let r = mirae_tts_engine::g2p::number_unit_reading(&t, b"999999", b"km");
    assert!(r.is_some(), "999999 + km should produce reading");

    let r = mirae_tts_engine::g2p::number_unit_reading(&t, b".", b"m");
    assert!(r.is_none());
}

#[test]
fn number_unit_reading_codes_are_phonemes_of_the_unit() {
    let t = tables();
    let reading = mirae_tts_engine::g2p::number_unit_lookup(b"3", b"m").unwrap();
    let codes = mirae_tts_engine::g2p::g2p_dict::kps_bytes_to_codes(&t, &reading).unwrap();
    let expected: Vec<u16> = codes
        .iter()
        .map(|&c| mirae_tts_engine::g2p::g2p_dict::to_phoneme_code(&t, c))
        .collect();
    assert_eq!(mirae_tts_engine::g2p::number_unit_reading(&t, b"3", b"m"), Some(expected));
    assert_eq!(mirae_tts_engine::g2p::number_unit_reading(&t, b"3a", b"m"), None);
}
