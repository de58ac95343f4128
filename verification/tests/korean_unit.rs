use mirae_tts_engine::korean::{
    decompose_char, decompose_text, pack_syllable, unpack_syllable, DecomposedChar, KoreanJamo, PauseType,
    VOWEL_FIRST_COMPONENT, VOWEL_FLAGS, VOWEL_SUBSTITUTE,
};
#[test]
fn test_decompose_korean_syllable() {
    let result = decompose_char('한');
    match result {
        DecomposedChar::KoreanSyllable(j) => {
            assert_eq!(j.initial, 12);
            assert_eq!(j.medium, 0);
            assert_eq!(j.final_index, 2);
        }
        _ => panic!("Expected Korean syllable decomposition"),
    }
}

#[test]
fn test_decompose_ga() {
    let result = decompose_char('가');
    match result {
        DecomposedChar::KoreanSyllable(j) => {
            assert_eq!(j.initial, 0);
            assert_eq!(j.medium, 0);
            assert_eq!(j.final_index, 27);
            assert_eq!(pack_syllable(&j), 0x6C00);
        }
        _ => panic!("Expected Korean syllable decomposition"),
    }
}

#[test]
fn test_decompose_ha() {
    let result = decompose_char('하');
    match result {
        DecomposedChar::KoreanSyllable(j) => {
            assert_eq!(j.initial, 12);
            assert_eq!(j.medium, 0);
            assert_eq!(j.final_index, 27);
            assert_eq!(pack_syllable(&j), 0x6C0C);
        }
        _ => panic!("Expected Korean syllable decomposition"),
    }
}

#[test]
fn test_pack_unpack() {
    let jamo = KoreanJamo {
        initial: 12,
        medium: 0,
        final_index: 2,
    };
    let packed = pack_syllable(&jamo);
    assert_eq!(packed, 0x080C);
    let unpacked = unpack_syllable(packed);
    assert_eq!(jamo, unpacked);
}

#[test]
fn test_verify_voiceinfo_sample() {
    let packed: u16 = 0x6D86;
    let j = unpack_syllable(packed);
    assert_eq!(j.initial, 6);
    assert_eq!(j.medium, 12);
    assert_eq!(j.final_index, 27);
    assert_eq!(pack_syllable(&j), packed);

    let packed2: u16 = 0x4861;
    let j2 = unpack_syllable(packed2);
    assert_eq!(j2.initial, 1);
    assert_eq!(j2.medium, 3);
    assert_eq!(j2.final_index, 18);
}

#[test]
fn test_decompose_an_nyeong() {
    let an = decompose_char('안');
    match an {
        DecomposedChar::KoreanSyllable(j) => {
            assert_eq!(j.initial, 18);
            assert_eq!(j.medium, 0);
            assert_eq!(j.final_index, 2);
            assert_eq!(pack_syllable(&j), 0x0812);
        }
        _ => panic!("Expected Korean syllable"),
    }

    let nyeong = decompose_char('녕');
    match nyeong {
        DecomposedChar::KoreanSyllable(j) => {
            assert_eq!(j.initial, 1);
            assert_eq!(j.medium, 3);
            assert_eq!(j.final_index, 18);
            assert_eq!(pack_syllable(&j), 0x4861);
        }
        _ => panic!("Expected Korean syllable"),
    }
}

#[test]
fn decompose_text_newline_is_single_pause_period() {
    let a = decompose_text("a\nb");
    assert!(
        matches!(
            a.as_slice(),
            [
                DecomposedChar::Other(_),
                DecomposedChar::Pause(PauseType::Period),
                DecomposedChar::Other(_),
            ]
        ),
        "{a:?}"
    );
    assert_eq!(decompose_text("x\r\ny").len(), 3);
    assert!(matches!(
        decompose_text("x\r\ny").get(1),
        Some(DecomposedChar::Pause(PauseType::Period))
    ));
}

#[test]
fn test_vowel_tables() {
    assert_eq!(VOWEL_FLAGS.len(), 21);
    assert_eq!(VOWEL_FIRST_COMPONENT.len(), 21);
    assert_eq!(VOWEL_SUBSTITUTE.len(), 21);
    assert_eq!(VOWEL_FLAGS[0], 1);
    assert_eq!(VOWEL_FLAGS[1], 0);
    assert_eq!(VOWEL_SUBSTITUTE[1], 0);
    assert_eq!(VOWEL_FLAGS[9], 1);
}
