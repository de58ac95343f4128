use mirae_tts_engine::g2p::{
    apply_final_class, digit_prefix_len, digit_word_hit, exception_table, is_pause, is_pause_code,
    is_real_phoneme, is_real_phoneme_code, lookup_exception, make_phoneme, phoneme_to_syllable,
    special_to_key_char, split_phoneme, syllable_to_intermediate, syllable_to_phoneme, synthesize,
    unit_match, FINAL_TO_CLASS,
};

#[test]
fn phoneme_code_decomposition() {
    assert_eq!(split_phoneme(0x6c0c), (27, 0, 12));
    assert_eq!(split_phoneme(0x1903), (6, 8, 3));
    assert_eq!(split_phoneme(0x0924), (2, 9, 4));
    assert_eq!(split_phoneme(0x14c7), (5, 6, 7));
    assert_eq!(split_phoneme(0x4848), (18, 2, 8));
}

#[test]
fn phoneme_code_synthesis() {
    assert_eq!(make_phoneme(27, 0, 12), 0x6c0c);
    assert_eq!(make_phoneme(6, 8, 3), 0x1903);
    assert_eq!(make_phoneme(2, 9, 4), 0x0924);
    assert_eq!(make_phoneme(5, 6, 7), 0x14c7);
    assert_eq!(make_phoneme(18, 2, 8), 0x4848);
    assert_eq!(make_phoneme(0x3f, 0x1f, 0x1f), 0xffff);
    assert_eq!(make_phoneme(0x40, 0x20, 0x20), 0x0000);
}

#[test]
fn final_class_table_matches_report() {
    let expected = [0, 2, 2, 5, 6, 0, 15, 14, 15, 6, 6, 15, 15, 14, 5, 15, 5, 18, 0, 5, 15, 5, 0, 5, 27, 5, 5, 0];
    assert_eq!(FINAL_TO_CLASS, expected);
    let mut classes: Vec<u8> = FINAL_TO_CLASS.to_vec();
    classes.sort_unstable();
    classes.dedup();
    assert_eq!(classes, vec![0, 2, 5, 6, 14, 15, 18, 27]);
}

#[test]
fn apply_final_class_replaces_upper_bits() {
    assert_eq!(apply_final_class(0x1903), 0x3d03); // (15, 8, 3)
    assert_eq!(apply_final_class(0x1123), 0x1923); // (6, 9, 3)
    assert_eq!(apply_final_class(0x080c), 0x080c); // (2, 0, 12)
    assert_eq!(apply_final_class(0x0005), 0x0005);
    assert_eq!(apply_final_class(0x0fff) & 0x3ff, 0x3ff);
}

#[test]
fn synthesize_uses_class_27_base() {
    assert_eq!(synthesize(0, 0), 0x6c00);
    assert_eq!(synthesize(0, 12), 0x6c0c);
    assert_eq!(synthesize(9, 18), 0x6d32);
    assert_eq!(synthesize(21, 19), 0x6eb3);
    assert_eq!(synthesize(12, 0), 0x6d80);
}

#[test]
fn syllable_phoneme_conversion() {
    assert_eq!(syllable_to_intermediate(0x0d24), 0x1123);
    assert_eq!(syllable_to_phoneme(0x0d24), 0x1923);
    assert_eq!(split_phoneme(syllable_to_phoneme(0x0d24)), (6, 9, 3));
    assert_eq!(syllable_to_phoneme(0x0420), 0x0021);
    assert_eq!(phoneme_to_syllable(0x6c0c), Some(0x3000));
    assert_eq!(phoneme_to_syllable(0x6d32), Some(0x4920));
    assert_eq!(phoneme_to_syllable(0x1903), None);
    assert_eq!(phoneme_to_syllable(0x0924), None);
}

#[test]
fn pause_and_real_phoneme_predicates() {
    assert!(is_pause(2, 4));
    assert!(is_pause(2, 1));
    assert!(is_pause(2, 0x12));
    assert!(is_pause(0x0e, 4));
    assert!(is_pause(0x12, 0x12));
    assert!(is_pause(0x1b, 1));
    assert!(is_pause(6, 3));
    assert!(is_pause(6, 4));
    assert!(!is_pause(27, 12));
    assert!(!is_pause(2, 3));
    assert!(!is_pause(6, 5));
    assert!(is_pause_code(0x0924));
    assert!(is_pause_code(0x1903));
    assert!(!is_pause_code(0x6c0c));

    assert!(!is_real_phoneme(27, 12));
    assert!(!is_real_phoneme(2, 18));
    assert!(!is_real_phoneme(6, 8));
    assert!(!is_real_phoneme(6, 3));
    assert!(!is_real_phoneme(2, 1));
    assert!(is_real_phoneme(2, 3));
    assert!(is_real_phoneme(6, 5));
    assert!(is_real_phoneme(27, 19));
    assert!(is_real_phoneme(6, 2));
    assert!(!is_real_phoneme_code(0x6c0c));
    assert!(!is_real_phoneme_code(0x0924));
    assert!(is_real_phoneme_code(0x6d33));
}

#[test]
fn exception_table_size() {
    assert_eq!(exception_table().len(), 60);
}

#[test]
fn exception_no_match_returns_none() {
    assert!(lookup_exception(b"abc").is_none());
    assert!(lookup_exception(&[0xb0, 0xa1]).is_none());
    assert!(lookup_exception(&[0xc2, 0xd7]).is_none());
    assert!(lookup_exception(&[]).is_none());
}

#[test]
fn unit_match_words() {
    assert!(unit_match(b"m"));
    assert!(unit_match(b"cm"));
    assert!(unit_match(b">"));
    assert!(unit_match(b"g"));
    assert!(!unit_match(b"mmx"));
    assert!(!unit_match(b"kg"));
    assert!(!unit_match(b""));
}

#[test]
fn digit_word_hit_and_prefix_len() {
    assert_eq!(digit_word_hit(&[0xc2, 0xd9]), Some(0));
    let soobaek = [0xba, 0xe3, 0xb9, 0xca];
    assert_eq!(digit_word_hit(&soobaek), Some(2));
    assert_eq!(digit_prefix_len(&soobaek), 0);
    let myeotgae = [0xb7, 0xb8, 0xb1, 0xb6];
    assert_eq!(digit_word_hit(&myeotgae), Some(9));
    assert_eq!(digit_prefix_len(&myeotgae), 3);
    assert_eq!(digit_word_hit(b"abc"), None);
    assert_eq!(digit_prefix_len(b"abc"), 0);
}

#[test]
fn special_to_key_char_conversion() {
    assert_eq!(special_to_key_char(0x30), Some(0x46));
    assert_eq!(special_to_key_char(0x39), Some(0x4f));
    assert_eq!(special_to_key_char(0x35), Some(0x4b));
    assert_eq!(special_to_key_char(0x2d), Some(0x45));
    assert_eq!(special_to_key_char(0x2e), Some(0x44));
    assert_eq!(special_to_key_char(0x8030), Some(0x46));
    assert_eq!(special_to_key_char(0x8039), Some(0x4f));
    assert_eq!(special_to_key_char(0x802d), Some(0x45));
    assert_eq!(special_to_key_char(0x802e), Some(0x44));
    assert_eq!(special_to_key_char(0x41), None);
    assert_eq!(special_to_key_char(0x00), None);
    assert_eq!(special_to_key_char(0x3a), None);
}

