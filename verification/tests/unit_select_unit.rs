use mirae_tts_engine::unit_select::{
    duration_for, is_pause, is_real_phoneme, normalize_candidate_class_a, normalize_candidate_class_b,
    normalize_target_class, tone_class_row, UnitSelectConfig,
};

#[test]
fn pause_detection_matches_spec() {
    assert!(is_pause(2, 1));
    assert!(is_pause(0xe, 4));
    assert!(is_pause(0x12, 0x12));
    assert!(is_pause(0x1b, 0x12)); // 0x6c12
    assert!(is_pause(6, 3));
    assert!(is_pause(6, 0x12));
    assert!(!is_pause(2, 2));
    assert!(!is_pause(6, 1));
    assert!(!is_pause(0, 0));
}

#[test]
fn real_phoneme_detection() {
    assert!(!is_real_phoneme(0, 1));
    assert!(!is_real_phoneme(6, 3));
    assert!(!is_real_phoneme(27, 0x12));
    assert!(!is_real_phoneme(5, 8));
    assert!(!is_real_phoneme(0, 0x10));
    assert!(!is_real_phoneme(6, 1));
    assert!(!is_real_phoneme(27, 6));
    assert!(!is_real_phoneme(0, 0x11));
    assert!(is_real_phoneme(27, 5));
    assert!(is_real_phoneme(6, 2));
}

#[test]
fn class_normalization() {
    assert_eq!(normalize_target_class(0x14), 30);
    assert_eq!(normalize_target_class(0x15), 31);
    assert_eq!(normalize_target_class(0x02), 3);
    assert_eq!(normalize_candidate_class_a(0x02), 1);
    assert_eq!(normalize_candidate_class_b(0x02), 3);
    assert_eq!(normalize_target_class(0x05), 4);
    assert_eq!(normalize_candidate_class_a(0x05), 5);
    assert_eq!(normalize_target_class(0x28), 40);
    assert_eq!(normalize_target_class(0x01), 1);
    assert_eq!(normalize_target_class(0x0a), 10);
    assert_eq!(tone_class_row(40), 0);
    assert_eq!(tone_class_row(4), 1);
    assert_eq!(tone_class_row(30), 2);
    assert_eq!(tone_class_row(3), 3);
    assert_eq!(tone_class_row(10), 4);
    assert_eq!(tone_class_row(1), 5);
    assert_eq!(tone_class_row(41), 6);
    assert_eq!(tone_class_row(14), 7);
    assert_eq!(tone_class_row(31), 8);
    assert_eq!(tone_class_row(13), 9);
    assert_eq!(tone_class_row(11), 10);
    assert_eq!(tone_class_row(33), 11);
    assert_eq!(tone_class_row(34), 12);
    assert_eq!(tone_class_row(43), 13);
    assert_eq!(tone_class_row(44), 14);
    assert_eq!(tone_class_row(0), 15);
}

#[test]
fn duration_mapping() {
    let cfg = UnitSelectConfig::default();
    // default enabled = [false,true,true,true]: class 1 disabled
    for (class, expect) in [
        (1u8, 0u16),
        (11, 0),
        (2, 3000),
        (3, 5000),
        (5, 5000),
        (4, 20000),
        (0, 0),
        (6, 0),
    ] {
        assert_eq!(
            duration_for(class, &cfg.duration_values, &cfg.duration_enabled),
            expect,
            "class {}",
            class
        );
    }
    // All-enabled config: class 1 -> 1000
    let all = [true, true, true, true];
    assert_eq!(duration_for(1, &cfg.duration_values, &all), 1000);
    assert_eq!(duration_for(11, &cfg.duration_values, &all), 1000);
    let orig = [false, true, true, true];
    assert_eq!(
        duration_for(1, &cfg.duration_values, &orig),
        0,
        "default enable flags disable class 1"
    );
}
