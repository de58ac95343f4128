use mirae_tts_engine::unit_select::{score_left, score_right, SelectTables};

/// Tables with no flags set and a distinct fallback vowel per vowel field.
fn tables() -> SelectTables {
    SelectTables {
        filter: vec![[0, 0, 0, 0]; 16],
        tone_trans_cost: vec![0; 256],
        flag_a: vec![0; 32],
        flag_b: vec![0; 32],
        flag_c: vec![0; 32],
        flag_d: vec![0; 32],
        fallback_allow: vec![0; 32],
        fallback_repl_lo: (0..32u8).collect(),
        fallback_repl_hi: (0..32u8).collect(),
    }
}

#[test]
fn context_score_values() {
    let t = tables();
    assert!(t.is_wf());
    assert_eq!(score_left(&t, 0x6eb3, 0x6d86, 0x6eb3, 0x6d86, 2, 40, true), 100);
    assert_eq!(score_left(&t, 0x6eb3, 0x6d86, 0x6eb3, 0x6d86, 2, 40, false), 20);
    assert_eq!(score_left(&t, 0x6eb3, 0x6d86, 0x6eb2, 0x6d86, 2, 40, true), 90);
    assert_eq!(score_left(&t, 0x6c12, 0x6c12, 0x6c12, 0x6c12, 2, 0x03, true), -200);
    assert_eq!(score_left(&t, 0x6eb3, 0x6d86, 0x6eb3, 0x6d86, 3, 40, true), 100);
    assert_eq!(score_left(&t, 0x6eb3, 0x6d86, 0x6eb3, 0x6d86, 3, 40, false), 60);
    assert_eq!(score_right(&t, 0x6d80, 0x6d80, 0x6d86, 2, 40, true), 100);
    assert_eq!(score_right(&t, 0x6d80, 0x4d80, 0x6d86, 2, 40, true), 90);
    assert_eq!(score_right(&t, 0x6d80, 0x6c80, 0x6d86, 2, 40, true), 60);
    assert_eq!(score_right(&t, 0x6d80, 0x6c80, 0x6d86, 3, 40, true), 50);
}
