use mirae_tts_engine::g2p::exact_hooks::{RawSecondRecord, SECOND_RECORD_SIZE};
use mirae_tts_engine::g2p::g2p_dict::{stage4_cross_word_sandhi, WordRecord};
use mirae_tts_engine::g2p::linking::{
    exact_stage4_aspirate, exact_stage4_linking, exact_stage4_nasal, PostprocessTables,
};

/// An analyzer record with morpheme count `count` and the given bytes set in its type table
/// (`(index, value)`, index 3 being the first morpheme's type).
fn raw(count: u32, types: &[(usize, u8)]) -> RawSecondRecord {
    let mut b = vec![0u8; SECOND_RECORD_SIZE];
    b[0x1db0..0x1db4].copy_from_slice(&count.to_le_bytes());
    for &(i, v) in types {
        b[0x1579 + i] = v;
    }
    RawSecondRecord::parse(&b).unwrap()
}

fn word(count: u32, types: &[(usize, u8)]) -> WordRecord {
    WordRecord {
        morph_count: count as usize,
        word_type: count,
        raw_second_record: Some(raw(count, types)),
        ..WordRecord::default()
    }
}

fn no_strings() -> PostprocessTables {
    PostprocessTables {
        linking_ending: Vec::new(),
        stem_ending: Vec::new(),
        tail_endings: Vec::new(),
        excluded_endings: Vec::new(),
        final_ending: Vec::new(),
        nasal_ending: vec![0x41],
        nasal_exclusions: Vec::new(),
    }
}

#[test]
fn linking_case_seven_single_morpheme_types_two_then_three() {
    let t = no_strings();
    let l = word(1, &[(3, 2)]);
    let r = word(1, &[(3, 3)]);
    assert_eq!(exact_stage4_linking(&t, &l, &r), 7);
}

#[test]
fn linking_needs_analyzer_data_on_both_words() {
    let t = no_strings();
    let l = word(1, &[(3, 2)]);
    assert_eq!(exact_stage4_linking(&t, &l, &WordRecord::default()), 0);
    assert_eq!(exact_stage4_linking(&t, &WordRecord::default(), &l), 0);
    // The record's own count must agree with the analyzer's.
    let mut off = word(1, &[(3, 2)]);
    off.word_type = 2;
    assert_eq!(exact_stage4_linking(&t, &off, &word(1, &[(3, 3)])), 0);
}

#[test]
fn linking_case_six_accepted_types_before_type_four() {
    let t = no_strings();
    let l = word(1, &[(3, 6)]);
    let r = word(1, &[(3, 4)]);
    assert_eq!(exact_stage4_linking(&t, &l, &r), 6);
    // Terminal type 6 opens the nasal rule; the next word opens with type 4.
    assert_eq!(exact_stage4_nasal(&t, &l, &r), 1);
}

#[test]
fn nasal_needs_a_next_word_opening_with_four_or_five() {
    let t = no_strings();
    let l = word(1, &[(3, 6)]);
    assert_eq!(exact_stage4_nasal(&t, &l, &word(1, &[(3, 2)])), 0);
    assert_eq!(exact_stage4_nasal(&t, &l, &word(1, &[(3, 1), (4, 5)])), 1);
}

#[test]
fn aspirate_after_type_five_word_ending_in_0x14() {
    let l = word(2, &[(3, 5), (4, 0x14)]);
    let r = word(1, &[(1, 4), (2, 0x1e), (3, 0x15)]);
    assert_eq!(exact_stage4_aspirate(&l, &r), 1);
    // A word of one morpheme never aspirates.
    assert_eq!(exact_stage4_aspirate(&word(1, &[(3, 5)]), &r), 0);
}

#[test]
fn stage4_sets_linking_and_nasal_flags_and_marks_the_last_word() {
    let t = no_strings();
    let mut recs = vec![word(1, &[(3, 6)]), word(1, &[(3, 4)])];
    stage4_cross_word_sandhi(&t, &mut recs);
    assert_eq!(recs[0].rule_flags, [0, 1, 1, 0]);
    assert_eq!(recs[0].rule_counts, [0, 2, 2, 0]);
    assert_eq!(recs[0].flag_link, 0);
    assert_eq!(recs[0].rule_marker, 0);
    assert_eq!(recs[1].rule_marker, 9);
    assert_eq!(recs[1].rule_flags, [0, 0, 0, 0]);
}

#[test]
fn stage4_skips_a_word_with_a_rule_marker() {
    let t = no_strings();
    let mut first = word(1, &[(3, 6)]);
    first.rule_marker = 2;
    let mut recs = vec![first, word(1, &[(3, 4)])];
    stage4_cross_word_sandhi(&t, &mut recs);
    assert_eq!(recs[0].rule_flags, [0, 0, 0, 0]);
    assert_eq!(recs[0].rule_counts, [0, 0, 0, 0]);
    assert_eq!(recs[1].rule_marker, 9);
}
