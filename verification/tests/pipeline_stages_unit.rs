use mirae_tts_engine::g2p::g2p_dict::WordFinalTone;
use mirae_tts_engine::pipeline::{
    apply_chunk_tone_breaks, mark_clause_end, next_word_final_tone, propagate_flags_back,
    EngineConfig, RecordGroup,
};
use mirae_tts_engine::record::ProsodyRecord;

fn recs(n: usize) -> Vec<ProsodyRecord> {
    (0..n).map(|i| ProsodyRecord::new(i as u16)).collect()
}

#[test]
fn clause_end_sets_ones_digit() {
    let mut r = ProsodyRecord::new(7);
    r.tone_class = 21;
    mark_clause_end(&mut r);
    assert_eq!(r.tone_class, 24);
    assert_eq!(r.code, 7);
    let mut z = ProsodyRecord::new(1);
    mark_clause_end(&mut z);
    assert_eq!(z.tone_class, 4);
}

#[test]
fn chunk_break_every_sixty_syllables() {
    let ends: Vec<usize> = vec![30, 59, 61, 100, 125];
    let mut groups: Vec<RecordGroup> = vec![(recs(125), ends)];
    apply_chunk_tone_breaks(&mut groups);
    let r = &groups[0].0;
    let marked: Vec<usize> = (0..125).filter(|&k| r[k].tone_class == 3).collect();
    assert_eq!(marked, vec![60, 124]);
}

#[test]
fn flags_on_last_five_syllables_by_word() {
    let ends: Vec<usize> = vec![4, 8, 10, 13];
    let mut groups: Vec<RecordGroup> = vec![(recs(13), ends)];
    propagate_flags_back(&mut groups);
    let flagged: Vec<usize> = (0..13).filter(|&k| groups[0].0[k].flags == 1).collect();
    assert_eq!(flagged, vec![8, 9, 10, 11, 12]);
    let mut single: Vec<RecordGroup> = vec![(recs(9), vec![9])];
    propagate_flags_back(&mut single);
    assert!(single[0].0.iter().all(|r| r.flags == 1));
    let mut empty: Vec<RecordGroup> = vec![(Vec::new(), Vec::new())];
    propagate_flags_back(&mut empty);
    assert!(empty[0].0.is_empty());
}

#[test]
fn word_final_tone_from_following_punctuation() {
    assert_eq!(next_word_final_tone(b"abc", 3), WordFinalTone::ClauseEnd);
    assert_eq!(next_word_final_tone(b"a, b", 1), WordFinalTone::Comma);
    assert_eq!(next_word_final_tone(b"a. b", 1), WordFinalTone::ClauseEnd);
    assert_eq!(next_word_final_tone(&[0xA1, 0xA5], 0), WordFinalTone::ClauseEnd);
    assert_eq!(next_word_final_tone(&[0xA1, 0xD4, 0x41], 0), WordFinalTone::Bracket);
    assert_eq!(next_word_final_tone(&[0xB0, 0xA1], 0), WordFinalTone::Mid);
}

#[test]
fn engine_config_default_speed() {
    let c = EngineConfig::default();
    assert_eq!(c.speed, 50);
    assert!(!c.random_mode);
}
