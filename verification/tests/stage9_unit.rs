use mirae_tts_engine::g2p::g2p_dict::{stage9_post_loop_propagation, WordRecord};

#[test]
fn stage9_propagates_across_boundary() {
    let r1 = WordRecord { final_marker: 3, phoneme_markers: vec![0x01, 0x02], ..WordRecord::default() };
    let r2 = WordRecord { phoneme_markers: vec![0x03, 0x04], ..WordRecord::default() };
    let mut records = vec![r1, r2];
    stage9_post_loop_propagation(&mut records);
    assert!(records[1].phoneme_markers.iter().all(|m| m & 0x80 != 0));
    assert_eq!(records[0].phoneme_markers, vec![0x01, 0x02]);
}

#[test]
fn stage9_without_boundary_takes_the_last_five_phonemes() {
    let words = [(3usize, vec![0x01u8, 0x02, 0x03]), (2, vec![0x04, 0x05]), (4, vec![0x06, 0x07, 0x08, 0x09])];
    let mut records: Vec<WordRecord> = words
        .iter()
        .map(|(n, m)| WordRecord { phoneme_count: *n, phoneme_markers: m.clone(), final_marker: 1, ..WordRecord::default() })
        .collect();
    stage9_post_loop_propagation(&mut records);
    assert_eq!(records[0].phoneme_markers, vec![0x01, 0x02, 0x03]);
    assert_eq!(records[1].phoneme_markers, vec![0x84, 0x85]);
    assert_eq!(records[2].phoneme_markers, vec![0x86, 0x87, 0x88, 0x89]);
    assert_eq!(records[2].final_marker, 1);
}

#[test]
fn stage9_spreads_emphasis_inside_a_word() {
    let r1 = WordRecord { phoneme_markers: vec![0x81, 0x42, 0x03], final_marker: 2, ..WordRecord::default() };
    let r2 = WordRecord { phoneme_markers: vec![0x40, 0x05], final_marker: 5, ..WordRecord::default() };
    let mut records = vec![r1, r2];
    stage9_post_loop_propagation(&mut records);
    // Bit 0x40 keeps a marker out of the spread.
    assert_eq!(records[0].phoneme_markers, vec![0x81, 0x42, 0x83]);
    // The last word closes a phrase: nothing after it, and its own markers stay.
    assert_eq!(records[1].phoneme_markers, vec![0x40, 0x05]);
}

#[test]
fn stage9_on_no_words_does_nothing() {
    let mut records: Vec<WordRecord> = Vec::new();
    stage9_post_loop_propagation(&mut records);
    assert!(records.is_empty());
}
