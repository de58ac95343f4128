use mirae_tts_engine::segmenter::{
    char_class, char_class_16, is_continue_ascii, is_continue_kps, is_sentence_punct_ascii,
    is_sentence_punct_kps, is_syllable_code, next_token_class, tokenize, tokenize_crlf, tokenize_with,
    Sentence, MAX_SENTENCE_BYTES,
};
fn texts(s: &[Sentence]) -> Vec<Vec<u8>> {
    s.iter().map(|x| x.text.clone()).collect()
}

#[test]
fn plain_korean_one_sentence() {
    let t = tokenize(&[0xca, 0xaf, 0xb2, 0xce, 0xc2, 0xd7, 0xbb, 0xbd, 0xca, 0xfd]);
    assert_eq!(
        texts(&t),
        vec![vec![
            0xca, 0xaf, 0xb2, 0xce, 0xc2, 0xd7, 0xbb, 0xbd, 0xca, 0xfd
        ]]
    );
    assert_eq!(t[0].start, 0);
}

#[test]
fn ascii_period_space_breaks() {
    let t = tokenize(b"Hello. World");
    assert_eq!(texts(&t), vec![b"Hello.".to_vec(), b" World".to_vec()]);
    assert_eq!(t[0].start, 0);
    assert_eq!(t[1].start, 6);
}

#[test]
fn decimal_point_stays_inline() {
    let t = tokenize(b"3.14");
    assert_eq!(texts(&t), vec![b"3.14".to_vec()]);
    let t = tokenize(b"3.14 is pi");
    assert_eq!(texts(&t), vec![b"3.14 is pi".to_vec()]);
}

#[test]
fn period_between_syllables_stays_inline() {
    let ga = [0xb0, 0xa1];
    let na = [0xb1, 0xfd];
    let mut input = Vec::new();
    input.extend_from_slice(&ga);
    input.push(b'.');
    input.extend_from_slice(&na);
    let t = tokenize(&input);
    assert_eq!(texts(&t), vec![vec![0xb0, 0xa1, b'.'], vec![0xb1, 0xfd]]);
}

#[test]
fn kps_punctuation_breaks() {
    let ga = [0xb0, 0xa1];
    let na = [0xb1, 0xfd];
    let mut input = Vec::new();
    input.extend_from_slice(&ga);
    input.extend_from_slice(&[0xA1, 0xA5]);
    input.extend_from_slice(&na);
    let t = tokenize(&input);
    assert_eq!(
        texts(&t),
        vec![vec![0xb0, 0xa1, 0xA1, 0xA5], vec![0xb1, 0xfd]]
    );
}

#[test]
fn kps_space_continues_sentence() {
    let ga = [0xb0, 0xa1];
    let na = [0xb1, 0xfd];
    let mut input = Vec::new();
    input.extend_from_slice(&ga);
    input.extend_from_slice(&[0xA1, 0xA5, 0xA1, 0xA1]);
    input.extend_from_slice(&na);
    let t = tokenize(&input);
    assert_eq!(
        texts(&t),
        vec![vec![0xb0, 0xa1, 0xA1, 0xA5], vec![0xA1, 0xA1, 0xb1, 0xfd]]
    );
    assert_eq!(t[1].start, 4);
}

#[test]
fn dropped_bytes_skipped() {
    let t = tokenize(&[0x41, 0x80, 0x9F, 0xFF, 0x42]);
    assert_eq!(texts(&t), vec![b"AB".to_vec()]);
}

#[test]
fn nul_terminates_input() {
    let t = tokenize(b"AB\0CD");
    assert_eq!(texts(&t), vec![b"AB".to_vec()]);
}

#[test]
fn empty_input_no_sentences() {
    assert!(tokenize(b"").is_empty());
    assert!(tokenize(&[0x80, 0xff]).is_empty());
}

#[test]
fn crlf_mode_breaks_on_newline() {
    let t = tokenize(b"AB\r\nCD");
    assert_eq!(texts(&t), vec![b"AB\r\nCD".to_vec()]);
    let t = tokenize_crlf(b"AB\r\n  CD");
    assert_eq!(texts(&t), vec![b"AB".to_vec(), b"CD".to_vec()]);
    assert_eq!(t[1].start, 6);
}

#[test]
fn sentence_start_offsets() {
    let t = tokenize(b"Hi. Bye!");
    assert_eq!(t[0].start, 0);
    assert_eq!(texts(&t), vec![b"Hi.".to_vec(), b" Bye!".to_vec()]);
    assert_eq!(t[1].start, 3);
}

#[test]
fn max_sentence_bytes_forced_break() {
    let input: Vec<u8> = (0..500u16).map(|i| b'a' + (i % 26) as u8).collect();
    let t = tokenize(&input);
    assert_eq!(t.len(), 2);
    assert_eq!(t[0].text.len(), MAX_SENTENCE_BYTES + 1);
    let t = tokenize_with(&input, false, usize::MAX);
    assert_eq!(t.len(), 1);
}

#[test]
fn char_class_checks() {
    assert_eq!(char_class(b'A'), 5);
    assert_eq!(char_class(b'a'), 6);
    assert_eq!(char_class(b'0'), 4);
    assert_eq!(char_class(b' '), 1);
    assert_eq!(char_class(b'.'), 1);
    assert_eq!(char_class(0x09), 0);
    assert_eq!(char_class_16(0xB0A1), 0x19);
    assert_eq!(char_class_16(0xA1A5), 1);
    assert_eq!(char_class_16(0xA3C1), 5);
    assert_eq!(char_class_16(0x1234), 0);
    assert!(is_sentence_punct_ascii(b'!'));
    assert!(is_sentence_punct_ascii(b'.'));
    assert!(is_sentence_punct_ascii(b'?'));
    assert!(!is_sentence_punct_ascii(b','));
    assert!(is_continue_ascii(b' '));
    assert!(is_continue_ascii(0x09));
    assert!(!is_continue_ascii(b'W'));
    assert!(is_continue_kps(0xA1A1));
    assert!(!is_continue_kps(0xA1A5));
    assert!(is_sentence_punct_kps(0xA1A5));
    assert!(is_sentence_punct_kps(0xA1A9));
    assert!(is_sentence_punct_kps(0xA1AA));
    assert!(!is_sentence_punct_kps(0xB0A1));
    assert!(is_syllable_code(0xB0A1));
    assert!(is_syllable_code(0xCCFE));
    assert!(is_syllable_code(0xA1A5));
    assert!(!is_syllable_code(0xA0A1));
    assert!(!is_syllable_code(0xCDA1));
    assert!(!is_syllable_code(0xB1FF));
}

#[test]
fn next_token_class_checks() {
    assert_eq!(next_token_class(b"Ab"), (5, 1));
    assert_eq!(next_token_class(b"ab"), (6, 1));
    assert_eq!(next_token_class(b"1x"), (4, 1));
    assert_eq!(next_token_class(b"\t"), (0, 0));
    assert_eq!(next_token_class(&[0x80]), (0, 0));
    assert_eq!(next_token_class(&[0xB0, 0xA1]), (0x19, 2));
    assert_eq!(next_token_class(&[0xA1, 0xA5]), (1, 2));
    assert_eq!(next_token_class(&[0xFF]), (0, 0));
}
