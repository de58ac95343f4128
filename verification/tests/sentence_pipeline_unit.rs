use mirae_tts_engine::connect::ConnectMatrix;
use mirae_tts_engine::dict::Dict;
use mirae_tts_engine::g2p::codec::KpsTables;
use mirae_tts_engine::g2p::g2p_dict::{word_g2p, G2pDicts, WordFinalTone, MARKER_FALLBACK};
use mirae_tts_engine::kps9566::Kps9566;
use mirae_tts_engine::pipeline::{number_token_codes, sentence_to_records, word_to_records};
use mirae_tts_engine::segmenter::Sentence;

/// A dictionary with a root and no entries.
fn empty_dict() -> Dict {
    let mut d = Vec::new();
    d.extend_from_slice(&2u32.to_le_bytes());
    d.extend_from_slice(&0u32.to_le_bytes());
    d.extend_from_slice(&[0u8; 8]);
    d.extend_from_slice(&[0u8; 2]);
    d.extend_from_slice(&[0u8; 16]);
    Dict::from_bytes(&d).unwrap()
}

fn tables() -> KpsTables {
    let row_starts: Vec<u16> = (0..19u16).map(|i| 0xB0A1 + 0x180 * i).collect();
    let mut col_starts = vec![0xffffu16; 421];
    for r in 1..=19usize {
        for c in 1..=21usize {
            col_starts[r * 21 + c] = 0xB0A1 + 0x180 * (r as u16 - 1) + 0x13 * (c as u16 - 1);
        }
    }
    let mut col_masks = vec![0u32; 399];
    for onset in 0..19usize {
        col_masks[onset * 21] = 0b100101;
    }
    KpsTables {
        row_starts,
        col_starts,
        col_masks,
        sino_digits: (0..10u16).map(|d| 0xB0A1 + d).collect(),
        sino_units: (0..6u16).map(|u| 0xB0B4 + u).collect(),
    }
}

#[test]
fn unknown_word_reads_as_itself() {
    let d = empty_dict();
    let c = ConnectMatrix::parse(&[1, 0, 0, 0, 0]).unwrap();
    let t = tables();
    let dicts = G2pDicts { colligation: &d, user: &d, nonreg: &d, conjects: &d, connect: &c, kps: &t };
    let r = word_g2p(&dicts, &[0xB0, 0xA1]);
    assert_eq!(r.len(), 1);
    assert_eq!(r[0].bytes, vec![0xB0, 0xA1]);
    assert_eq!(r[0].packed, None);
    assert_eq!(r[0].marker, MARKER_FALLBACK);
}

#[test]
fn one_word_sentence_records() {
    let d = empty_dict();
    let c = ConnectMatrix::parse(&[1, 0, 0, 0, 0]).unwrap();
    let t = tables();
    let kps = Kps9566::from_txt("").unwrap();
    let dicts = G2pDicts { colligation: &d, user: &d, nonreg: &d, conjects: &d, connect: &c, kps: &t };
    let w = word_to_records(&dicts, &kps, &[0xB0, 0xA1], WordFinalTone::ClauseEnd);
    assert_eq!(w.len(), 1);
    assert_eq!(w[0].code, 0x6C00);
    assert_eq!(w[0].tone_class, 4);
    let sent = Sentence { text: vec![0xB0, 0xA1, b'.'], start: 0 };
    let groups = sentence_to_records(&dicts, &kps, &sent);
    assert_eq!(groups.len(), 1);
    assert_eq!(groups[0].len(), 1);
    let r = groups[0][0];
    assert_eq!(r.code, 0x6C00);
    assert_eq!(r.flags, 1);
    assert_eq!(r.tone_class, 4);
    assert_eq!(r.prev_code, 0);
}

#[test]
fn line_break_starts_a_new_group() {
    let d = empty_dict();
    let c = ConnectMatrix::parse(&[1, 0, 0, 0, 0]).unwrap();
    let t = tables();
    let kps = Kps9566::from_txt("").unwrap();
    let dicts = G2pDicts { colligation: &d, user: &d, nonreg: &d, conjects: &d, connect: &c, kps: &t };
    let sent = Sentence { text: vec![0xB0, 0xA1, b'\n', 0xB0, 0xA2], start: 0 };
    let groups = sentence_to_records(&dicts, &kps, &sent);
    assert_eq!(groups.len(), 2);
    assert_eq!(groups[0][0].tone_class % 10, 4);
    assert_eq!(groups[1].len(), 1);
}

#[test]
fn number_token_reads_sino_korean() {
    let d = empty_dict();
    let c = ConnectMatrix::parse(&[1, 0, 0, 0, 0]).unwrap();
    let t = tables();
    let kps = Kps9566::from_txt("").unwrap();
    let dicts = G2pDicts { colligation: &d, user: &d, nonreg: &d, conjects: &d, connect: &c, kps: &t };
    let (codes, end, merged) = number_token_codes(&dicts, &kps, b"35 ", 0);
    assert_eq!(end, 2);
    assert!(!merged);
    assert_eq!(codes.len(), 3);
    let (codes, end, merged) = number_token_codes(&dicts, &kps, b"2.0", 0);
    assert_eq!(end, 3);
    assert!(!merged);
    assert_eq!(codes[0], 0x1532);
    assert_eq!(codes[2], 0x4863);
    let (_, end, _) = number_token_codes(&dicts, &kps, b"7.", 0);
    assert_eq!(end, 1);
}
