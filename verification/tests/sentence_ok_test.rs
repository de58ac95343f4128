use mirae_tts_engine::connect::ConnectMatrix;
use mirae_tts_engine::dict::Dict;
use mirae_tts_engine::g2p::codec::KpsTables;
use mirae_tts_engine::g2p::g2p_dict::G2pDicts;
use mirae_tts_engine::kps9566::Kps9566;
use mirae_tts_engine::pipeline::{number_ok_check, sentence_ok, word_ok_check};

/// A dictionary with a root and no entries.
fn empty_dict() -> Dict {
    let mut d = Vec::new();
    d.extend_from_slice(&2u32.to_le_bytes());
    d.extend_from_slice(&0u32.to_le_bytes());
    d.extend_from_slice(&[0u8; 8]);
    d.extend_from_slice(&[0u8; 2]);
    d.extend_from_slice(&[0u8; 16]);
    Dict::from_bytes(&d).unwrap()
}

fn tables() -> KpsTables {
    let row_starts: Vec<u16> = (0..19u16).map(|i| 0xB0A1 + 0x180 * i).collect();
    let mut col_starts = vec![0xffffu16; 421];
    for r in 1..=19usize {
        for c in 1..=21usize {
            col_starts[r * 21 + c] = 0xB0A1 + 0x180 * (r as u16 - 1) + 0x13 * (c as u16 - 1);
        }
    }
    let mut col_masks = vec![0u32; 399];
    for onset in 0..19usize {
        col_masks[onset * 21] = 0b100101;
    }
    KpsTables {
        row_starts,
        col_starts,
        col_masks,
        sino_digits: (0..10u16).map(|d| 0xB0A1 + d).collect(),
        sino_units: (0..6u16).map(|u| 0xB0B4 + u).collect(),
    }
}

#[test]
fn readable_sentences_pass_the_check() {
    let d = empty_dict();
    let c = ConnectMatrix::parse(&[1, 0, 0, 0, 0]).unwrap();
    let t = tables();
    let kps = Kps9566::from_txt("").unwrap();
    let dicts = G2pDicts { colligation: &d, user: &d, nonreg: &d, conjects: &d, connect: &c, kps: &t };
    assert!(sentence_ok(&dicts, &kps, &[0xB0, 0xA1, b'.']));
    assert!(sentence_ok(&dicts, &kps, &[0xB0, 0xA1, b'\n', 0xB0, 0xA2]));
    assert!(sentence_ok(&dicts, &kps, b"35 "));
    assert!(sentence_ok(&dicts, &kps, b"2.0"));
    assert!(sentence_ok(&dicts, &kps, b""));
    assert!(word_ok_check(&dicts, &kps, &[0xB0, 0xA1]));
}

#[test]
fn sentence_ending_inside_a_character_fails_the_check() {
    let d = empty_dict();
    let c = ConnectMatrix::parse(&[1, 0, 0, 0, 0]).unwrap();
    let t = tables();
    let kps = Kps9566::from_txt("").unwrap();
    let dicts = G2pDicts { colligation: &d, user: &d, nonreg: &d, conjects: &d, connect: &c, kps: &t };
    assert!(!sentence_ok(&dicts, &kps, &[0xB0, 0xA1, 0xB0]));
}

#[test]
fn number_beyond_the_unit_table_fails_the_check() {
    let d = empty_dict();
    let c = ConnectMatrix::parse(&[1, 0, 0, 0, 0]).unwrap();
    let t = tables();
    let kps = Kps9566::from_txt("").unwrap();
    let dicts = G2pDicts { colligation: &d, user: &d, nonreg: &d, conjects: &d, connect: &c, kps: &t };
    // Six unit syllables reach 10^15; a digit at 10^16 has no unit to read it with.
    assert!(number_ok_check(&dicts, b"1000000000000000", 0));
    assert!(!number_ok_check(&dicts, b"10000000000000000", 0));
    assert!(!sentence_ok(&dicts, &kps, b"10000000000000000"));
}
