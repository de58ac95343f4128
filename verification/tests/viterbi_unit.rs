use mirae_tts_engine::connect::ConnectMatrix;
use mirae_tts_engine::dict::{key_from_syllables, Dict};
use mirae_tts_engine::g2p::codec::KpsTables;
use mirae_tts_engine::g2p::g2p_dict::{
    kps_bytes_to_codes, sentence_morphology_viterbi, viterbi_single_chunk, G2pDicts,
    MARKER_FALLBACK,
};

/// A dictionary with a root and no entries.
fn empty_dict() -> Dict {
    let mut d = Vec::new();
    d.extend_from_slice(&2u32.to_le_bytes());
    d.extend_from_slice(&0u32.to_le_bytes());
    d.extend_from_slice(&[0u8; 8]);
    d.extend_from_slice(&[0u8; 2]);
    d.extend_from_slice(&[0u8; 16]);
    Dict::from_bytes(&d).unwrap()
}

/// A dictionary holding exactly `key`, with one record of the given kind.
fn one_key_dict(key: &[u8], kind: u8) -> Dict {
    let m = key.len();
    let n1 = 300 + m + 1;
    let mut base = vec![0i32; n1];
    let mut check = vec![0u8; n1];
    let mut node = 1usize;
    for (i, &c) in key.iter().enumerate() {
        let p = 300 + i + 1;
        base[node] = p as i32 - c as i32;
        check[p] = c;
        node = p;
    }
    base[node] = -1;
    let tail = [0u8, 0x50, 0, 0, 0, 0];
    let mut d = Vec::new();
    d.extend_from_slice(&(n1 as u32).to_le_bytes());
    d.extend_from_slice(&(tail.len() as u32).to_le_bytes());
    for b in &base {
        d.extend_from_slice(&(*b as u32).to_le_bytes());
    }
    d.extend_from_slice(&check);
    d.extend_from_slice(&tail);
    d.extend_from_slice(&1u32.to_le_bytes());
    d.extend_from_slice(&0u32.to_le_bytes());
    d.extend_from_slice(&[kind, 0, 0, 0, 0, 0]);
    d.extend_from_slice(&0u32.to_le_bytes());
    d.extend_from_slice(&0u32.to_le_bytes());
    Dict::from_bytes(&d).unwrap()
}

fn tables() -> KpsTables {
    let row_starts: Vec<u16> = (0..19u16).map(|i| 0xB0A1 + 0x180 * i).collect();
    let mut col_starts = vec![0xffffu16; 421];
    for r in 1..=19usize {
        for c in 1..=21usize {
            col_starts[r * 21 + c] = 0xB0A1 + 0x180 * (r as u16 - 1) + 0x13 * (c as u16 - 1);
        }
    }
    let mut col_masks = vec![0u32; 399];
    for onset in 0..19usize {
        col_masks[onset * 21] = 0b100101;
    }
    KpsTables {
        row_starts,
        col_starts,
        col_masks,
        sino_digits: (0..10u16).map(|d| 0xB0A1 + d).collect(),
        sino_units: (0..6u16).map(|u| 0xB0B4 + u).collect(),
    }
}

const WORD: [u8; 4] = [0xB0, 0xA1, 0xB0, 0xB4];

#[test]
fn empty_word_has_no_segmentation() {
    let e = empty_dict();
    let c = ConnectMatrix::parse(&[1, 0, 0, 0, 0]).unwrap();
    let t = tables();
    let dicts = G2pDicts { colligation: &e, user: &e, nonreg: &e, conjects: &e, connect: &c, kps: &t };
    assert!(viterbi_single_chunk(&dicts, &[], &[]).is_none());
}

#[test]
fn word_without_entries_has_no_segmentation() {
    let e = empty_dict();
    let c = ConnectMatrix::parse(&[1, 0, 0, 0, 0]).unwrap();
    let t = tables();
    let dicts = G2pDicts { colligation: &e, user: &e, nonreg: &e, conjects: &e, connect: &c, kps: &t };
    let codes = kps_bytes_to_codes(&t, &WORD).unwrap();
    assert_eq!(codes.len(), 2);
    assert!(viterbi_single_chunk(&dicts, &codes, &WORD).is_none());
}

#[test]
fn best_segmentation_reads_the_entry_and_falls_back_for_the_rest() {
    let t = tables();
    let codes = kps_bytes_to_codes(&t, &WORD).unwrap();
    let key = key_from_syllables(&codes[..1]).unwrap();
    let coll = one_key_dict(&key, 0x85);
    let e = empty_dict();
    let c = ConnectMatrix::parse(&[1, 0, 0, 0, 0]).unwrap();
    let dicts = G2pDicts { colligation: &coll, user: &e, nonreg: &e, conjects: &e, connect: &c, kps: &t };
    let r = viterbi_single_chunk(&dicts, &codes, &WORD).unwrap();
    assert_eq!(r.len(), 2);
    // The first syllable is the entry, read with its record's kind (high bit cleared).
    assert_eq!(r[0].bytes, vec![0xB0, 0xA1]);
    assert_eq!(r[0].packed, None);
    assert_eq!(r[0].marker, 0x05);
    // The second is no entry: its codes give no dictionary reading, so the word's spelling.
    assert_eq!(r[1].bytes, WORD.to_vec());
    assert_eq!(r[1].marker, MARKER_FALLBACK);
}

#[test]
fn single_entry_word_is_one_segment() {
    let t = tables();
    let codes = kps_bytes_to_codes(&t, &WORD[..2]).unwrap();
    let key = key_from_syllables(&codes).unwrap();
    let user = one_key_dict(&key, 0x03);
    let e = empty_dict();
    let c = ConnectMatrix::parse(&[1, 0, 0, 0, 0]).unwrap();
    let dicts = G2pDicts { colligation: &e, user: &user, nonreg: &e, conjects: &e, connect: &c, kps: &t };
    let r = viterbi_single_chunk(&dicts, &codes, &WORD[..2]).unwrap();
    assert_eq!(r.len(), 1);
    assert_eq!(r[0].bytes, vec![0xB0, 0xA1]);
    assert_eq!(r[0].marker, 0x03);
}

#[test]
fn windows_are_segmented_in_turn() {
    let t = tables();
    let codes = kps_bytes_to_codes(&t, &WORD).unwrap();
    let k1 = key_from_syllables(&codes[..1]).unwrap();
    let k2 = key_from_syllables(&codes[1..]).unwrap();
    let coll = one_key_dict(&k1, 0x02);
    let user = one_key_dict(&k2, 0x04);
    let e = empty_dict();
    let c = ConnectMatrix::parse(&[1, 0, 0, 0, 0]).unwrap();
    let dicts = G2pDicts { colligation: &coll, user: &user, nonreg: &e, conjects: &e, connect: &c, kps: &t };
    let windows = vec![codes[..1].to_vec(), codes[1..].to_vec(), vec![]];
    let origs = vec![WORD[..2].to_vec(), WORD[2..].to_vec()];
    let out = sentence_morphology_viterbi(&dicts, &windows, &origs);
    assert_eq!(out.len(), 3);
    let first = out[0].as_ref().unwrap();
    assert_eq!(first.len(), 1);
    assert_eq!(first[0].bytes, vec![0xB0, 0xA1]);
    assert_eq!(first[0].marker, 0x02);
    // The two windows do not connect (no connection entries): the second is read by
    // morphology, which finds it in the user dictionary.
    let second = out[1].as_ref().unwrap();
    assert_eq!(second.len(), 1);
    assert_eq!(second[0].bytes, vec![0xB0, 0xB4]);
    assert_eq!(second[0].marker, 0x04);
    assert!(out[2].is_none());
}

#[test]
fn exact_entry_is_found_by_prefix_search() {
    let key = [0x01u8, 0x14, 0x2b];
    let d = one_key_dict(&key, 0x87);
    let exact = d.lookup_records(&key).unwrap();
    assert_eq!(exact.len(), 1);
    assert_eq!(exact[0].kind, 0x07);
    let (m, recs) = d.lookup_prefix_records(&key).unwrap();
    assert_eq!(m.matched, key.len());
    assert_eq!(recs, exact);
    // A longer key whose rest does not match the entry's tail is found by neither.
    let longer = [0x01u8, 0x14, 0x2b, 0x05];
    assert!(d.lookup_records(&longer).is_none());
    assert!(d.lookup_prefix_records(&longer).is_none());
}
