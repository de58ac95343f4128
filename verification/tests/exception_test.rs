use mirae_tts_engine::connect::ConnectMatrix;
use mirae_tts_engine::dict::Dict;
use mirae_tts_engine::g2p::codec::KpsTables;
use mirae_tts_engine::g2p::g2p_dict::{word_g2p, G2pDicts, MARKER_FALLBACK};
use mirae_tts_engine::g2p::{lookup_exception, ExceptionOutcome};
use mirae_tts_engine::kps9566::Kps9566;

/// Decoding table for the syllables of the test words (codes as the words' own bytes give them).
fn dec(bytes: &[u8]) -> String {
    let txt = "0xBCAD\t0xC804\n0xC3CD\t0xD574\n0xC2D7\t0xD558\n0xCADE\t0xC5EC\n0xB4DD\t0xB300\n\
               0xBAB7\t0xC11C\n0xB2F7\t0xB294\n";
    Kps9566::from_txt(txt).unwrap().decode(bytes)
}

#[test]
fn exception_daethaeneun_three_morphemes() {
    let rule = lookup_exception(&[0xb4, 0xdd, 0xc3, 0xcd, 0xba, 0xb7, 0xb2, 0xf7]).unwrap();
    match rule.out {
        ExceptionOutcome::Hard(h) => {
            assert_eq!(dec(&h.main), "대하");
            assert_eq!(dec(&h.sub), "여서");
            assert_eq!(h.sub2.as_deref().map(dec).as_deref(), Some("는"));
            assert_eq!(h.morphemes, 3);
            assert_eq!(h.f1389, 0x15);
            assert_eq!(h.f1400, 0x91);
        }
        _ => panic!("expected Hard"),
    }
}

#[test]
fn exception_first_match_wins() {
    let rule = lookup_exception(&[0xbc, 0xad, 0xc3, 0xcd]).unwrap();
    assert!(matches!(rule.out, ExceptionOutcome::Lookup(f) if dec(&f) == "전하여"));
}

fn empty_dict() -> Dict {
    let mut d = Vec::new();
    d.extend_from_slice(&2u32.to_le_bytes());
    d.extend_from_slice(&0u32.to_le_bytes());
    d.extend_from_slice(&[0u8; 8]);
    d.extend_from_slice(&[0u8; 2]);
    d.extend_from_slice(&[0u8; 16]);
    Dict::from_bytes(&d).unwrap()
}

fn tables() -> KpsTables {
    let row_starts: Vec<u16> = (0..19u16).map(|i| 0xB0A1 + 0x180 * i).collect();
    let mut col_starts = vec![0xffffu16; 421];
    for r in 1..=19usize {
        for c in 1..=21usize {
            col_starts[r * 21 + c] = 0xB0A1 + 0x180 * (r as u16 - 1) + 0x13 * (c as u16 - 1);
        }
    }
    let mut col_masks = vec![0u32; 399];
    for onset in 0..19usize {
        col_masks[onset * 21] = 0b100101;
    }
    KpsTables {
        row_starts,
        col_starts,
        col_masks,
        sino_digits: (0..10u16).map(|d| 0xB0A1 + d).collect(),
        sino_units: (0..6u16).map(|u| 0xB0B4 + u).collect(),
    }
}

#[test]
fn exception_words_are_read_by_their_rule() {
    let d = empty_dict();
    let c = ConnectMatrix::parse(&[1, 0, 0, 0, 0]).unwrap();
    let t = tables();
    let dicts = G2pDicts { colligation: &d, user: &d, nonreg: &d, conjects: &d, connect: &c, kps: &t };
    // 전해 is read through its normalized form 전하여.
    let form = match lookup_exception(&[0xbc, 0xad, 0xc3, 0xcd]).unwrap().out {
        ExceptionOutcome::Lookup(f) => f,
        _ => panic!("expected Lookup"),
    };
    let r = word_g2p(&dicts, &[0xbc, 0xad, 0xc3, 0xcd]);
    assert_eq!(r.len(), 1);
    assert_eq!(r[0].bytes, form);
    assert_eq!(r[0].marker, MARKER_FALLBACK);
    // 비하여 is its own form: read as itself.
    let w = [0xb9, 0xbe, 0xc2, 0xd7, 0xca, 0xde];
    let r = word_g2p(&dicts, &w);
    assert_eq!(r.len(), 1);
    assert_eq!(r[0].bytes, w.to_vec());
    assert_eq!(r[0].marker, MARKER_FALLBACK);
    // 자도 has a hard-coded reading: its fragments, each with the rule's marker.
    let rule = lookup_exception(&[0xbb, 0xf4, 0xb4, 0xaa]).unwrap();
    let h = match rule.out {
        ExceptionOutcome::Hard(h) => h,
        _ => panic!("expected Hard"),
    };
    let r = word_g2p(&dicts, &[0xbb, 0xf4, 0xb4, 0xaa]);
    assert_eq!(r.len(), 2);
    assert_eq!(r[0].bytes, h.main);
    assert_eq!(r[1].bytes, h.sub);
    assert!(r.iter().all(|x| x.marker == h.marker));
    assert_eq!(h.marker, 0x04);
}

#[test]
fn unconvertible_word_reads_as_itself() {
    let d = empty_dict();
    let c = ConnectMatrix::parse(&[1, 0, 0, 0, 0]).unwrap();
    let t = tables();
    let dicts = G2pDicts { colligation: &d, user: &d, nonreg: &d, conjects: &d, connect: &c, kps: &t };
    // A lone lead byte does not convert: the word reads as itself.
    let r = word_g2p(&dicts, &[0xb0]);
    assert_eq!(r.len(), 1);
    assert_eq!(r[0].bytes, vec![0xb0]);
    assert_eq!(r[0].marker, MARKER_FALLBACK);
}
