use mirae_tts_engine::connect::ConnectMatrix;
use mirae_tts_engine::dict::Dict;
use mirae_tts_engine::g2p::codec::KpsTables;
use mirae_tts_engine::g2p::g2p_dict::G2pDicts;
use mirae_tts_engine::kps9566::Kps9566;
use mirae_tts_engine::pipeline::sentence_to_records;
use mirae_tts_engine::record::ProsodyRecord;
use mirae_tts_engine::render::UnitRecord;
use mirae_tts_engine::segmenter::Sentence;
use mirae_tts_engine::synthesis::{render_units_of, text_records};
use mirae_tts_engine::tone::{apply_sandhi, build_sentence, sandhi_is_defined, PAUSE_CODE};
use mirae_tts_engine::unit_select::{ProcessedUnits, UnitRequest, UnitSelection};
use mirae_tts_engine::voice_info::VoiceInfoEntry;

fn empty_dict() -> Dict {
    let mut d = Vec::new();
    d.extend_from_slice(&2u32.to_le_bytes());
    d.extend_from_slice(&0u32.to_le_bytes());
    d.extend_from_slice(&[0u8; 8]);
    d.extend_from_slice(&[0u8; 2]);
    d.extend_from_slice(&[0u8; 16]);
    Dict::from_bytes(&d).unwrap()
}

fn tables() -> KpsTables {
    let row_starts: Vec<u16> = (0..19u16).map(|i| 0xB0A1 + 0x180 * i).collect();
    let mut col_starts = vec![0xffffu16; 421];
    for r in 1..=19usize {
        for c in 1..=21usize {
            col_starts[r * 21 + c] = 0xB0A1 + 0x180 * (r as u16 - 1) + 0x13 * (c as u16 - 1);
        }
    }
    let mut col_masks = vec![0u32; 399];
    for onset in 0..19usize {
        col_masks[onset * 21] = 0b100101;
    }
    KpsTables {
        row_starts,
        col_starts,
        col_masks,
        sino_digits: (0..10u16).map(|d| 0xB0A1 + d).collect(),
        sino_units: (0..6u16).map(|u| 0xB0B4 + u).collect(),
    }
}

#[test]
fn text_records_append_each_sentence_through_the_tone_pass() {
    let d = empty_dict();
    let c = ConnectMatrix::parse(&[1, 0, 0, 0, 0]).unwrap();
    let t = tables();
    let kps = Kps9566::from_txt("").unwrap();
    let dicts = G2pDicts { colligation: &d, user: &d, nonreg: &d, conjects: &d, connect: &c, kps: &t };
    let sents = vec![
        Sentence { text: vec![0xB0, 0xA1, b'.'], start: 0 },
        Sentence { text: vec![0xB0, 0xB4, 0xB0, 0xA1], start: 3 },
    ];
    let all = text_records(&dicts, &kps, &sents).unwrap();
    let mut expect: Vec<ProsodyRecord> = Vec::new();
    for s in &sents {
        for mut g in sentence_to_records(&dicts, &kps, s) {
            apply_sandhi(&mut expect, &mut g);
        }
    }
    assert_eq!(all, expect);
    assert_eq!(all.len(), 3);
    assert_eq!(all[0].code, 0x6C00);
    assert!(text_records(&dicts, &kps, &[]).unwrap().is_empty());
}

#[test]
fn tone_pass_refuses_a_pause_led_sentence_after_nothing() {
    let empty: Vec<ProsodyRecord> = Vec::new();
    let s = build_sentence(&[PAUSE_CODE, 0x0101], &[0, 0]);
    assert!(!sandhi_is_defined(&empty, &s));
    let s2 = build_sentence(&[PAUSE_CODE, PAUSE_CODE], &[0, 0]);
    assert!(sandhi_is_defined(&empty, &s2));
    let s3 = build_sentence(&[0x0100, PAUSE_CODE], &[0, 0]);
    assert!(sandhi_is_defined(&empty, &s3));
}

fn entry(woff: u32, wlen: u32, pitch: u16, classcode: u16, pause: i16) -> VoiceInfoEntry {
    VoiceInfoEntry { woff, wlen, pitch, classcode, pause, ..VoiceInfoEntry::default() }
}

#[test]
fn render_units_take_the_unit_in_effect_and_its_extra() {
    let req = UnitRequest { cur: 0x6c12, prev: 0x1486, next: 0x6d81, pitch: 90, class: 3, flags: 0 };
    let plain = UnitSelection {
        request: req,
        data: entry(100, 20, 0xFFFF, 0x1234, 5),
        marker: 10,
        data2: Some(entry(200, 30, 80, 0x0203, 0)),
        marker2: Some(30000),
        extra: None,
    };
    let smoothed = UnitSelection {
        data2: Some(entry(300, 40, 70, 0x0105, -2)),
        marker2: Some(30007),
        extra: Some(entry(400, 50, 60, 0x0011, 1)),
        ..plain
    };
    let processed = ProcessedUnits { units: vec![plain, smoothed], total_samples: 0 };
    let units = render_units_of(&processed);
    assert_eq!(units.len(), 2);
    assert_eq!(units[0].code_cur, 0x6c12);
    assert_eq!(units[0].code_next, 0x6d81);
    // A replacement whose marker is a multiple of 10000 is not in effect.
    assert_eq!(units[0].record, UnitRecord { woff: 100, wlen: 20, pitch: -1, classcode: 0x34, pause: 5 });
    assert_eq!(units[0].extra, None);
    assert_eq!(units[1].record, UnitRecord { woff: 300, wlen: 40, pitch: 70, classcode: 0x05, pause: -2 });
    assert_eq!(units[1].extra, Some(UnitRecord { woff: 400, wlen: 50, pitch: 60, classcode: 0x11, pause: 1 }));
}
