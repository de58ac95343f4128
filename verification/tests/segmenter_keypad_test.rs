use mirae_tts_engine::g2p::codec::KpsTables;
use mirae_tts_engine::g2p::g2p_dict::{codes_to_kps_bytes, kps_bytes_to_codes};
use mirae_tts_engine::keypad::KeyPad;
use mirae_tts_engine::kps9566::Kps9566;
use mirae_tts_engine::segmenter::{tokenize, Sentence};

/// Syllables of the test texts with KPS 9566 codes.
const SYLLABLES: [(char, u16); 21] = [
    ('조', 0xBCBF),
    ('건', 0xB0BC),
    ('안', 0xCAAF),
    ('녕', 0xB2CE),
    ('하', 0xC2D7),
    ('세', 0xBBBD),
    ('요', 0xCAFD),
    ('반', 0xB6A5),
    ('갑', 0xB0C1),
    ('습', 0xBBEA),
    ('니', 0xB2F0),
    ('다', 0xB3A1),
    ('가', 0xB0A1),
    ('나', 0xB1F2),
    ('라', 0xB4F4),
    ('는', 0xB2E3),
    ('원', 0xCBA8),
    ('주', 0xBDC5),
    ('율', 0xCBD3),
    ('입', 0xCBEC),
    ('!', 0x0021),
];

/// A KeyPad table: ASCII as itself, the test syllables as their codes, anything else `?`.
fn keypad() -> KeyPad {
    let mut t = vec![0u8; 65536 * 3];
    for code in 0..65536usize {
        t[code * 3] = 1;
        t[code * 3 + 1] = if code < 0x80 { code as u8 } else { b'?' };
    }
    for (ch, kps) in SYLLABLES {
        let off = ch as usize * 3;
        if kps >= 0x100 {
            t[off] = 2;
            t[off + 1] = (kps >> 8) as u8;
            t[off + 2] = kps as u8;
        }
    }
    KeyPad::parse(&t).unwrap()
}

fn kps() -> Kps9566 {
    let mut txt = String::new();
    for (ch, kps) in SYLLABLES {
        if kps >= 0x100 {
            txt.push_str(&format!("0x{:04X}\t0x{:04X}\t# {}\n", kps, ch as u32, ch));
        }
    }
    Kps9566::from_txt(&txt).unwrap()
}

fn kps_decode(bytes: &[u8]) -> String {
    kps().decode(bytes)
}

fn pipeline(text: &str) -> Vec<Sentence> {
    let kp = keypad();
    let internal = kp.convert_str(text).unwrap();
    tokenize(&internal)
}

#[test]
fn real_keypad_has_65536_entries() {
    let kp = keypad();
    for code in [0x0000u16, 0x0041, 0xAC00, 0xB098, 0xC870, 0x4E00, 0xD7A3, 0xFFFF] {
        let (len, payload) = kp.entry(code);
        assert!(len == 1 || len == 2);
        assert_eq!(payload.len(), len as usize);
    }
    assert_eq!(kp.entry('조' as u16), (2, &[0xbc, 0xbf][..]));
    assert_eq!(kp.entry('건' as u16), (2, &[0xb0, 0xbc][..]));
}

#[test]
fn speech_pkg_word_roundtrip() {
    let kp = keypad();
    assert_eq!(kp.convert_str("조건").unwrap(), &[0xbc, 0xbf, 0xb0, 0xbc]);
    assert_eq!(kps_decode(&[0xbc, 0xbf, 0xb0, 0xbc]), "조건");
    let internal = kp.convert_str("조건입니다.").unwrap();
    assert_eq!(kps_decode(&internal), "조건입니다.");
}

#[test]
fn korean_sentence_split() {
    let sents = pipeline("안녕하세요. 반갑습니다!");
    let texts: Vec<String> = sents.iter().map(|s| kps_decode(&s.text)).collect();
    assert_eq!(texts, vec!["안녕하세요.", " 반갑습니다!"]);
    assert_eq!(sents[0].start, 0);
    assert_eq!(sents[1].start, 5 * 2 + 1);
}

#[test]
fn korean_dot_inside_sentence() {
    let sents = pipeline("가나.다라");
    let texts: Vec<String> = sents.iter().map(|s| kps_decode(&s.text)).collect();
    assert_eq!(texts, vec!["가나.", "다라"]);
}

#[test]
fn decimal_stays_one_sentence() {
    let sents = pipeline("3.14는 원주율");
    let texts: Vec<String> = sents.iter().map(|s| kps_decode(&s.text)).collect();
    assert_eq!(texts.len(), 1);
    assert_eq!(texts[0], "3.14는 원주율");
}

fn tables() -> KpsTables {
    let row_starts: Vec<u16> = (0..19u16).map(|i| 0xB0A1 + 0x180 * i).collect();
    let mut col_starts = vec![0xffffu16; 421];
    for r in 1..=19usize {
        for c in 1..=21usize {
            col_starts[r * 21 + c] = 0xB0A1 + 0x180 * (r as u16 - 1) + 0x13 * (c as u16 - 1);
        }
    }
    let mut col_masks = vec![0u32; 399];
    for onset in 0..19usize {
        col_masks[onset * 21] = 0b100101;
    }
    KpsTables {
        row_starts,
        col_starts,
        col_masks,
        sino_digits: (0..10u16).map(|d| 0xB0A1 + d).collect(),
        sino_units: (0..6u16).map(|u| 0xB0B4 + u).collect(),
    }
}

#[test]
fn kps_codes_round_trip_through_the_tables() {
    let t = tables();
    assert!(t.is_wf());
    let word = [0xB0, 0xA1, 0xB0, 0xB4, b'7', 0xB0, 0xC7];
    let codes = kps_bytes_to_codes(&t, &word).unwrap();
    assert_eq!(codes.len(), 4);
    assert_eq!(codes[2], 0x8037);
    assert_eq!(codes_to_kps_bytes(&t, &codes).unwrap(), word.to_vec());
    assert_eq!(codes_to_kps_bytes(&t, &[0x8030]).unwrap(), b"0");
    assert_eq!(codes_to_kps_bytes(&t, &[0x802d]).unwrap(), b"-");
    assert_eq!(codes_to_kps_bytes(&t, &[0x802e]).unwrap(), b".");
    assert!(kps_bytes_to_codes(&t, &[0xa1]).is_none());
}

#[test]
fn malformed_tables_are_refused() {
    let mut t = tables();
    t.row_starts.pop();
    assert!(!t.is_wf());
}
