//! Letter-by-letter readings of ASCII letters and Korean jamo.
use vstd::prelude::*;
use crate::g2p::g2p_dict::{Reading, MARKER_FALLBACK};

verus! {

/// KPS 9566 reading of the `i`-th Latin letter name (0 = a).
pub open spec fn letter_name_spec(i: u8) -> Seq<u8> {
    match i {
        0 => seq![0xcb, 0xe6, 0xcb, 0xcb], // a → 에이
        1 => seq![0xb9, 0xbe], // b → 비
        2 => seq![0xc8, 0xc1], // c → 씨
        3 => seq![0xb4, 0xd1], // d → 디
        4 => seq![0xcb, 0xcb], // e → 이
        5 => seq![0xcb, 0xe6, 0xc2, 0xa3], // f → 에프
        6 => seq![0xbd, 0xb8], // g → 지
        7 => seq![0xcb, 0xe6, 0xbe, 0xde], // h → 에이치
        8 => seq![0xca, 0xad, 0xcb, 0xcb], // i → 아이
        9 => seq![0xbd, 0xa3, 0xcb, 0xcb], // j → 제이
        10 => seq![0xbf, 0xe8, 0xcb, 0xcb], // k → 케이
        11 => seq![0xcb, 0xe9], // l → 엘
        12 => seq![0xcb, 0xea], // m → 엠
        13 => seq![0xcb, 0xe8], // n → 엔
        14 => seq![0xca, 0xef, 0xcb, 0xa7], // o → 오
        15 => seq![0xc2, 0xaa], // p → 피
        16 => seq![0xbf, 0xc9], // q → 큐
        17 => seq![0xca, 0xad, 0xb6, 0xa3], // r → 알
        18 => seq![0xcb, 0xe6, 0xc8, 0xb8], // s → 에스
        19 => seq![0xc0, 0xec], // t → 티
        20 => seq![0xcb, 0xb1], // u → 우
        21 => seq![0xb9, 0xb6, 0xcb, 0xcb], // v → 브이
        22 => seq![0xb3, 0xf3, 0xb9, 0xa6, 0xcb, 0xb1], // w → 더블유
        23 => seq![0xcb, 0xe7, 0xc8, 0xb8], // x → 엑스
        24 => seq![0xcc, 0xae, 0xcb, 0xcb], // y → 와이
        25 => seq![0xbd, 0xa3, 0xc0, 0xe2], // z → 제트
        _ => Seq::empty(),
    }
}

fn letter_name(i: u8) -> (r: Vec<u8>)
    requires
        i < 26,
    ensures
        r@ == letter_name_spec(i),
{
    match i {
        0 => vec![0xcb, 0xe6, 0xcb, 0xcb],
        1 => vec![0xb9, 0xbe],
        2 => vec![0xc8, 0xc1],
        3 => vec![0xb4, 0xd1],
        4 => vec![0xcb, 0xcb],
        5 => vec![0xcb, 0xe6, 0xc2, 0xa3],
        6 => vec![0xbd, 0xb8],
        7 => vec![0xcb, 0xe6, 0xbe, 0xde],
        8 => vec![0xca, 0xad, 0xcb, 0xcb],
        9 => vec![0xbd, 0xa3, 0xcb, 0xcb],
        10 => vec![0xbf, 0xe8, 0xcb, 0xcb],
        11 => vec![0xcb, 0xe9],
        12 => vec![0xcb, 0xea],
        13 => vec![0xcb, 0xe8],
        14 => vec![0xca, 0xef, 0xcb, 0xa7],
        15 => vec![0xc2, 0xaa],
        16 => vec![0xbf, 0xc9],
        17 => vec![0xca, 0xad, 0xb6, 0xa3],
        18 => vec![0xcb, 0xe6, 0xc8, 0xb8],
        19 => vec![0xc0, 0xec],
        20 => vec![0xcb, 0xb1],
        21 => vec![0xb9, 0xb6, 0xcb, 0xcb],
        22 => vec![0xb3, 0xf3, 0xb9, 0xa6, 0xcb, 0xb1],
        23 => vec![0xcb, 0xe7, 0xc8, 0xb8],
        24 => vec![0xcc, 0xae, 0xcb, 0xcb],
        25 => vec![0xbd, 0xa3, 0xc0, 0xe2],
        _ => Vec::new(),
    }
}

/// Index of a Latin letter, either case (bit 5 set folds upper case to lower case).
pub open spec fn letter_index(code: u8) -> Option<u8> {
    let lower = code | 0x20;
    if 0x61 <= lower <= 0x7a {
        Some((lower - 0x61) as u8)
    } else {
        None
    }
}

/// The Korean name of each lower-case Latin letter in KPS 9566, by the letter's ASCII code:
/// 에이, 비, 씨, 디, 이, 에프, 지, 에이치, 아이, 제이, 케이, 엘, 엠, 엔, 오, 피, 큐, 알, 에스, 티, 우,
/// 브이, 더블유, 엑스, 와이, 제트.
pub open spec fn korean_letter_name(code: u8) -> Seq<u8> {
    match code {
        0x61 => seq![0xcb, 0xe6, 0xcb, 0xcb],
        0x62 => seq![0xb9, 0xbe],
        0x63 => seq![0xc8, 0xc1],
        0x64 => seq![0xb4, 0xd1],
        0x65 => seq![0xcb, 0xcb],
        0x66 => seq![0xcb, 0xe6, 0xc2, 0xa3],
        0x67 => seq![0xbd, 0xb8],
        0x68 => seq![0xcb, 0xe6, 0xbe, 0xde],
        0x69 => seq![0xca, 0xad, 0xcb, 0xcb],
        0x6a => seq![0xbd, 0xa3, 0xcb, 0xcb],
        0x6b => seq![0xbf, 0xe8, 0xcb, 0xcb],
        0x6c => seq![0xcb, 0xe9],
        0x6d => seq![0xcb, 0xea],
        0x6e => seq![0xcb, 0xe8],
        0x6f => seq![0xca, 0xef, 0xcb, 0xa7],
        0x70 => seq![0xc2, 0xaa],
        0x71 => seq![0xbf, 0xc9],
        0x72 => seq![0xca, 0xad, 0xb6, 0xa3],
        0x73 => seq![0xcb, 0xe6, 0xc8, 0xb8],
        0x74 => seq![0xc0, 0xec],
        0x75 => seq![0xcb, 0xb1],
        0x76 => seq![0xb9, 0xb6, 0xcb, 0xcb],
        0x77 => seq![0xb3, 0xf3, 0xb9, 0xa6, 0xcb, 0xb1],
        0x78 => seq![0xcb, 0xe7, 0xc8, 0xb8],
        0x79 => seq![0xcc, 0xae, 0xcb, 0xcb],
        0x7a => seq![0xbd, 0xa3, 0xc0, 0xe2],
        _ => Seq::empty(),
    }
}

/// Upper and lower case of a letter fold to the same code.
proof fn lemma_fold_case(c: u8)
    by (bit_vector)
    requires
        0x61 <= c <= 0x7a,
    ensures
        c | 0x20 == c,
        ((c - 0x20) as u8) | 0x20 == c,
{
}

/// Leading bytes of a reading, as one number (used to tell readings apart).
spec fn reading_key(s: Seq<u8>) -> int {
    s[0] * 65536 + s[1] * 256 + if s.len() > 2 {
        s[2] as int
    } else {
        0
    }
}

/// Each ASCII letter, in either case, reads as the Korean name of the letter.
pub proof fn lemma_letter_readings(code: u8)
    requires
        0x61 <= code <= 0x7a,
    ensures
        letter_index(code) == Some((code - 0x61) as u8),
        letter_index((code - 0x20) as u8) == Some((code - 0x61) as u8),
        letter_name_spec((code - 0x61) as u8) == korean_letter_name(code),
{
    lemma_fold_case(code);
}

/// No two letters share a reading.
pub proof fn lemma_letter_readings_distinct(i: u8, j: u8)
    requires
        i < 26,
        j < 26,
        i != j,
    ensures
        letter_name_spec(i) != letter_name_spec(j),
{
    assert(reading_key(letter_name_spec(i)) != reading_key(letter_name_spec(j)));
}

/// Name reading of an ASCII letter (either case), or `None` for any other byte.
pub fn ascii_letter_reading(code: u8) -> (r: Option<Vec<u8>>)
    ensures
        match letter_index(code) {
            Some(i) => r matches Some(v) && v@ == letter_name_spec(i),
            None => r is None,
        },
{
    let lower = code | 0x20;
    if lower >= 0x61 && lower <= 0x7a {
        Some(letter_name(lower - 0x61))
    } else {
        None
    }
}

/// Name reading of a two-byte jamo code.
pub open spec fn jamo_name_spec(code: u16) -> Option<Seq<u8>> {
    match code {
        0xA4A1 => Some(seq![0xbd, 0xbc, 0xc7, 0xec]), // ㄱ → 기역
        0xA4A2 => Some(seq![0xc5, 0xe0, 0xc8, 0xc4]), // ㄴ → 니은
        0xA4A3 => Some(seq![0xb4, 0xd1, 0xb8, 0xf2]), // ㄷ → 디귿
        0xA4A4 => Some(seq![0xc0, 0xec, 0xc8, 0xc4]), // ㄹ → 리을
        0xA4A5 => Some(seq![0xbb, 0xe8, 0xc8, 0xb0]), // ㅁ → 미음
        0xA4A6 => Some(seq![0xb9, 0xbe, 0xc8, 0xb8]), // ㅂ → 비읍
        0xA4A7 => Some(seq![0xc0, 0xaf, 0xc6, 0xf7]), // ㅅ → 시옷
        0xA4A8 => Some(seq![0xc8, 0xb0, 0xc8, 0xb0]), // ㅇ → 이응
        0xA4A9 => Some(seq![0xbd, 0xbc, 0xc8, 0xb0]), // ㅈ → 지읒
        0xA4AA => Some(seq![0xc7, 0xcf, 0xc8, 0xb0]), // ㅊ → 치읓
        0xA4AB => Some(seq![0xbf, 0xa4, 0xc8, 0xb0]), // ㅋ → 키읔
        0xA4AC => Some(seq![0xc0, 0xec, 0xc8, 0xb0]), // ㅌ → 티읕
        0xA4AD => Some(seq![0xc2, 0xaa, 0xc8, 0xb8]), // ㅍ → 피읍
        0xA4AE => Some(seq![0xc7, 0xe5, 0xc8, 0xb0]), // ㅎ → 히읗
        0xA5A1 => Some(seq![0xc5, 0xb8]), // ㅏ → 아
        0xA5A2 => Some(seq![0xc5, 0xb8]), // ㅑ → 야
        0xA5A7 => Some(seq![0xc5, 0xb4]), // ㅓ → 어
        0xA5A8 => Some(seq![0xc5, 0xb8]), // ㅕ → 여
        0xA5A9 => Some(seq![0xc6, 0xf7]), // ㅗ → 오
        0xA5AA => Some(seq![0xc6, 0xf7]), // ㅛ → 요
        0xA5B7 => Some(seq![0xc6, 0xb4]), // ㅜ → 우
        0xA5B8 => Some(seq![0xc6, 0xb8]), // ㅠ → 유
        0xA5B9 => Some(seq![0xc8, 0xb0]), // ㅡ → 으
        0xA5BA => Some(seq![0xc8, 0xb0]), // ㅣ → 이
        _ => None,
    }
}

/// Name reading of a two-byte KPS 9566 jamo code, or `None` for other codes.
pub fn two_byte_reading(code: u16) -> (r: Option<Vec<u8>>)
    ensures
        match jamo_name_spec(code) {
            Some(s) => r matches Some(v) && v@ == s,
            None => r is None,
        },
{
    match code {
        0xA4A1 => Some(vec![0xbd, 0xbc, 0xc7, 0xec]),
        0xA4A2 => Some(vec![0xc5, 0xe0, 0xc8, 0xc4]),
        0xA4A3 => Some(vec![0xb4, 0xd1, 0xb8, 0xf2]),
        0xA4A4 => Some(vec![0xc0, 0xec, 0xc8, 0xc4]),
        0xA4A5 => Some(vec![0xbb, 0xe8, 0xc8, 0xb0]),
        0xA4A6 => Some(vec![0xb9, 0xbe, 0xc8, 0xb8]),
        0xA4A7 => Some(vec![0xc0, 0xaf, 0xc6, 0xf7]),
        0xA4A8 => Some(vec![0xc8, 0xb0, 0xc8, 0xb0]),
        0xA4A9 => Some(vec![0xbd, 0xbc, 0xc8, 0xb0]),
        0xA4AA => Some(vec![0xc7, 0xcf, 0xc8, 0xb0]),
        0xA4AB => Some(vec![0xbf, 0xa4, 0xc8, 0xb0]),
        0xA4AC => Some(vec![0xc0, 0xec, 0xc8, 0xb0]),
        0xA4AD => Some(vec![0xc2, 0xaa, 0xc8, 0xb8]),
        0xA4AE => Some(vec![0xc7, 0xe5, 0xc8, 0xb0]),
        0xA5A1 => Some(vec![0xc5, 0xb8]),
        0xA5A2 => Some(vec![0xc5, 0xb8]),
        0xA5A7 => Some(vec![0xc5, 0xb4]),
        0xA5A8 => Some(vec![0xc5, 0xb8]),
        0xA5A9 => Some(vec![0xc6, 0xf7]),
        0xA5AA => Some(vec![0xc6, 0xf7]),
        0xA5B7 => Some(vec![0xc6, 0xb4]),
        0xA5B8 => Some(vec![0xc6, 0xb8]),
        0xA5B9 => Some(vec![0xc8, 0xb0]),
        0xA5BA => Some(vec![0xc8, 0xb0]),
        _ => None,
    }
}

/// Morphology types read letter by letter.
pub open spec fn is_letter_type_spec(t: u8) -> bool {
    t == 0x1f || t == 0x20 || t == 0x22 || t == 0x23 || t == 0x24 || t == 0x25
}

/// Whether a morphology type is read letter by letter.
pub fn is_letter_reading_type(morph_type: u8) -> (r: bool)
    ensures
        r == is_letter_type_spec(morph_type),
{
    morph_type == 0x1f || morph_type == 0x20 || morph_type == 0x22 || morph_type == 0x23
        || morph_type == 0x24 || morph_type == 0x25
}

/// Whether a byte is an ASCII letter.
pub open spec fn is_ascii_alpha(b: u8) -> bool {
    (0x41 <= b <= 0x5a) || (0x61 <= b <= 0x7a)
}

/// Whether any byte is an ASCII letter.
pub fn has_ascii_alpha(bytes: &[u8]) -> (r: bool)
    ensures
        r == exists|i: int| 0 <= i < bytes@.len() && is_ascii_alpha(#[trigger] bytes@[i]),
{
    let mut i: usize = 0;
    while i < bytes.len()
        invariant
            i <= bytes@.len(),
            forall|j: int| 0 <= j < i ==> !is_ascii_alpha(#[trigger] bytes@[j]),
        decreases bytes@.len() - i,
    {
        let b = bytes[i];
        if (0x41 <= b && b <= 0x5a) || (0x61 <= b && b <= 0x7a) {
            return true;
        }
        i = i + 1;
    }
    false
}

/// Reading with the letter marker.
pub open spec fn letter_reading(bytes: Seq<u8>) -> (Seq<u8>, Option<u16>, u8) {
    (bytes, None, 1)
}

/// Fallback reading of the given bytes.
pub open spec fn fallback_reading(bytes: Seq<u8>) -> (Seq<u8>, Option<u16>, u8) {
    (bytes, None, MARKER_FALLBACK)
}

/// A reading as plain values.
pub open spec fn reading_view(r: Reading) -> (Seq<u8>, Option<u16>, u8) {
    (r.bytes@, r.packed, r.marker)
}

/// Reading of one byte read as a letter (fallback for non-letters).
pub open spec fn byte_reading(b: u8) -> (Seq<u8>, Option<u16>, u8) {
    match letter_index(b) {
        Some(i) => letter_reading(letter_name_spec(i)),
        None => fallback_reading(seq![b]),
    }
}

fn reading_of_byte(b: u8) -> (r: Reading)
    ensures
        reading_view(r) == byte_reading(b),
{
    match ascii_letter_reading(b) {
        Some(v) => Reading { bytes: v, packed: None, marker: 1 },
        None => {
            let v: Vec<u8> = vec![b];
            Reading { bytes: v, packed: None, marker: MARKER_FALLBACK }
        },
    }
}

/// Each byte of a word read as a letter.
pub fn ascii_letter_by_letter(word: &[u8]) -> (r: Vec<Reading>)
    ensures
        r@.len() == word@.len(),
        forall|i: int| 0 <= i < word@.len() ==> reading_view(#[trigger] r@[i]) == byte_reading(word@[i]),
{
    let mut out: Vec<Reading> = Vec::new();
    let mut i: usize = 0;
    while i < word.len()
        invariant
            i <= word@.len(),
            out@.len() == i,
            forall|j: int| 0 <= j < i ==> reading_view(#[trigger] out@[j]) == byte_reading(word@[j]),
        decreases word@.len() - i,
    {
        let r = reading_of_byte(word[i]);
        out.push(r);
        i = i + 1;
    }
    out
}

/// Readings of a word from byte `i` on: ASCII bytes one at a time, two-byte codes as jamo names.
pub open spec fn dispatch_from(w: Seq<u8>, i: int) -> Seq<(Seq<u8>, Option<u16>, u8)>
    decreases w.len() - i,
{
    if i < 0 || i >= w.len() {
        Seq::empty()
    } else {
        let b = w[i];
        if b < 0x80 {
            seq![byte_reading(b)] + dispatch_from(w, i + 1)
        } else if b >= 0xa1 && i + 1 < w.len() {
            let code = (b * 256 + w[i + 1]) as u16;
            seq![
                match jamo_name_spec(code) {
                    Some(s) => letter_reading(s),
                    None => fallback_reading(seq![b, w[i + 1]]),
                },
            ] + dispatch_from(w, i + 2)
        } else {
            seq![fallback_reading(seq![b])] + dispatch_from(w, i + 1)
        }
    }
}

/// The readings as plain values.
pub open spec fn readings_view(v: Seq<Reading>) -> Seq<(Seq<u8>, Option<u16>, u8)> {
    v.map_values(|r: Reading| reading_view(r))
}

/// Letter-by-letter readings of a word of ASCII letters and two-byte jamo codes.
pub fn letter_reading_dispatch(word: &[u8]) -> (r: Vec<Reading>)
    ensures
        readings_view(r@) == dispatch_from(word@, 0),
{
    let mut out: Vec<Reading> = Vec::new();
    let mut i: usize = 0;
    while i < word.len()
        invariant
            i <= word@.len(),
            dispatch_from(word@, 0) == readings_view(out@) + dispatch_from(word@, i as int),
        decreases word@.len() - i,
    {
        let ghost before = readings_view(out@);
        let ghost gi = i as int;
        assert(readings_view(out@) == before);
        let b = word[i];
        if b < 0x80 {
            out.push(reading_of_byte(b));
            assert(dispatch_from(word@, gi) == seq![reading_view(out@.last())] + dispatch_from(word@, gi + 1));
            i = i + 1;
        } else if b >= 0xa1 && i + 1 < word.len() {
            let b1 = word[i + 1];
            let code: u16 = (b as u16) * 256 + (b1 as u16);
            assert(code == (b * 256 + b1) as u16);
            match two_byte_reading(code) {
                Some(v) => out.push(Reading { bytes: v, packed: None, marker: 1 }),
                None => {
                    let v: Vec<u8> = vec![b, b1];
                    assert(v@ =~= seq![b, b1]);
                    out.push(Reading { bytes: v, packed: None, marker: MARKER_FALLBACK });
                },
            }
            assert(dispatch_from(word@, gi) == seq![reading_view(out@.last())] + dispatch_from(word@, gi + 2));
            i = i + 2;
        } else {
            let v: Vec<u8> = vec![b];
            assert(v@ =~= seq![b]);
            out.push(Reading { bytes: v, packed: None, marker: MARKER_FALLBACK });
            i = i + 1;
        }
        assert(readings_view(out@) =~= before.push(reading_view(out@.last())));
        assert(readings_view(out@) + dispatch_from(word@, i as int) =~= before + dispatch_from(word@, gi));
    }
    assert(readings_view(out@) + Seq::empty() =~= readings_view(out@));
    out
}

} // verus!
