//! Korean syllable decomposition into the KPS 9566 jamo order used by VoiceInfo.
//!
//! Phoneme IDs pack a syllable as `(final << 10) | (medium << 5) | initial`,
//! each field in KPS 9566 order; non-Korean characters carry bit 15.
use vstd::prelude::*;

verus! {

/// First code point of the Unicode Hangul Syllables block.
pub const KOREAN_SYLLABLE_BASE: u32 = 0xAC00;
/// Last code point of the Unicode Hangul Syllables block.
pub const KOREAN_SYLLABLE_END: u32 = 0xD7A3;
/// Number of final consonant slots (including "no final").
pub const FINAL_COUNT: u32 = 28;
/// Number of medial vowels.
pub const MEDIUM_COUNT: u32 = 21;

/// Unicode initial index (0..19) to KPS 9566 onset index.
/// KPS order: ㄱ,ㄴ,ㄷ,ㄹ,ㅁ,ㅂ,ㅅ,ㅈ,ㅊ,ㅋ,ㅌ,ㅍ,ㅎ,ㄲ,ㄸ,ㅃ,ㅆ,ㅉ,ㅇ
pub const INITIAL_MAP: [u8; 19] = [0, 13, 1, 2, 14, 3, 4, 5, 15, 6, 16, 18, 7, 17, 8, 9, 10, 11, 12];

/// Unicode medial index (0..21) to KPS 9566 vowel index.
/// KPS order: ㅏ,ㅑ,ㅓ,ㅕ,ㅗ,ㅛ,ㅜ,ㅠ,ㅡ,ㅣ,ㅐ,ㅒ,ㅔ,ㅖ,ㅚ,ㅟ,ㅢ,ㅘ,ㅝ,ㅙ,ㅞ
pub const MEDIUM_MAP: [u8; 21] = [
    0, 10, 1, 11, 2, 12, 3, 13, 4, 17, 19, 14, 5, 6, 18, 20, 15, 7, 8, 16, 9,
];

/// Unicode final index (0..28) to the raw KPS 9566 final index (27 = no final).
pub const FINAL_MAP: [u8; 28] = [
    27, 0, 25, 1, 2, 3, 4, 5, 6, 7, 8, 9, 10, 11, 12, 13, 14, 15, 16, 17, 26, 18, 19, 20, 21, 22,
    23, 24,
];

/// Coda neutralization: raw KPS final index to the neutralized coda group used by VoiceInfo.
pub const CODA_REMAP: [u8; 28] = [
    0, 0, 2, 2, 2, 5, 6, 0, 14, 15, 6, 6, 15, 6, 14, 15, 15, 5, 18, 5, 5, 0, 5, 15, 5, 0, 5, 27,
];

/// Vowel kind by KPS vowel index: 1 = atomic (direct lookup), 0 = compound.
pub const VOWEL_FLAGS: [u8; 21] = [1, 0, 1, 0, 1, 0, 1, 0, 1, 1, 1, 0, 1, 0, 1, 1, 0, 0, 0, 0, 0];

/// First vowel component used in consonant+vowel split mode (KPS vowel order).
pub const VOWEL_FIRST_COMPONENT: [u8; 21] = [
    0, 9, 2, 9, 4, 9, 6, 9, 8, 9, 10, 9, 12, 9, 14, 6, 8, 4, 6, 4, 6,
];

/// Vowel substitution table (KPS vowel order).
pub const VOWEL_SUBSTITUTE: [u8; 21] = [
    0, 0, 2, 2, 4, 4, 6, 6, 8, 9, 10, 10, 12, 12, 14, 9, 9, 0, 2, 14, 12,
];

/// Coda group value for "no coda / vowel boundary".
pub const CODA_NO_CODA: u8 = 27;

/// KPS 9566 onset index of ㅇ (silent onset).
pub const IEUNG_INITIAL: u8 = 18;

/// Alias of [`CODA_NO_CODA`] kept for callers of the older name.
pub const CHO_VOWEL_MARKER: u8 = 27;

/// A decomposed Korean syllable in VoiceInfo's KPS 9566 representation.
#[derive(Debug, Clone, Copy, PartialEq, Eq)]
pub struct KoreanJamo {
    /// Initial consonant in KPS 9566 order: 0-18.
    pub initial: u8,
    /// Medium vowel in KPS 9566 order: 0-20.
    pub medium: u8,
    /// Raw KPS 9566 final index (0-27).
    pub final_index: u8,
}

/// Kind of pause a punctuation character produces.
#[derive(Debug, Clone, Copy, PartialEq, Eq)]
pub enum PauseType {
    Period,
    Comma,
    Question,
    Exclamation,
    Break,
}

/// Result of decomposing a single character.
#[derive(Debug, Clone, Copy, PartialEq, Eq)]
pub enum DecomposedChar {
    /// Korean syllable decomposed into jamo.
    KoreanSyllable(KoreanJamo),
    /// Non-Korean character, in the engine's bit-15 encoding.
    Other(u16),
    /// Space or tab.
    Space,
    /// Punctuation that generates a pause.
    Pause(PauseType),
}

/// The jamo triple of a code point inside the Hangul Syllables block.
pub open spec fn syllable_jamo(cp: u32) -> KoreanJamo
    recommends
        KOREAN_SYLLABLE_BASE <= cp <= KOREAN_SYLLABLE_END,
{
    let off = cp - KOREAN_SYLLABLE_BASE;
    KoreanJamo {
        initial: INITIAL_MAP@[off / 588],
        medium: MEDIUM_MAP@[(off % 588) / 28],
        final_index: FINAL_MAP@[off % 28],
    }
}

/// Engine code of a non-Korean character: `(cp - 0x14) mod 2^16` with bit 15 set.
pub open spec fn other_code(cp: u32) -> u16 {
    (((cp % 0x10000) + 0x10000 - 0x14) % 0x10000) as u16 | 0x8000u16
}

/// What `decompose_char` returns for a character.
pub open spec fn decompose_spec(ch: char) -> DecomposedChar {
    let cp = ch as u32;
    if KOREAN_SYLLABLE_BASE <= cp && cp <= KOREAN_SYLLABLE_END {
        DecomposedChar::KoreanSyllable(syllable_jamo(cp))
    } else if ch == '.' || ch == '\u{3002}' || ch == '\n' || ch == '\r' {
        DecomposedChar::Pause(PauseType::Period)
    } else if ch == ',' || ch == '\u{3001}' {
        DecomposedChar::Pause(PauseType::Comma)
    } else if ch == '?' {
        DecomposedChar::Pause(PauseType::Question)
    } else if ch == '!' {
        DecomposedChar::Pause(PauseType::Exclamation)
    } else if ch == ' ' || ch == '\t' {
        DecomposedChar::Space
    } else {
        DecomposedChar::Other(other_code(cp))
    }
}

/// Decompose a Unicode character into the engine's internal representation.
pub fn decompose_char(ch: char) -> (r: DecomposedChar)
    ensures
        r == decompose_spec(ch),
{
    let cp = ch as u32;
    if KOREAN_SYLLABLE_BASE <= cp && cp <= KOREAN_SYLLABLE_END {
        let offset = cp - KOREAN_SYLLABLE_BASE;
        let initial_idx = (offset / (MEDIUM_COUNT * FINAL_COUNT)) as usize;
        let medium_idx = ((offset % (MEDIUM_COUNT * FINAL_COUNT)) / FINAL_COUNT) as usize;
        let final_idx = (offset % FINAL_COUNT) as usize;
        assert(offset < 11172);
        assert(offset / 588 < 19) by (nonlinear_arith)
            requires
                offset < 11172,
        ;
        return DecomposedChar::KoreanSyllable(
            KoreanJamo {
                initial: INITIAL_MAP[initial_idx],
                medium: MEDIUM_MAP[medium_idx],
                final_index: FINAL_MAP[final_idx],
            },
        );
    }
    if ch == '.' || ch == '\u{3002}' || ch == '\n' || ch == '\r' {
        DecomposedChar::Pause(PauseType::Period)
    } else if ch == ',' || ch == '\u{3001}' {
        DecomposedChar::Pause(PauseType::Comma)
    } else if ch == '?' {
        DecomposedChar::Pause(PauseType::Question)
    } else if ch == '!' {
        DecomposedChar::Pause(PauseType::Exclamation)
    } else if ch == ' ' || ch == '\t' {
        DecomposedChar::Space
    } else {
        let low: u16 = (cp % 0x10000) as u16;
        let shifted: u16 = if low >= 0x14 {
            low - 0x14
        } else {
            (low as u32 + 0x10000 - 0x14) as u16
        };
        DecomposedChar::Other(shifted | 0x8000)
    }
}

/// The packed 16-bit phoneme ID of a jamo triple.
pub open spec fn packed_id(j: KoreanJamo) -> u16 {
    ((j.final_index as u16) << 10u16) | ((j.medium as u16) << 5u16) | (j.initial as u16)
}

/// All three jamo fields fit in their 5-bit slots.
pub open spec fn jamo_fits(j: KoreanJamo) -> bool {
    j.initial < 32 && j.medium < 32 && j.final_index < 32
}

/// Pack a jamo triple into the 16-bit phoneme ID `(final << 10) | (medium << 5) | initial`.
pub fn pack_syllable(jamo: &KoreanJamo) -> (r: u16)
    ensures
        r == packed_id(*jamo),
        jamo_fits(*jamo) ==> r == jamo.final_index * 1024 + jamo.medium * 32 + jamo.initial,
{
    let f = jamo.final_index as u16;
    let m = jamo.medium as u16;
    let i = jamo.initial as u16;
    let r = (f << 10) | (m << 5) | i;
    proof {
        if jamo_fits(*jamo) {
            assert(f < 32 && m < 32 && i < 32 ==> ((f << 10u16) | (m << 5u16) | i) == f * 1024 + m
                * 32 + i) by (bit_vector);
        }
    }
    r
}

/// The jamo triple a packed ID unpacks to: zero for bit-15 (non-Korean) codes.
pub open spec fn unpacked(packed: u16) -> KoreanJamo {
    if packed >= 0x8000 {
        KoreanJamo { initial: 0, medium: 0, final_index: 0 }
    } else {
        KoreanJamo {
            initial: (packed % 32) as u8,
            medium: ((packed / 32) % 32) as u8,
            final_index: ((packed / 1024) % 32) as u8,
        }
    }
}

/// Unpack a 16-bit phoneme ID back to its jamo triple (zero for non-Korean codes).
pub fn unpack_syllable(packed: u16) -> (r: KoreanJamo)
    ensures
        r == unpacked(packed),
{
    if packed & 0x8000 != 0 {
        assert(packed & 0x8000 != 0 ==> packed >= 0x8000) by (bit_vector);
        KoreanJamo { initial: 0, medium: 0, final_index: 0 }
    } else {
        assert(packed & 0x8000 == 0 ==> packed < 0x8000) by (bit_vector);
        let i = packed & 0x1F;
        let m = (packed >> 5) & 0x1F;
        let f = (packed >> 10) & 0x1F;
        assert(i == packed % 32 && m == (packed / 32) % 32 && f == (packed / 1024) % 32)
            by (bit_vector)
            requires
                i == packed & 0x1F,
                m == (packed >> 5u16) & 0x1F,
                f == (packed >> 10u16) & 0x1F,
        ;
        KoreanJamo { initial: i as u8, medium: m as u8, final_index: f as u8 }
    }
}

/// Unpacking a packed triple gives the triple back when every field fits in 5 bits.
pub proof fn lemma_pack_unpack(j: KoreanJamo)
    requires
        jamo_fits(j),
    ensures
        unpacked(packed_id(j)) == j,
{
    let f = j.final_index as u16;
    let m = j.medium as u16;
    let i = j.initial as u16;
    let p = packed_id(j);
    assert(f < 32 && m < 32 && i < 32 ==> ((f << 10u16) | (m << 5u16) | i) == f * 1024 + m * 32
        + i) by (bit_vector);
    assert(p == f * 1024 + m * 32 + i);
}

/// Packing an unpacked ID gives the ID back for every Korean (bit-15 clear) code.
pub proof fn lemma_unpack_pack(packed: u16)
    requires
        packed < 0x8000,
    ensures
        packed_id(unpacked(packed)) == packed,
{
    let j = unpacked(packed);
    let f = j.final_index as u16;
    let m = j.medium as u16;
    let i = j.initial as u16;
    assert(f == (packed / 1024) % 32 && m == (packed / 32) % 32 && i == packed % 32);
    assert(((f << 10u16) | (m << 5u16) | i) == packed) by (bit_vector)
        requires
            packed < 0x8000,
            f == (packed / 1024) % 32,
            m == (packed / 32) % 32,
            i == packed % 32,
    ;
}

/// Internal phoneme byte stream of a jamo triple: coda (unless none/27), vowel + 0x13, onset + 0x28.
pub open spec fn phoneme_bytes(j: KoreanJamo) -> Seq<u8> {
    (if j.final_index != 0 && j.final_index != CODA_NO_CODA {
        seq![j.final_index]
    } else {
        Seq::<u8>::empty()
    }) + (if j.medium > 0 {
        seq![(j.medium + 0x13) as u8]
    } else {
        Seq::<u8>::empty()
    }) + (if j.initial > 0 {
        seq![(j.initial + 0x28) as u8]
    } else {
        Seq::<u8>::empty()
    })
}

/// Convert a jamo triple to the internal phoneme byte sequence.
pub fn jamo_to_phoneme_bytes(jamo: &KoreanJamo) -> (r: Vec<u8>)
    requires
        jamo.medium + 0x13 <= 0xFF,
        jamo.initial + 0x28 <= 0xFF,
    ensures
        r@ == phoneme_bytes(*jamo),
{
    let mut result: Vec<u8> = Vec::new();
    if jamo.final_index != 0 && jamo.final_index != CODA_NO_CODA {
        result.push(jamo.final_index);
    }
    let ghost a = result@;
    if jamo.medium > 0 {
        result.push(jamo.medium + 0x13);
    }
    let ghost b = result@;
    if jamo.initial > 0 {
        result.push(jamo.initial + 0x28);
    }
    assert(result@ =~= phoneme_bytes(*jamo));
    result
}

/// The 16-bit VoiceInfo key of a 3-character phoneme string.
pub open spec fn phoneme_string_key(c0: u8, c1: u8, c2: u8) -> u16 {
    let v0: u16 = if c0 != 0x20 { c0 as u16 } else { 0 };
    let v1: u16 = if c1 != 0x20 {
        (v0 << 5u16) | (c1 as u16)
    } else {
        v0 << 5u16
    };
    let v2: u16 = v1 << 5u16;
    if c2 >= 0x45 {
        v2 | 0x8000u16 | ((c2 - 0x14) as u16)
    } else if c2 != 0x20 {
        v2 | (c2 as u16)
    } else {
        v2
    }
}

/// Pack a 3-character phoneme string into a 16-bit VoiceInfo key.
pub fn pack_phoneme_string(c0: u8, c1: u8, c2: u8) -> (r: u16)
    ensures
        r == phoneme_string_key(c0, c1, c2),
{
    let mut val: u16 = 0;
    if c0 != 0x20 {
        val = c0 as u16;
    }
    val = val << 5;
    if c1 != 0x20 {
        val = val | (c1 as u16);
    }
    val = val << 5;
    if c2 >= 0x45 {
        val | 0x8000 | ((c2 as u16) - 0x14)
    } else if c2 != 0x20 {
        val | (c2 as u16)
    } else {
        val
    }
}

/// Decomposition of a whole text: each character decomposes on its own, except that a
/// carriage return (with or without a following line feed) becomes a single period pause.
pub open spec fn decompose_text_spec(s: Seq<char>) -> Seq<DecomposedChar>
    decreases s.len(),
{
    if s.len() == 0 {
        Seq::empty()
    } else if s[0] == '\r' {
        let rest = if s.len() > 1 && s[1] == '\n' {
            s.subrange(2, s.len() as int)
        } else {
            s.subrange(1, s.len() as int)
        };
        seq![DecomposedChar::Pause(PauseType::Period)] + decompose_text_spec(rest)
    } else {
        seq![decompose_spec(s[0])] + decompose_text_spec(s.subrange(1, s.len() as int))
    }
}

/// Every Hangul syllable decomposes into jamo indices in range (19 onsets, 21 vowels, 28
/// finals with "no final" among them), and two different syllables never decompose alike.
pub proof fn lemma_syllable_decomposition_injective(c1: char, c2: char)
    requires
        0xAC00 <= c1 as u32 <= 0xD7A3,
        0xAC00 <= c2 as u32 <= 0xD7A3,
        c1 != c2,
    ensures
        decompose_spec(c1) matches DecomposedChar::KoreanSyllable(j) && j.initial < 19 && j.medium < 21
            && j.final_index < 28,
        decompose_spec(c1) != decompose_spec(c2),
{
    assert(forall|i: int, k: int| 0 <= i < k < 19 ==> INITIAL_MAP@[i] != INITIAL_MAP@[k]);
    assert(forall|i: int, k: int| 0 <= i < k < 21 ==> MEDIUM_MAP@[i] != MEDIUM_MAP@[k]);
    assert(forall|i: int, k: int| 0 <= i < k < 28 ==> FINAL_MAP@[i] != FINAL_MAP@[k]);
    assert(forall|i: int| 0 <= i < 19 ==> INITIAL_MAP@[i] < 19);
    assert(forall|i: int| 0 <= i < 21 ==> MEDIUM_MAP@[i] < 21);
    assert(forall|i: int| 0 <= i < 28 ==> FINAL_MAP@[i] < 28);
    let o1 = (c1 as u32 - 0xAC00) as int;
    let o2 = (c2 as u32 - 0xAC00) as int;
    assert(o1 == (o1 / 588) * 588 + ((o1 % 588) / 28) * 28 + o1 % 28);
    assert(o2 == (o2 / 588) * 588 + ((o2 % 588) / 28) * 28 + o2 % 28);
    assert(o1 != o2);
}

/// The pause each punctuation character makes: `.` and `。` (and line breaks) a period, `,` and
/// `、` a comma, `?` a question, `!` an exclamation; `None` for every other character.
pub open spec fn pause_kind(ch: char) -> Option<PauseType> {
    if ch == '.' || ch == '\u{3002}' || ch == '\n' || ch == '\r' {
        Some(PauseType::Period)
    } else if ch == ',' || ch == '\u{3001}' {
        Some(PauseType::Comma)
    } else if ch == '?' {
        Some(PauseType::Question)
    } else if ch == '!' {
        Some(PauseType::Exclamation)
    } else {
        None
    }
}

/// Each character decomposes by what it is: a Hangul syllable into its jamo, a pause
/// character into its own pause kind (see [`pause_kind`]), a space or tab into a space, and
/// anything else into a code with bit 15 set; the kinds of pause differ from one another.
pub proof fn lemma_decompose_kinds(ch: char)
    ensures
        (0xAC00 <= ch as u32 <= 0xD7A3) ==> decompose_spec(ch) is KoreanSyllable,
        pause_kind(ch) matches Some(k) ==> decompose_spec(ch) == DecomposedChar::Pause(k),
        (ch == ' ' || ch == '\t') ==> decompose_spec(ch) == DecomposedChar::Space,
        decompose_spec(ch) is Pause <==> pause_kind(ch) is Some,
        decompose_spec(ch) matches DecomposedChar::Other(c) ==> c >= 0x8000 && pause_kind(ch) is None
            && !(0xAC00 <= ch as u32 <= 0xD7A3) && ch != ' ' && ch != '\t',
        decompose_spec('?') != decompose_spec('.') && decompose_spec('?') != decompose_spec('!')
            && decompose_spec('?') != decompose_spec(',') && decompose_spec('!') != decompose_spec('.')
            && decompose_spec('!') != decompose_spec(',') && decompose_spec(',') != decompose_spec('.'),
{
    let cp = ch as u32;
    if let DecomposedChar::Other(c) = decompose_spec(ch) {
        assert(other_code(cp) >= 0x8000) by (bit_vector);
    }
}

/// A text without carriage returns decomposes character by character: one item per
/// character, each that character's decomposition.
pub proof fn lemma_decompose_text_per_char(s: Seq<char>)
    requires
        forall|k: int| 0 <= k < s.len() ==> s[k] != '\r',
    ensures
        decompose_text_spec(s).len() == s.len(),
        forall|k: int| 0 <= k < s.len() ==> #[trigger] decompose_text_spec(s)[k] == decompose_spec(s[k]),
    decreases s.len(),
{
    if s.len() > 0 {
        let rest = s.subrange(1, s.len() as int);
        assert forall|k: int| 0 <= k < rest.len() implies rest[k] != '\r' by {
            assert(rest[k] == s[k + 1]);
        }
        lemma_decompose_text_per_char(rest);
        assert(s[0] != '\r');
        assert forall|k: int| 0 <= k < s.len() implies #[trigger] decompose_text_spec(s)[k] == decompose_spec(s[k]) by {
            if k > 0 {
                assert(rest[k - 1] == s[k]);
            }
        }
    }
}

/// Decompose a text into jamo triples and breaks; `\r\n` and a lone `\r` give one period pause.
pub fn decompose_text(text: &str) -> (r: Vec<DecomposedChar>)
    ensures
        r@ == decompose_text_spec(text@),
{
    let chars = crate::text::str_chars(text);
    decompose_chars(&chars)
}

/// Decomposition of a character sequence (see [`decompose_text`]).
pub fn decompose_chars(chars: &Vec<char>) -> (r: Vec<DecomposedChar>)
    ensures
        r@ == decompose_text_spec(chars@),
{
    let mut out: Vec<DecomposedChar> = Vec::new();
    let mut i: usize = 0;
    assert(chars@.subrange(0, chars@.len() as int) =~= chars@);
    assert(out@ + decompose_text_spec(chars@) =~= decompose_text_spec(chars@));
    while i < chars.len()
        invariant
            i <= chars.len(),
            out@ + decompose_text_spec(chars@.subrange(i as int, chars@.len() as int))
                == decompose_text_spec(chars@),
        decreases chars.len() - i,
    {
        let ghost rest = chars@.subrange(i as int, chars@.len() as int);
        let ch = chars[i];
        if ch == '\r' {
            if i + 1 < chars.len() && chars[i + 1] == '\n' {
                assert(rest.subrange(2, rest.len() as int) =~= chars@.subrange(
                    i + 2,
                    chars@.len() as int,
                ));
                i = i + 2;
            } else {
                assert(rest.subrange(1, rest.len() as int) =~= chars@.subrange(
                    i + 1,
                    chars@.len() as int,
                ));
                i = i + 1;
            }
            out.push(DecomposedChar::Pause(PauseType::Period));
        } else {
            assert(rest.subrange(1, rest.len() as int) =~= chars@.subrange(
                i + 1,
                chars@.len() as int,
            ));
            out.push(decompose_char(ch));
            i = i + 1;
        }
        assert(out@ + decompose_text_spec(chars@.subrange(i as int, chars@.len() as int))
            =~= decompose_text_spec(chars@));
    }
    assert(chars@.subrange(i as int, chars@.len() as int) =~= Seq::<char>::empty());
    assert(out@ =~= decompose_text_spec(chars@));
    out
}

} // verus!
