//! Dictionary-driven word reading: candidate splitting, classification and code conversions.
//!
//! Syllable codes are `(initial << 10) | (medial << 5) | final` with standard (1-based) jamo
//! indices; bit 15 marks a special (non-syllable) code whose low bits hold an ASCII value.
use vstd::prelude::*;
use crate::text::slice_to_vec;
use crate::dict::{key_spec, syllable_key_spec};

pub use super::codec::{
    codes_to_kps_bytes, decimal_codes, kps_bytes_to_codes, kps_code_to_phoneme, kps_final_class,
    phoneme_codes_from_syllables, sino_integer_codes, sino_integer_kps_syllables, to_phoneme_code,
    KpsTables,
};
pub use super::sandhi::{apply_phoneme_sandhi, apply_phoneme_sandhi_from};
pub use super::viterbi::{sentence_morphology_viterbi, viterbi_single_chunk};
pub use super::word_markers::{apply_accent_markers, apply_morph_boundaries};
pub use super::word_record::{
    record_to_prosody, stage1_phoneme_codes, stage4_cross_word_sandhi, stage8_final_markers,
    stage9_post_loop_propagation,
    word_record_from_readings, word_record_from_readings_final, WordRecord,
};
pub use super::words::{
    candidate_substrings, conjects_verify, morphology_skeleton, nonreg_lookup, word_g2p,
    word_to_readings, word_to_readings_codes, G2pDicts, NonRegHit,
};

verus! {

/// Most candidates kept per start position.
pub const MAX_CANDIDATES: usize = 214;

/// Marker of a reading that fell back to the word's own spelling.
pub const MARKER_FALLBACK: u8 = 0x11;

/// Packed reading of an all-digit candidate.
pub const PACKED_DIGITS: u16 = 0x152D;

/// Packed reading of an all-symbol candidate.
pub const PACKED_SYMBOLS: u16 = 0x2933;

/// Final indices that are split off their syllable before dictionary lookup.
pub const SPLIT_FINALS: [u16; 4] = [0x03, 0x07, 0x0F, 0x10];

/// Morphology type of the first suffix class.
pub const MORPH_TYPE_BASE: u8 = 0x14;

/// Syllables per prosody chunk.
pub const CHUNK_SYLLABLES: usize = 60;

/// Phonemes marked back from the end of a sentence.
pub const PROPAGATE_BACK: usize = 5;

/// One reading of a word segment.
#[derive(Debug, Clone, PartialEq, Eq)]
pub struct Reading {
    /// KPS 9566 bytes of the reading.
    pub bytes: Vec<u8>,
    /// Packed code standing for the whole segment (digits, symbols), if any.
    pub packed: Option<u16>,
    /// Morphology marker of the segment.
    pub marker: u8,
}

impl Reading {
    /// The same reading with another marker.
    pub fn with_marker(&self, marker: u8) -> (r: Reading)
        ensures
            r.bytes@ == self.bytes@,
            r.packed == self.packed,
            r.marker == marker,
    {
        Reading { bytes: slice_to_vec(self.bytes.as_slice()), packed: self.packed, marker }
    }

    /// The word read as itself, with the fallback marker.
    pub fn fallback(word: &[u8]) -> (r: Reading)
        ensures
            r.bytes@ == word@,
            r.packed is None,
            r.marker == MARKER_FALLBACK,
    {
        Reading { bytes: slice_to_vec(word), packed: None, marker: MARKER_FALLBACK }
    }
}

/// Standard index (0-based) of each KPS 9566 onset index.
pub const INIT_KP_TO_STD: [u8; 19] = [0, 2, 3, 5, 6, 7, 9, 12, 14, 15, 16, 17, 18, 1, 4, 8, 10, 13, 11];

/// KPS 9566 onset index of each standard (0-based) onset index.
pub const INIT_STD_TO_KP: [u8; 19] = [0, 13, 1, 2, 14, 3, 4, 5, 15, 6, 16, 18, 7, 17, 8, 9, 10, 11, 12];

/// Standard index (0-based) of each KPS 9566 vowel index.
pub const MED_KP_TO_STD: [u8; 21] = [
    0, 2, 4, 6, 8, 12, 13, 17, 18, 20, 1, 3, 5, 7, 9, 10, 11, 14, 15, 16, 19,
];

/// KPS 9566 vowel index of each standard (0-based) vowel index.
pub const MED_STD_TO_KP: [u8; 21] = [
    0, 10, 1, 11, 2, 12, 3, 13, 4, 14, 15, 16, 5, 6, 17, 18, 19, 7, 8, 20, 9,
];

/// Whether a final index is one of [`SPLIT_FINALS`].
pub open spec fn is_split_final(f: u16) -> bool {
    f == 0x03 || f == 0x07 || f == 0x0F || f == 0x10
}

/// What one code becomes when finals are split off.
pub open spec fn split_piece(c: u16) -> Seq<u16> {
    if c & 0x8000 == 0 && c & 0xffe0 != 0 && is_split_final(c & 0x1f) {
        seq![c & 0xffe0, c & 0x1f]
    } else {
        seq![c]
    }
}

/// Codes with each splittable final moved into a code of its own.
pub open spec fn split_finals_spec(s: Seq<u16>) -> Seq<u16>
    decreases s.len(),
{
    if s.len() == 0 {
        Seq::empty()
    } else {
        split_finals_spec(s.drop_last()) + split_piece(s.last())
    }
}

/// Move each splittable final (3, 7, 15, 16) of a syllable code into a code of its own.
/// On codes without bare finals, [`merge_finals`] gives the input back.
pub fn split_finals(codes: &[u16]) -> (r: Vec<u16>)
    ensures
        r@ == split_finals_spec(codes@),
        no_bare_finals(codes@) ==> merge_finals_spec(r@) == codes@,
{
    proof {
        if no_bare_finals(codes@) {
            lemma_merge_split(codes@);
        }
    }
    let mut out: Vec<u16> = Vec::new();
    let mut i: usize = 0;
    while i < codes.len()
        invariant
            i <= codes@.len(),
            out@ == split_finals_spec(codes@.subrange(0, i as int)),
        decreases codes@.len() - i,
    {
        let c = codes[i];
        let f = c & 0x1f;
        if c & 0x8000 == 0 && c & 0xffe0 != 0 && (f == 0x03 || f == 0x07 || f == 0x0F || f == 0x10) {
            out.push(c & 0xffe0);
            out.push(c & 0x1f);
        } else {
            out.push(c);
        }
        assert(codes@.subrange(0, i + 1).drop_last() =~= codes@.subrange(0, i as int));
        i = i + 1;
    }
    assert(codes@.subrange(0, codes@.len() as int) =~= codes@);
    out
}

/// Whether `c` is merged into the code before it.
pub open spec fn merges_into(prev: u16, c: u16) -> bool {
    prev & 0x1f == 0 && c & 0xffe0 == 0 && prev & 0x8000 == 0 && c & 0x8000 == 0
}

/// One step of merging: a bare final joins a preceding final-less syllable.
pub open spec fn merge_step(out: Seq<u16>, c: u16) -> Seq<u16> {
    if out.len() > 0 && merges_into(out.last(), c) {
        out.update(out.len() - 1, out.last() | c)
    } else {
        out.push(c)
    }
}

/// Codes with each bare final merged into the final-less syllable before it.
pub open spec fn merge_finals_spec(s: Seq<u16>) -> Seq<u16>
    decreases s.len(),
{
    if s.len() == 0 {
        Seq::empty()
    } else {
        merge_step(merge_finals_spec(s.drop_last()), s.last())
    }
}

/// Merge each bare final code into the final-less syllable code before it.
pub fn merge_finals(codes: &[u16]) -> (r: Vec<u16>)
    ensures
        r@ == merge_finals_spec(codes@),
{
    let mut out: Vec<u16> = Vec::new();
    let mut i: usize = 0;
    while i < codes.len()
        invariant
            i <= codes@.len(),
            out@ == merge_finals_spec(codes@.subrange(0, i as int)),
        decreases codes@.len() - i,
    {
        let c = codes[i];
        assert(codes@.subrange(0, i + 1).drop_last() =~= codes@.subrange(0, i as int));
        let n = out.len();
        if n > 0 {
            let prev = out[n - 1];
            if prev & 0x1f == 0 && c & 0xffe0 == 0 && prev & 0x8000 == 0 && c & 0x8000 == 0 {
                out.set(n - 1, prev | c);
                i = i + 1;
                continue;
            }
        }
        out.push(c);
        i = i + 1;
    }
    assert(codes@.subrange(0, codes@.len() as int) =~= codes@);
    out
}

/// Syllable and special codes that have an onset/vowel part (none is a bare final).
pub open spec fn no_bare_finals(s: Seq<u16>) -> bool {
    forall|i: int| 0 <= i < s.len() ==> (#[trigger] s[i]) & 0x8000 != 0 || s[i] & 0xffe0 != 0
}

/// Merging undoes splitting on codes without bare finals.
pub proof fn lemma_merge_split(s: Seq<u16>)
    requires
        no_bare_finals(s),
    ensures
        merge_finals_spec(split_finals_spec(s)) == s,
    decreases s.len(),
{
    if s.len() > 0 {
        let p = s.drop_last();
        let c = s.last();
        assert(no_bare_finals(p)) by {
            assert forall|i: int| 0 <= i < p.len() implies (#[trigger] p[i]) & 0x8000 != 0 || p[i]
                & 0xffe0 != 0 by {
                assert(p[i] == s[i]);
            }
        }
        lemma_merge_split(p);
        let sp = split_finals_spec(p);
        assert(c & 0x8000 != 0 || c & 0xffe0 != 0) by {
            assert(s[s.len() - 1] == c);
        }
        if c & 0x8000 == 0 && c & 0xffe0 != 0 && is_split_final(c & 0x1f) {
            let a = c & 0xffe0;
            let b = c & 0x1f;
            assert(split_piece(c) == seq![a, b]);
            let x = sp + seq![a, b];
            assert(x.drop_last() =~= sp.push(a));
            assert(sp.push(a).drop_last() =~= sp);
            assert(a & 0xffe0 != 0 && a & 0x8000 == 0 && a & 0x1f == 0 && b & 0xffe0 == 0 && b
                & 0x8000 == 0 && (a | b) == c) by (bit_vector)
                requires
                    a == c & 0xffe0,
                    b == c & 0x1f,
                    c & 0x8000 == 0,
                    c & 0xffe0 != 0,
            ;
            assert(merge_finals_spec(sp.push(a)) == p.push(a));
            assert(merge_finals_spec(x) == merge_step(p.push(a), b));
            assert(merge_step(p.push(a), b) =~= s);
        } else {
            assert(split_piece(c) == seq![c]);
            let x = sp + seq![c];
            assert(x.drop_last() =~= sp);
            assert(merge_finals_spec(x) == merge_step(p, c));
            assert(!merges_into(p.last(), c));
            assert(p.push(c) =~= s);
        }
    }
}

/// Whether a code is a special code holding an ASCII digit.
pub open spec fn is_digit_code(c: u16) -> bool {
    c & 0x8000 != 0 && 0x30 <= (c & 0x7fff) <= 0x39
}

/// Kind of a candidate: 0x10 when it holds a syllable; otherwise 1 for digits only, 2 for
/// symbols only, 3 for both, 0 when empty.
pub open spec fn classify_spec(s: Seq<u16>) -> u8 {
    let syll = exists|i: int| 0 <= i < s.len() && (#[trigger] s[i]) & 0x8000 == 0;
    let digit = exists|i: int| 0 <= i < s.len() && is_digit_code(#[trigger] s[i]);
    let symbol = exists|i: int|
        0 <= i < s.len() && (#[trigger] s[i]) & 0x8000 != 0 && !is_digit_code(s[i]);
    if syll {
        0x10
    } else if digit && symbol {
        3
    } else if digit {
        1
    } else if symbol {
        2
    } else {
        0
    }
}

/// Classify a candidate segment by the kinds of codes it holds.
pub fn classify_candidate(codes: &[u16]) -> (r: u8)
    ensures
        r == classify_spec(codes@),
{
    let mut digit = false;
    let mut symbol = false;
    let mut syll = false;
    let mut i: usize = 0;
    while i < codes.len()
        invariant
            i <= codes@.len(),
            syll == exists|j: int| 0 <= j < i && (#[trigger] codes@[j]) & 0x8000 == 0,
            digit == exists|j: int| 0 <= j < i && is_digit_code(#[trigger] codes@[j]),
            symbol == exists|j: int|
                0 <= j < i && (#[trigger] codes@[j]) & 0x8000 != 0 && !is_digit_code(codes@[j]),
        decreases codes@.len() - i,
    {
        let c = codes[i];
        if c & 0x8000 != 0 {
            let u = c & 0x7fff;
            if 0x30 <= u && u <= 0x39 {
                digit = true;
            } else {
                symbol = true;
            }
        } else {
            syll = true;
        }
        i = i + 1;
    }
    if syll {
        0x10
    } else if digit && symbol {
        3
    } else if digit {
        1
    } else if symbol {
        2
    } else {
        0
    }
}

/// Syllable code read from a key at `i` (onset byte, then optional vowel and final bytes),
/// and the index after it.
pub open spec fn key_syllable(key: Seq<u8>, i: int) -> (u16, int) {
    let init = key[i];
    let has_med = i + 1 < key.len() && 0x14 <= key[i + 1] <= 0x28;
    let has_fin = has_med && i + 2 < key.len() && 0x29 <= key[i + 2] <= 0x43;
    let med: u8 = if has_med {
        (key[i + 1] - 0x13) as u8
    } else {
        0
    };
    let fin: u8 = if has_fin {
        (key[i + 2] - 0x28) as u8
    } else {
        0
    };
    let next = if has_fin {
        i + 3
    } else if has_med {
        i + 2
    } else {
        i + 1
    };
    (((init as u16) << 10) | ((med as u16) << 5) | (fin as u16), next)
}

/// `Some(c + rest)`, or `None` when `rest` is `None`.
pub open spec fn prepend(c: u16, rest: Option<Seq<u16>>) -> Option<Seq<u16>> {
    match rest {
        Some(r) => Some(seq![c] + r),
        None => None,
    }
}

/// Codes of a dictionary key from index `i` on, or `None` at an invalid key byte.
pub open spec fn key_codes_from(key: Seq<u8>, i: int) -> Option<Seq<u16>>
    decreases key.len() - i,
{
    if i < 0 || i >= key.len() {
        Some(Seq::empty())
    } else {
        let c = key[i];
        if 0x01 <= c <= 0x13 {
            let (code, next) = key_syllable(key, i);
            prepend(code, key_codes_from(key, next))
        } else if c == 0x44 {
            prepend(0x802e, key_codes_from(key, i + 1))
        } else if c == 0x45 {
            prepend(0x802d, key_codes_from(key, i + 1))
        } else if 0x46 <= c <= 0x4f {
            prepend(0x8000u16 | ((c - 0x46 + 0x30) as u16), key_codes_from(key, i + 1))
        } else if c == 0x50 {
            key_codes_from(key, i + 1)
        } else {
            None
        }
    }
}

/// `prefix + rest` inside an option.
pub open spec fn append_opt(prefix: Seq<u16>, rest: Option<Seq<u16>>) -> Option<Seq<u16>> {
    match rest {
        Some(r) => Some(prefix + r),
        None => None,
    }
}

/// Codes of a dictionary key string, or `None` when it holds a byte outside the key alphabet.
pub fn key_str_to_codes(key: &[u8]) -> (r: Option<Vec<u16>>)
    ensures
        match r {
            Some(v) => key_codes_from(key@, 0) == Some(v@),
            None => key_codes_from(key@, 0) is None,
        },
{
    let mut out: Vec<u16> = Vec::new();
    let mut i: usize = 0;
    while i < key.len()
        invariant
            i <= key@.len(),
            key_codes_from(key@, 0) == append_opt(out@, key_codes_from(key@, i as int)),
        decreases key@.len() - i,
    {
        let c = key[i];
        if 0x01 <= c && c <= 0x13 {
            let ghost (code_s, next_s) = key_syllable(key@, i as int);
            let init = c;
            i = i + 1;
            let mut med: u8 = 0;
            let mut fin: u8 = 0;
            if i < key.len() && 0x14 <= key[i] && key[i] <= 0x28 {
                med = key[i] - 0x13;
                i = i + 1;
                if i < key.len() && 0x29 <= key[i] && key[i] <= 0x43 {
                    fin = key[i] - 0x28;
                    i = i + 1;
                }
            }
            let code = ((init as u16) << 10) | ((med as u16) << 5) | fin as u16;
            assert(code == code_s && i == next_s);
            proof {
                if let Some(rest) = key_codes_from(key@, i as int) {
                    assert(out@.push(code) + rest =~= out@ + (seq![code] + rest));
                }
            }
            out.push(code);
        } else if c == 0x44 {
            proof {
                if let Some(rest) = key_codes_from(key@, i + 1) {
                    assert(out@.push(0x802eu16) + rest =~= out@ + (seq![0x802eu16] + rest));
                }
            }
            out.push(0x802e);
            i = i + 1;
        } else if c == 0x45 {
            proof {
                if let Some(rest) = key_codes_from(key@, i + 1) {
                    assert(out@.push(0x802du16) + rest =~= out@ + (seq![0x802du16] + rest));
                }
            }
            out.push(0x802d);
            i = i + 1;
        } else if 0x46 <= c && c <= 0x4F {
            let code: u16 = 0x8000 | (c - 0x46 + 0x30) as u16;
            proof {
                if let Some(rest) = key_codes_from(key@, i + 1) {
                    assert(out@.push(code) + rest =~= out@ + (seq![code] + rest));
                }
            }
            out.push(code);
            i = i + 1;
        } else if c == 0x50 {
            i = i + 1;
        } else {
            return None;
        }
    }
    assert(out@ + Seq::<u16>::empty() =~= out@);
    Some(out)
}

/// Connection code of a morphology type: the special digit code `0x30 + (type - 0x14)` for
/// types 0x14..=0x1f.
pub open spec fn morph_code_spec(morph_type: u8) -> Option<u16> {
    if MORPH_TYPE_BASE <= morph_type <= 0x1f {
        Some((0x8000 + 0x30 + morph_type - MORPH_TYPE_BASE) as u16)
    } else {
        None
    }
}

/// Connection code appended to a segment of the given morphology type, or `None` for types
/// outside 0x14..=0x1f.
pub fn morph_type_code(morph_type: u8) -> (r: Option<u16>)
    ensures
        r == morph_code_spec(morph_type),
{
    if morph_type < MORPH_TYPE_BASE || morph_type > 0x1f {
        return None;
    }
    Some(0x8000 + (0x30 + (morph_type - MORPH_TYPE_BASE)) as u16)
}

/// Context check before morphology: every code sequence passes.
pub fn context_check_skeleton(codes: &[u16]) -> (r: bool)
    ensures
        r,
{
    true
}

/// Tone that closes a word.
#[derive(Debug, Clone, Copy, PartialEq, Eq)]
pub enum WordFinalTone {
    Mid,
    Comma,
    ClauseEnd,
    Bracket,
}

impl WordFinalTone {
    /// Phoneme marker of the tone.
    pub open spec fn marker_spec(self) -> u8 {
        match self {
            WordFinalTone::Mid => 1,
            WordFinalTone::Comma => 2,
            WordFinalTone::ClauseEnd => 7,
            WordFinalTone::Bracket => 5,
        }
    }

    /// Phoneme marker written on the last phoneme of a word with this tone.
    pub fn marker(self) -> (r: u8)
        ensures
            r == self.marker_spec(),
    {
        match self {
            WordFinalTone::Mid => 1,
            WordFinalTone::Comma => 2,
            WordFinalTone::ClauseEnd => 7,
            WordFinalTone::Bracket => 5,
        }
    }
}

/// Whether a compound-split pattern starts at `p`.
pub open spec fn compound_at(codes: Seq<u16>, p: int) -> bool {
    p + 2 <= codes.len() && ((codes[p] == 0x1DC2 && codes[p + 1] == 0x4C21) || (codes[p] == 0x282B
        && codes[p + 1] == 0x2AA1))
}

/// First inner position (neither the first nor the last code) where a compound-split
/// pattern starts.
pub fn find_compound_split(codes: &[u16]) -> (r: Option<usize>)
    ensures
        match r {
            Some(p) => codes@.len() >= 3 && 1 <= p < codes@.len() - 1 && compound_at(codes@, p as int)
                && forall|q: int| 1 <= q < p ==> !compound_at(codes@, q),
            None => codes@.len() < 3 || forall|q: int|
                1 <= q < codes@.len() - 1 ==> !compound_at(codes@, q),
        },
{
    let n = codes.len();
    if n < 3 {
        return None;
    }
    let mut p: usize = 1;
    while p < n - 1
        invariant
            n == codes@.len(),
            n >= 3,
            1 <= p <= n - 1,
            forall|q: int| 1 <= q < p ==> !compound_at(codes@, q),
        decreases n - p,
    {
        if (codes[p] == 0x1DC2 && codes[p + 1] == 0x4C21) || (codes[p] == 0x282B && codes[p + 1]
            == 0x2AA1) {
            return Some(p);
        }
        p = p + 1;
    }
    None
}

/// Final consonants in standard order (index 0 = none).
pub const S_FIN_CHARS: [char; 28] = [
    '\0', 'ㄱ', 'ㄲ', 'ㄳ', 'ㄴ', 'ㄵ', 'ㄶ', 'ㄷ', 'ㄹ', 'ㄺ', 'ㄻ', 'ㄼ', 'ㄽ', 'ㄾ', 'ㄿ', 'ㅀ',
    'ㅁ', 'ㅂ', 'ㅄ', 'ㅅ', 'ㅆ', 'ㅇ', 'ㅈ', 'ㅊ', 'ㅋ', 'ㅌ', 'ㅍ', 'ㅎ',
];

/// Class of each final consonant.
pub open spec fn final_to_class_spec(f: char) -> u8 {
    match f {
        'ㄱ' | 'ㄲ' | 'ㄳ' | 'ㄺ' | 'ㅋ' => 0,
        'ㄴ' | 'ㄵ' | 'ㄶ' => 2,
        'ㄷ' | 'ㅅ' | 'ㅈ' | 'ㅊ' | 'ㅌ' | 'ㅆ' | 'ㅎ' => 5,
        'ㄹ' | 'ㄼ' | 'ㄽ' | 'ㄾ' | 'ㅀ' => 6,
        'ㅁ' | 'ㄻ' => 14,
        'ㅂ' | 'ㅍ' | 'ㄿ' | 'ㅄ' => 15,
        'ㅇ' => 18,
        _ => 27,
    }
}

/// Neutralized class of a final consonant (27 for none).
pub fn final_to_class(f: char) -> (r: u8)
    ensures
        r == final_to_class_spec(f),
{
    match f {
        'ㄱ' | 'ㄲ' | 'ㄳ' | 'ㄺ' | 'ㅋ' => 0,
        'ㄴ' | 'ㄵ' | 'ㄶ' => 2,
        'ㄷ' | 'ㅅ' | 'ㅈ' | 'ㅊ' | 'ㅌ' | 'ㅆ' | 'ㅎ' => 5,
        'ㄹ' | 'ㄼ' | 'ㄽ' | 'ㄾ' | 'ㅀ' => 6,
        'ㅁ' | 'ㄻ' => 14,
        'ㅂ' | 'ㅍ' | 'ㄿ' | 'ㅄ' => 15,
        'ㅇ' => 18,
        _ => 27,
    }
}

/// Onset index of each consonant.
pub open spec fn final_to_init_spec(f: char) -> u8 {
    match f {
        'ㄱ' => 0,
        'ㄲ' => 13,
        'ㄴ' => 1,
        'ㄷ' => 2,
        'ㄹ' => 3,
        'ㅁ' => 4,
        'ㅂ' => 5,
        'ㅅ' => 6,
        'ㅇ' => 18,
        'ㅈ' => 7,
        'ㅊ' => 8,
        'ㅋ' => 9,
        'ㅌ' => 10,
        'ㅍ' => 11,
        'ㅎ' => 12,
        'ㅆ' => 16,
        'ㅉ' => 17,
        'ㄸ' => 14,
        'ㅃ' => 15,
        _ => 18,
    }
}

/// KPS 9566 onset index of a consonant carried over as an initial (18, silent, otherwise).
pub fn final_to_init(f: char) -> (r: u8)
    ensures
        r == final_to_init_spec(f),
{
    match f {
        'ㄱ' => 0,
        'ㄲ' => 13,
        'ㄴ' => 1,
        'ㄷ' => 2,
        'ㄹ' => 3,
        'ㅁ' => 4,
        'ㅂ' => 5,
        'ㅅ' => 6,
        'ㅇ' => 18,
        'ㅈ' => 7,
        'ㅊ' => 8,
        'ㅋ' => 9,
        'ㅌ' => 10,
        'ㅍ' => 11,
        'ㅎ' => 12,
        'ㅆ' => 16,
        'ㅉ' => 17,
        'ㄸ' => 14,
        'ㅃ' => 15,
        _ => 18,
    }
}

/// Final consonant of each class.
pub open spec fn class_to_final_spec(cls: u8) -> char {
    match cls {
        0 => 'ㄱ',
        2 => 'ㄴ',
        5 => 'ㄷ',
        6 => 'ㄹ',
        14 => 'ㅁ',
        15 => 'ㅂ',
        18 => 'ㅇ',
        _ => 'ㄱ',
    }
}

/// Representative final consonant of a class (ㄱ for unknown classes).
pub fn class_to_final(cls: u8) -> (r: char)
    ensures
        r == class_to_final_spec(cls),
{
    match cls {
        0 => 'ㄱ',
        2 => 'ㄴ',
        5 => 'ㄷ',
        6 => 'ㄹ',
        14 => 'ㅁ',
        15 => 'ㅂ',
        18 => 'ㅇ',
        _ => 'ㄱ',
    }
}

/// Aspirated onset of each class.
pub open spec fn aspirate_init_spec(cls: u8) -> u8 {
    match cls {
        0 => 9,
        5 => 10,
        15 => 11,
        _ => 12,
    }
}

/// Aspirated onset produced by a class before ㅎ (ㅋ, ㅌ, ㅍ; ㅎ otherwise).
pub fn aspirate_init(cls: u8) -> (r: u8)
    ensures
        r == aspirate_init_spec(cls),
{
    match cls {
        0 => 9,
        5 => 10,
        15 => 11,
        _ => 12,
    }
}

/// Tense onset of each onset.
pub open spec fn tense_init_spec(init: u8) -> u8 {
    match init {
        0 => 13,
        2 => 14,
        5 => 15,
        6 => 16,
        7 => 17,
        _ => init,
    }
}

/// Tense counterpart of an onset (unchanged when it has none).
pub fn tense_init(init: u8) -> (r: u8)
    ensures
        r == tense_init_spec(init),
{
    match init {
        0 => 13,
        2 => 14,
        5 => 15,
        6 => 16,
        7 => 17,
        _ => init,
    }
}

/// Nasalized class of each class.
pub open spec fn nasal_class_spec(cls: u8) -> u8 {
    match cls {
        0 => 18,
        5 => 2,
        15 => 14,
        _ => cls,
    }
}

/// Class after nasalization (unchanged for classes that do not nasalize).
pub fn nasal_class(cls: u8) -> (r: u8)
    ensures
        r == nasal_class_spec(cls),
{
    match cls {
        0 => 18,
        5 => 2,
        15 => 14,
        _ => cls,
    }
}

/// Vowels of function morphemes.
pub open spec fn is_func_medial_spec(med: u8) -> bool {
    med == 16 || med == 12 || med == 6 || med == 2 || med == 8 || med == 0 || med == 3 || med == 9
        || med == 4 || med == 10
}

/// Whether a vowel index is one of the vowels of function morphemes.
pub fn is_func_medial(med: u8) -> (r: bool)
    ensures
        r == is_func_medial_spec(med),
{
    med == 16 || med == 12 || med == 6 || med == 2 || med == 8 || med == 0 || med == 3 || med == 9
        || med == 4 || med == 10
}

/// A code that has a dictionary key and reads back from it: a syllable with an onset (1..=19),
/// a vowel (1..=21) and a final of at most 27, or a special digit, `-` or `.`.
pub open spec fn key_code_ok(c: u16) -> bool {
    if c >= 0x8000 {
        (0x8030 <= c <= 0x8039) || c == 0x802d || c == 0x802e
    } else {
        let i = (c / 1024) % 32;
        let m = (c / 32) % 32;
        1 <= i <= 19 && 1 <= m <= 21 && c % 32 <= 27
    }
}

/// Whether a key byte starts a code (an onset or a special byte), so that it cannot be read
/// as the vowel or final of the syllable before it.
pub open spec fn starts_code(b: u8) -> bool {
    (0x01 <= b <= 0x13) || (0x44 <= b <= 0x4f)
}

proof fn lemma_code_fields(c: u16, x: u16)
    by (bit_vector)
    ensures
        c < 0x8000 ==> (((((c / 1024) % 32) as u8) as u16) << 10) | (((((c / 32) % 32) as u8) as u16) << 5)
            | (((c % 32) as u8) as u16) == c,
        0x30 <= x <= 0x39 ==> (0x8000u16 | x) == 0x8000 + x,
{
}

/// Reading the key bytes from position `p.len() + j` of `p + k` reads `k` from `j`.
proof fn lemma_key_codes_shift(p: Seq<u8>, k: Seq<u8>, j: int)
    requires
        0 <= j <= k.len(),
    ensures
        key_codes_from(p + k, p.len() + j) == key_codes_from(k, j),
    decreases k.len() - j,
{
    let pk = p + k;
    if j < k.len() {
        let c = k[j];
        assert(pk[p.len() + j] == c);
        if 0x01 <= c <= 0x13 {
            let (code, next) = key_syllable(k, j);
            assert(j + 1 < k.len() ==> pk[p.len() + j + 1] == k[j + 1]);
            assert(j + 2 < k.len() ==> pk[p.len() + j + 2] == k[j + 2]);
            assert(key_syllable(pk, p.len() + j) == (code, p.len() + next));
            lemma_key_codes_shift(p, k, next);
        } else {
            lemma_key_codes_shift(p, k, j + 1);
        }
    }
}

/// The key of codes with one more code in front is that code's key, then the others'.
proof fn lemma_key_spec_cons(c: u16, rest: Seq<u16>)
    ensures
        key_spec(seq![c] + rest) == match (syllable_key_spec(c), key_spec(rest)) {
            (Some(a), Some(b)) => Some(a + b),
            _ => None::<Seq<u8>>,
        },
    decreases rest.len(),
{
    let s = seq![c] + rest;
    if rest.len() == 0 {
        assert(s.drop_last() =~= Seq::<u16>::empty());
        assert(s.last() == c);
        assert(key_spec(rest) == Some(Seq::<u8>::empty()));
        assert(key_spec(s) == match (key_spec(s.drop_last()), syllable_key_spec(s.last())) {
            (Some(a), Some(b)) => Some(a + b),
            _ => None::<Seq<u8>>,
        });
        match syllable_key_spec(c) {
            Some(a) => {
                assert(Seq::<u8>::empty() + a =~= a);
                assert(a + Seq::<u8>::empty() =~= a);
            },
            None => {},
        }
    } else {
        lemma_key_spec_cons(c, rest.drop_last());
        assert(s.drop_last() =~= seq![c] + rest.drop_last());
        assert(s.last() == rest.last());
        assert(key_spec(s) == match (key_spec(s.drop_last()), syllable_key_spec(s.last())) {
            (Some(a), Some(b)) => Some(a + b),
            _ => None::<Seq<u8>>,
        });
        assert(key_spec(rest) == match (key_spec(rest.drop_last()), syllable_key_spec(rest.last())) {
            (Some(a), Some(b)) => Some(a + b),
            _ => None::<Seq<u8>>,
        });
        match (syllable_key_spec(c), key_spec(rest.drop_last()), syllable_key_spec(rest.last())) {
            (Some(a), Some(b), Some(e)) => {
                assert(a + b + e =~= a + (b + e));
            },
            _ => {},
        }
    }
}

/// Key bytes of codes that all have keys, and the first byte of a non-empty one starts a
/// code.
proof fn lemma_key_of_ok_codes(codes: Seq<u16>)
    requires
        forall|k: int| 0 <= k < codes.len() ==> key_code_ok(#[trigger] codes[k]),
    ensures
        key_spec(codes) is Some,
        codes.len() > 0 ==> (key_spec(codes)->0).len() > 0 && starts_code((key_spec(codes)->0)[0]),
    decreases codes.len(),
{
    if codes.len() > 0 {
        let c = codes[0];
        let rest = codes.drop_first();
        assert(codes =~= seq![c] + rest);
        assert forall|k: int| 0 <= k < rest.len() implies key_code_ok(#[trigger] rest[k]) by {
            assert(rest[k] == codes[k + 1]);
        }
        lemma_key_of_ok_codes(rest);
        lemma_key_spec_cons(c, rest);
        assert(key_code_ok(codes[0]));
        lemma_code_fields(c, (c % 0x8000) as u16);
    }
}

/// Codes that all have keys read back from their key: the key string of their key is the
/// codes themselves.
pub proof fn lemma_key_round_trip(codes: Seq<u16>)
    requires
        forall|k: int| 0 <= k < codes.len() ==> key_code_ok(#[trigger] codes[k]),
    ensures
        key_spec(codes) matches Some(key) && key_codes_from(key, 0) == Some(codes),
    decreases codes.len(),
{
    lemma_key_of_ok_codes(codes);
    if codes.len() == 0 {
        assert(key_codes_from(Seq::<u8>::empty(), 0) == Some(Seq::<u16>::empty()));
    } else {
        let c = codes[0];
        let rest = codes.drop_first();
        assert(codes =~= seq![c] + rest);
        assert forall|k: int| 0 <= k < rest.len() implies key_code_ok(#[trigger] rest[k]) by {
            assert(rest[k] == codes[k + 1]);
        }
        lemma_key_round_trip(rest);
        lemma_key_of_ok_codes(rest);
        lemma_key_spec_cons(c, rest);
        assert(key_code_ok(codes[0]));
        let kc = syllable_key_spec(c)->0;
        let kr = key_spec(rest)->0;
        let key = kc + kr;
        lemma_key_codes_shift(kc, kr, 0);
        lemma_code_fields(c, (c % 0x8000) as u16);
        if c >= 0x8000 {
            let u = c % 0x8000;
            assert(kc.len() == 1);
            assert(key[0] == kc[0]);
            assert(key_codes_from(key, 0) == prepend(c, key_codes_from(key, 1)));
        } else {
            let i = (c / 1024) % 32;
            let m = (c / 32) % 32;
            let f = c % 32;
            assert(key[0] == i as u8);
            assert(key[1] == (m + 0x13) as u8);
            if f != 0 {
                assert(kc.len() == 3);
                assert(key[2] == (f + 0x28) as u8);
                assert(key_syllable(key, 0) == (c, 3int));
            } else {
                assert(kc.len() == 2);
                if kr.len() > 0 {
                    assert(key[2] == kr[0]);
                    assert(starts_code(kr[0]));
                }
                assert(key_syllable(key, 0) == (c, 2int));
            }
            assert(key_codes_from(key, 0) == prepend(c, key_codes_from(key, kc.len() as int)));
        }
        assert(seq![c] + rest =~= codes);
    }
}

} // verus!
