//! Phoneme-code arithmetic shared by the grapheme-to-phoneme stages.
//!
//! A 16-bit phoneme code packs `(class << 10) | (medial << 5) | initial`:
//! a 6-bit class (the neutralized final), a 5-bit vowel and a 5-bit onset.
use vstd::prelude::*;
use codec::{kps_bytes_to_codes, kps_codes_from, phoneme_code_ok, phoneme_codes_from_syllables, phoneme_spec, KpsTables};

pub mod data;
pub mod codec;
pub mod exact_hooks;
pub mod linking;
pub mod g2p_dict;
pub mod sandhi;
pub mod word_record;
pub mod viterbi;
pub mod word_markers;
pub mod words;

use data::{first_unit_from, unit_name_reading};

pub use data::{
    digit_prefix_len, digit_prefixes, digit_word_hit, digit_words, exception_rule, exception_table,
    lookup_exception, special_to_key_char, unit_match, unit_reading, unit_table, ExceptionOutcome,
    ExceptionRule, HardReading, EXCEPTION_COUNT, UNIT_CORE_COUNT, UNIT_COUNT,
};

verus! {

/// Class field (bits 10..16) of a phoneme code.
pub open spec fn class_of(code: u16) -> u8 {
    ((code >> 10) & 0x3f) as u8
}

/// Medial field (bits 5..10) of a phoneme code.
pub open spec fn medial_of(code: u16) -> u8 {
    ((code >> 5) & 0x1f) as u8
}

/// Initial field (bits 0..5) of a phoneme code.
pub open spec fn initial_of(code: u16) -> u8 {
    (code & 0x1f) as u8
}

/// The code with the three fields, each masked to its width.
pub open spec fn make_phoneme_spec(class: u8, medial: u8, initial: u8) -> u16 {
    (((class as u16) & 0x3f) << 10) | (((medial as u16) & 0x1f) << 5) | ((initial as u16) & 0x1f)
}

/// Split a phoneme code into (class, medial, initial).
pub fn split_phoneme(code: u16) -> (r: (u8, u8, u8))
    ensures
        r == (class_of(code), medial_of(code), initial_of(code)),
        r.0 < 64,
        r.1 < 32,
        r.2 < 32,
{
    assert(((code >> 10) & 0x3f) < 64 && ((code >> 5) & 0x1f) < 32 && (code & 0x1f) < 32) by (bit_vector);
    (((code >> 10) & 0x3f) as u8, ((code >> 5) & 0x1f) as u8, (code & 0x1f) as u8)
}

/// Assemble a phoneme code from (class, medial, initial), masking each field.
pub fn make_phoneme(class: u8, medial: u8, initial: u8) -> (r: u16)
    ensures
        r == make_phoneme_spec(class, medial, initial),
{
    (((class as u16) & 0x3f) << 10) | (((medial as u16) & 0x1f) << 5) | ((initial as u16) & 0x1f)
}

/// Assembling the fields of a code gives the code back.
pub proof fn lemma_split_make(code: u16)
    ensures
        make_phoneme_spec(class_of(code), medial_of(code), initial_of(code)) == code,
{
    assert((((((code >> 10) & 0x3f) as u8) as u16 & 0x3f) << 10) | (((((code >> 5) & 0x1f) as u8)
        as u16 & 0x1f) << 5) | ((((code & 0x1f) as u8) as u16) & 0x1f) == code) by (bit_vector);
}

/// Splitting an assembled code gives back each field masked to its width.
pub proof fn lemma_make_split(class: u8, medial: u8, initial: u8)
    ensures
        class_of(make_phoneme_spec(class, medial, initial)) == class & 0x3f,
        medial_of(make_phoneme_spec(class, medial, initial)) == medial & 0x1f,
        initial_of(make_phoneme_spec(class, medial, initial)) == initial & 0x1f,
{
    let c = make_phoneme_spec(class, medial, initial);
    assert(c == (((class as u16) & 0x3f) << 10) | (((medial as u16) & 0x1f) << 5) | ((
    initial as u16) & 0x1f));
    assert((((((((class as u16) & 0x3f) << 10) | (((medial as u16) & 0x1f) << 5) | ((
    initial as u16) & 0x1f)) >> 10) & 0x3f) as u8) == class & 0x3f) by (bit_vector);
    assert((((((((class as u16) & 0x3f) << 10) | (((medial as u16) & 0x1f) << 5) | ((
    initial as u16) & 0x1f)) >> 5) & 0x1f) as u8) == medial & 0x1f) by (bit_vector);
    assert(((((((class as u16) & 0x3f) << 10) | (((medial as u16) & 0x1f) << 5) | ((
    initial as u16) & 0x1f)) & 0x1f) as u8) == initial & 0x1f) by (bit_vector);
}

/// Neutralized class of each final consonant index (0 = no final).
pub const FINAL_TO_CLASS: [u8; 28] = [
    0, 2, 2, 5, 6, 0, 15, 14, 15, 6, 6, 15, 15, 14, 5, 15, 5, 18, 0, 5, 15, 5, 0, 5, 27, 5, 5, 0,
];

/// [`FINAL_TO_CLASS`] as a function of the final index.
pub open spec fn final_class_spec(f: int) -> u8 {
    if f == 1 || f == 2 {
        2
    } else if f == 3 || f == 14 || f == 16 || f == 19 || f == 21 || f == 23 || f == 25 || f == 26 {
        5
    } else if f == 4 || f == 9 || f == 10 {
        6
    } else if f == 6 || f == 8 || f == 11 || f == 12 || f == 15 || f == 20 {
        15
    } else if f == 7 || f == 13 {
        14
    } else if f == 17 {
        18
    } else if f == 24 {
        27
    } else {
        0
    }
}

/// Intermediate codes carry a final index in the class field; only indices below 28 occur.
pub open spec fn intermediate_ok(code: u16) -> bool {
    class_of(code) < 28
}

/// Replace the final index in the class field by its neutralized class.
pub open spec fn apply_final_class_spec(code: u16) -> u16 {
    (((final_class_spec(class_of(code) as int) as u16) << 10) | (code & 0x3ff)) as u16
}

/// Replace the final index held in the class field by its neutralized class.
pub fn apply_final_class(code: u16) -> (r: u16)
    requires
        intermediate_ok(code),
    ensures
        r == apply_final_class_spec(code),
{
    assert(((code >> 10) & 0x3f) < 64) by (bit_vector);
    let idx = ((code >> 10) & 0x3f) as usize;
    assert(idx < 28);
    let class = FINAL_TO_CLASS[idx] as u16;
    assert(class == final_class_spec(idx as int));
    (class << 10) | (code & 0x3ff)
}

/// Vowel-final base code (class 27) for a medial and an initial.
pub fn synthesize(medial: u8, initial: u8) -> (r: u16)
    ensures
        r == make_phoneme_spec(27, medial, initial),
{
    assert((27u8 as u16) & 0x3f == 27) by (bit_vector);
    assert(((27u16 << 10) | 0u16) == 0x6c00u16) by (bit_vector);
    let r = 0x6c00 | (((medial as u16) & 0x1f) << 5) | ((initial as u16) & 0x1f);
    assert(r == ((27u16 & 0x3f) << 10) | (((medial as u16) & 0x1f) << 5) | ((initial as u16)
        & 0x1f)) by (bit_vector)
        requires
            r == 0x6c00 | (((medial as u16) & 0x1f) << 5) | ((initial as u16) & 0x1f),
    ;
    r
}

/// Syllable code `(initial << 10) | (medial << 5) | final` reordered to
/// `(final << 10) | (medial << 5) | initial`.
pub open spec fn intermediate_spec(syllable: u16) -> u16 {
    (((syllable & 0x1f) << 10) | (((syllable >> 5) & 0x1f) << 5) | ((syllable >> 10) & 0x1f)) as u16
}

/// Reorder a syllable code into the intermediate `[final][medial][initial]` layout.
pub fn syllable_to_intermediate(syllable: u16) -> (r: u16)
    ensures
        r == intermediate_spec(syllable),
{
    let initial = (syllable >> 10) & 0x1f;
    let medial = (syllable >> 5) & 0x1f;
    let final_c = syllable & 0x1f;
    (final_c << 10) | (medial << 5) | initial
}

/// Phoneme code of a syllable: the intermediate code with its final class applied.
pub fn syllable_to_phoneme(syllable: u16) -> (r: u16)
    requires
        syllable & 0x1f < 28,
    ensures
        r == apply_final_class_spec(intermediate_spec(syllable)),
{
    let m = syllable_to_intermediate(syllable);
    assert(class_of(m) == syllable & 0x1f) by (bit_vector)
        requires
            m == (((syllable & 0x1f) << 10) | (((syllable >> 5) & 0x1f) << 5) | ((syllable >> 10)
                & 0x1f)),
    ;
    apply_final_class(m)
}

/// Back from a vowel-final (class 27) phoneme code to its syllable code; `None` for any other class.
pub fn phoneme_to_syllable(code: u16) -> (r: Option<u16>)
    ensures
        r == (if class_of(code) == 27 {
            Some((((initial_of(code) as u16) << 10) | ((medial_of(code) as u16) << 5)) as u16)
        } else {
            None
        }),
{
    let (class, medial, initial) = split_phoneme(code);
    if class != 27 {
        return None;
    }
    Some(((initial as u16) << 10) | ((medial as u16) << 5))
}

/// Pause codes: class in {2, 14, 18, 27} with low field in {1, 4, 18}, or class 6 with low field in {3, 4, 18}.
pub open spec fn is_pause_spec(class: u8, low5: u8) -> bool {
    ((class == 2 || class == 0x0e || class == 0x12 || class == 0x1b) && (low5 == 1 || low5 == 4
        || low5 == 0x12)) || (class == 6 && (low5 == 3 || low5 == 4 || low5 == 0x12))
}

/// Whether (class, low field) marks a pause.
pub fn is_pause(class: u8, low5: u8) -> (r: bool)
    ensures
        r == is_pause_spec(class, low5),
{
    ((class == 2 || class == 0x0e || class == 0x12 || class == 0x1b) && (low5 == 1 || low5 == 4
        || low5 == 0x12)) || (class == 6 && (low5 == 3 || low5 == 4 || low5 == 0x12))
}

/// Whether a phoneme code is a pause code.
pub fn is_pause_code(code: u16) -> (r: bool)
    ensures
        r == is_pause_spec(class_of(code), initial_of(code)),
{
    is_pause(((code >> 10) & 0x3f) as u8, (code & 0x1f) as u8)
}

/// Real phonemes: low field outside {1, 4, 6, 8..=14, 16, 17, 18}, and not (class 6, low field 3).
pub open spec fn is_real_phoneme_spec(class: u8, low5: u8) -> bool {
    !(low5 == 1 || low5 == 4 || low5 == 6 || (8 <= low5 <= 14) || low5 == 16 || low5 == 17 || low5
        == 18) && !(low5 == 3 && class == 6)
}

/// Whether (class, low field) is a real phoneme rather than a marker.
pub fn is_real_phoneme(class: u8, low5: u8) -> (r: bool)
    ensures
        r == is_real_phoneme_spec(class, low5),
{
    let excluded = low5 == 1 || low5 == 4 || low5 == 6 || (8 <= low5 && low5 <= 14) || low5 == 16
        || low5 == 17 || low5 == 18;
    !excluded && !(low5 == 3 && class == 6)
}

/// Whether a phoneme code is a real phoneme.
pub fn is_real_phoneme_code(code: u16) -> (r: bool)
    ensures
        r == is_real_phoneme_spec(class_of(code), initial_of(code)),
{
    is_real_phoneme(((code >> 10) & 0x3f) as u8, (code & 0x1f) as u8)
}

/// Whether any byte is an ASCII digit.
pub open spec fn has_ascii_digit(s: Seq<u8>) -> bool {
    exists|i: int| 0 <= i < s.len() && 0x30 <= #[trigger] s[i] <= 0x39
}

/// Reading of the unit word `next` after a number word `current` (one holding an ASCII digit
/// or starting with a KPS 9566 byte); `None` when either word is empty, `current` is no number
/// word, or `next` is no known unit.
pub fn number_unit_lookup(current: &[u8], next: &[u8]) -> (r: Option<Vec<u8>>)
    ensures
        (current@.len() == 0 || next@.len() == 0 || !(has_ascii_digit(current@) || current@[0]
            >= 0xa1)) ==> r is None,
        (current@.len() > 0 && next@.len() > 0 && (has_ascii_digit(current@) || current@[0]
            >= 0xa1)) ==> match first_unit_from(next@, 0) {
            Some(i) => r matches Some(v) && v@ == unit_name_reading(i as u8),
            None => r is None,
        },
{
    if current.len() == 0 || next.len() == 0 {
        return None;
    }
    let mut has_digit = false;
    let mut i: usize = 0;
    while i < current.len()
        invariant
            i <= current@.len(),
            has_digit == exists|j: int| 0 <= j < i && 0x30 <= #[trigger] current@[j] <= 0x39,
        decreases current@.len() - i,
    {
        if 0x30 <= current[i] && current[i] <= 0x39 {
            has_digit = true;
        }
        i = i + 1;
    }
    let is_korean = current[0] >= 0xa1;
    if !(has_digit || is_korean) {
        return None;
    }
    unit_reading(next)
}

/// Reading of the unit word `next` after the number word `current` (see
/// [`number_unit_lookup`]).
pub open spec fn unit_lookup_spec(current: Seq<u8>, next: Seq<u8>) -> Option<Seq<u8>> {
    if current.len() == 0 || next.len() == 0 || !(has_ascii_digit(current) || current[0] >= 0xa1) {
        None
    } else {
        match first_unit_from(next, 0) {
            Some(i) => Some(unit_name_reading(i as u8)),
            None => None,
        }
    }
}

/// Whether a token reads as a number: all ASCII digits, holding a `.`, or starting with a
/// KPS 9566 byte.
pub open spec fn number_form(current: Seq<u8>) -> bool {
    (forall|i: int| 0 <= i < current.len() ==> 0x30 <= #[trigger] current[i] <= 0x39)
        || current.contains(0x2eu8) || (current.len() > 0 && current[0] >= 0xa1)
}

/// Phoneme codes of the unit reading after a number token: `None` when there is no unit
/// reading, the token does not read as a number, or the reading's bytes do not convert.
pub open spec fn number_unit_reading_spec(t: KpsTables, current: Seq<u8>, next: Seq<u8>) -> Option<Seq<u16>> {
    match unit_lookup_spec(current, next) {
        None => None,
        Some(rd) => if !number_form(current) {
            None
        } else {
            match kps_codes_from(t, rd, 0) {
                Some(c) => Some(c.map_values(|x: u16| phoneme_spec(t, x))),
                None => None,
            }
        },
    }
}

/// Whether every code of some bytes converts to a phoneme code.
pub open spec fn codes_convert(t: KpsTables, b: Seq<u8>) -> bool {
    kps_codes_from(t, b, 0) matches Some(c) ==> forall|i: int| 0 <= i < c.len() ==> phoneme_code_ok(#[trigger] c[i])
}

/// Phoneme codes of the unit word after a number token (see [`number_unit_reading_spec`]).
pub fn number_unit_reading(t: &KpsTables, current: &[u8], next: &[u8]) -> (r: Option<Vec<u16>>)
    requires
        t.wf(),
        unit_lookup_spec(current@, next@) matches Some(rd) ==> codes_convert(*t, rd),
    ensures
        match r {
            Some(v) => number_unit_reading_spec(*t, current@, next@) == Some(v@),
            None => number_unit_reading_spec(*t, current@, next@) is None,
        },
{
    let reading = match number_unit_lookup(current, next) {
        Some(rd) => rd,
        None => return None,
    };
    let mut all_digits = true;
    let mut has_dot = false;
    let mut i: usize = 0;
    while i < current.len()
        invariant
            i <= current@.len(),
            all_digits == (forall|j: int| 0 <= j < i ==> 0x30 <= #[trigger] current@[j] <= 0x39),
            has_dot == current@.subrange(0, i as int).contains(0x2eu8),
        decreases current@.len() - i,
    {
        let b = current[i];
        if !(0x30 <= b && b <= 0x39) {
            all_digits = false;
        }
        if b == 0x2e {
            has_dot = true;
        }
        proof {
            let pre = current@.subrange(0, i as int);
            let nxt = current@.subrange(0, i + 1);
            assert(nxt =~= pre.push(b));
            if b == 0x2e {
                assert(nxt[i as int] == 0x2eu8);
            }
            if pre.contains(0x2eu8) {
                let k = choose|k: int| 0 <= k < pre.len() && #[trigger] pre[k] == 0x2eu8;
                assert(nxt[k] == 0x2eu8);
            }
            if nxt.contains(0x2eu8) {
                let k = choose|k: int| 0 <= k < nxt.len() && #[trigger] nxt[k] == 0x2eu8;
                if k < i {
                    assert(pre[k] == 0x2eu8);
                }
            }
        }
        i = i + 1;
    }
    assert(current@.subrange(0, current@.len() as int) =~= current@);
    let is_korean = current.len() > 0 && current[0] >= 0xA1;
    if !(all_digits || has_dot || is_korean) {
        return None;
    }
    let codes = match kps_bytes_to_codes(t, &reading) {
        Some(c) => c,
        None => return None,
    };
    Some(phoneme_codes_from_syllables(t, &codes))
}

} // verus!
