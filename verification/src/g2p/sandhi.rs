//! Sound changes between adjacent syllables of a word (linking, nasalisation, aspiration,
//! tensing), driven by the finals of the word's spelling.
use vstd::prelude::*;
use crate::g2p::{class_of, initial_of, make_phoneme, make_phoneme_spec, medial_of, split_phoneme};
use crate::kps9566::{decode_from, sorted_by_kps, Kps9566, Mapping};
use crate::text::str_chars;
use super::g2p_dict::{
    aspirate_init, aspirate_init_spec, class_to_final, class_to_final_spec, final_to_class,
    final_to_class_spec, final_to_init, final_to_init_spec, is_func_medial, is_func_medial_spec,
    nasal_class, nasal_class_spec, tense_init, tense_init_spec, S_FIN_CHARS,
};
use super::word_record::WordRecord;

verus! {

/// Bytes whose spelling drives the rules: the spelling, or the reading when there is none.
pub open spec fn spelling_source(spelling: Seq<u8>, reading: Seq<u8>) -> Seq<u8> {
    if spelling.len() > 0 {
        spelling
    } else {
        reading
    }
}

/// Final jamo of a precomposed syllable ('\0' for none or for another character).
pub open spec fn final_char_spec(c: char) -> char {
    if 0xAC00 <= c as u32 <= 0xD7A3 {
        S_FIN_CHARS[((c as u32 - 0xAC00) % 28) as int]
    } else {
        '\0'
    }
}

/// The decoded spelling and the final of each of its characters, when there is one character
/// per phoneme.
pub open spec fn spelling_finals_spec(m: Seq<Mapping>, spelling: Seq<u8>, reading: Seq<u8>, n: int) -> Option<(Seq<char>, Seq<char>)> {
    let chars = decode_from(m, spelling_source(spelling, reading), 0);
    if chars.len() != n {
        None
    } else {
        Some((chars, chars.map_values(|c: char| final_char_spec(c))))
    }
}

fn final_char(c: char) -> (r: char)
    ensures
        r == final_char_spec(c),
{
    let u = c as u32;
    if 0xAC00 <= u && u <= 0xD7A3 {
        S_FIN_CHARS[((u - 0xAC00) % 28) as usize]
    } else {
        '\0'
    }
}

fn spelling_finals(kps: &Kps9566, rec: &WordRecord) -> (r: Option<(Vec<char>, Vec<char>)>)
    requires
        sorted_by_kps(kps.mappings()),
    ensures
        match r {
            Some((c, f)) => spelling_finals_spec(kps.mappings(), rec.spelling@, rec.reading_bytes@, rec.phoneme_codes@.len() as int) == Some((c@, f@)),
            None => spelling_finals_spec(kps.mappings(), rec.spelling@, rec.reading_bytes@, rec.phoneme_codes@.len() as int) is None,
        },
{
    let decoded = if rec.spelling.len() > 0 {
        kps.decode(&rec.spelling)
    } else {
        kps.decode(&rec.reading_bytes)
    };
    let chars = str_chars(decoded.as_str());
    if chars.len() != rec.phoneme_codes.len() {
        return None;
    }
    let mut finals: Vec<char> = Vec::new();
    let mut i: usize = 0;
    while i < chars.len()
        invariant
            i <= chars@.len(),
            finals@ == chars@.subrange(0, i as int).map_values(|c: char| final_char_spec(c)),
        decreases chars@.len() - i,
    {
        finals.push(final_char(chars[i]));
        i = i + 1;
        assert(finals@ =~= chars@.subrange(0, i as int).map_values(|c: char| final_char_spec(c)));
    }
    assert(chars@.subrange(0, chars@.len() as int) =~= chars@);
    Some((chars, finals))
}

/// Class of syllable `i` recomputed from the final of its spelling, with the fixed exceptions
/// 효 → 0, 편 → 6, 퓨 → 5, and 기 after 쓰 → 5.
pub open spec fn corrected_class(chars: Seq<char>, fins: Seq<char>, i: int) -> u8 {
    let c = chars[i];
    if c == '기' && i >= 1 && chars[i - 1] == '쓰' {
        5
    } else if c == '퓨' {
        5
    } else if c == '편' {
        6
    } else if c == '효' {
        0
    } else {
        final_to_class_spec(fins[i])
    }
}

/// The codes with each class replaced by the corrected class.
pub open spec fn corrected_codes(codes: Seq<u16>, chars: Seq<char>, fins: Seq<char>) -> Seq<u16> {
    Seq::new(codes.len(), |i: int| make_phoneme_spec(corrected_class(chars, fins, i), medial_of(codes[i]), initial_of(codes[i])))
}

/// Whether a class is that of final ㄱ, ㄷ or ㅂ.
pub open spec fn stop_class(c: u8) -> bool {
    c == 0 || c == 5 || c == 15
}

/// The final that moves on to the next syllable: the spelled one, or the class's own.
pub open spec fn moved_final(fins: Seq<char>, i: int, cls: u8) -> char {
    if fins[i] != '\0' {
        fins[i]
    } else {
        class_to_final_spec(cls)
    }
}

/// The codes after the rules for the pair at `i`, `i + 1`: aspiration and linking before
/// ㅎ; tensing of a third syllable after a stop and an open ㅇ syllable; linking into an ㅇ
/// function syllable; tensing of ㄱ/ㅈ and ㅅ after a stop; ㅈ+ㅓ after ㄴ; ㄷ before ㅗ/ㅘ
/// after ㄱ/ㄹ; nasalisation of a stop before ㄴ. An open syllable or one ending in ㅇ changes
/// nothing.
pub open spec fn sandhi_pair(codes: Seq<u16>, fins: Seq<char>, i: int) -> Seq<u16> {
    let n = codes.len();
    let cls1 = class_of(codes[i]);
    let med1 = medial_of(codes[i]);
    let init1 = initial_of(codes[i]);
    let cls2 = class_of(codes[i + 1]);
    let med2 = medial_of(codes[i + 1]);
    let init2 = initial_of(codes[i + 1]);
    if cls1 == 27 || cls1 == 18 {
        codes
    } else if init2 == 12 {
        if stop_class(cls1) && cls2 == 27 {
            codes.update(i + 1, make_phoneme_spec(cls2, med2, aspirate_init_spec(cls1)))
        } else if (cls1 == 2 || cls1 == 6 || cls1 == 14) && (cls2 == 0 || cls2 == 27) {
            codes.update(i + 1, make_phoneme_spec(cls2, med2, final_to_init_spec(moved_final(fins, i, cls1))))
                .update(i, make_phoneme_spec(27, med1, init1))
        } else {
            codes
        }
    } else {
        let c3 = if i + 2 < n { codes[i + 2] } else { 0u16 };
        let codes_a = if i + 2 < n && stop_class(cls1) && init2 == 18 && cls2 == 27 && (initial_of(c3) == 0
            || initial_of(c3) == 7) {
            codes.update(i + 2, make_phoneme_spec(class_of(c3), medial_of(c3), tense_init_spec(initial_of(c3))))
        } else {
            codes
        };
        if init2 == 18 && ((cls2 == 27 && is_func_medial_spec(med2)) || (cls2 == 6 && med2 == 8)) {
            codes_a.update(i + 1, make_phoneme_spec(cls2, med2, final_to_init_spec(moved_final(fins, i, cls1))))
                .update(i, make_phoneme_spec(27, med1, init1))
        } else if stop_class(cls1) && (init2 == 0 || init2 == 7) {
            codes_a.update(i + 1, make_phoneme_spec(cls2, med2, tense_init_spec(init2)))
        } else if stop_class(cls1) && init2 == 6 {
            if cls2 == 27 && med2 == 9 {
                codes_a.update(i + 1, make_phoneme_spec(0, med2, init2))
            } else if cls2 != 27 {
                codes_a.update(i + 1, make_phoneme_spec(cls2, med2, 16))
            } else {
                codes_a
            }
        } else if cls1 == 2 && init2 == 7 && med2 == 2 {
            codes_a.update(i + 1, make_phoneme_spec(cls2, med2, 17))
        } else if (cls1 == 0 || cls1 == 6) && init2 == 2 && (med2 == 4 || med2 == 14) {
            codes_a.update(i + 1, make_phoneme_spec(cls2, med2, 14))
        } else if stop_class(cls1) && init2 == 1 {
            codes_a.update(i, make_phoneme_spec(nasal_class_spec(cls1), med1, init1))
        } else {
            codes_a
        }
    }
}

/// The codes after the pair rules for the pairs starting at `i` up to `end` (exclusive), in
/// order.
pub open spec fn sandhi_from(codes: Seq<u16>, fins: Seq<char>, i: int, end: int) -> Seq<u16>
    decreases end - i,
{
    if i >= end {
        codes
    } else {
        sandhi_from(sandhi_pair(codes, fins, i), fins, i + 1, end)
    }
}

/// Phoneme codes of a word (given by its spelling, reading and phoneme codes) after the
/// in-word sound changes, with the pairs before `start_pair` left alone: unchanged for fewer
/// than two phonemes or when the spelling does not give one character per phoneme; else the
/// classes corrected from the spelling, then the pair rules from `start_pair` on.
pub open spec fn sandhi_view(m: Seq<Mapping>, spelling: Seq<u8>, reading: Seq<u8>, codes: Seq<u16>, start_pair: int) -> Seq<u16> {
    if codes.len() < 2 {
        codes
    } else {
        match spelling_finals_spec(m, spelling, reading, codes.len() as int) {
            None => codes,
            Some((chars, fins)) => sandhi_from(
                corrected_codes(codes, chars, fins),
                fins,
                start_pair,
                codes.len() - 1,
            ),
        }
    }
}

/// [`sandhi_view`] of a word record's spelling, reading and phoneme codes.
pub open spec fn sandhi_spec(m: Seq<Mapping>, rec: WordRecord, start_pair: int) -> Seq<u16> {
    sandhi_view(m, rec.spelling@, rec.reading_bytes@, rec.phoneme_codes@, start_pair)
}

/// Apply the in-word sound changes to the phoneme codes, leaving the pairs before
/// `start_pair` alone (see [`sandhi_spec`]); nothing else changes.
pub fn apply_phoneme_sandhi_from(kps: &Kps9566, rec: &mut WordRecord, start_pair: usize)
    requires
        sorted_by_kps(kps.mappings()),
    ensures
        final(rec).phoneme_codes@ == sandhi_spec(kps.mappings(), *old(rec), start_pair as int),
        *final(rec) == (WordRecord { phoneme_codes: final(rec).phoneme_codes, ..*old(rec) }),
{
    let n = rec.phoneme_codes.len();
    if n < 2 {
        return;
    }
    let (chars, fins) = match spelling_finals(kps, rec) {
        Some(x) => x,
        None => return,
    };
    let ghost pre = *rec;
    let ghost c0 = rec.phoneme_codes@;
    let mut i: usize = 0;
    while i < n
        invariant
            n == c0.len(),
            n == chars@.len(),
            n == fins@.len(),
            i <= n,
            *rec == (WordRecord { phoneme_codes: rec.phoneme_codes, ..pre }),
            c0 == pre.phoneme_codes@,
            rec.phoneme_codes@.len() == n,
            forall|k: int| 0 <= k < i ==> #[trigger] rec.phoneme_codes@[k] == corrected_codes(c0, chars@, fins@)[k],
            forall|k: int| i <= k < n ==> #[trigger] rec.phoneme_codes@[k] == c0[k],
        decreases n - i,
    {
        let (_, med, init) = split_phoneme(rec.phoneme_codes[i]);
        let mut cls = final_to_class(fins[i]);
        if chars[i] == '효' {
            cls = 0;
        }
        if chars[i] == '편' {
            cls = 6;
        }
        if chars[i] == '퓨' {
            cls = 5;
        }
        if chars[i] == '기' && i >= 1 && chars[i - 1] == '쓰' {
            cls = 5;
        }
        let v = make_phoneme(cls, med, init);
        rec.phoneme_codes.set(i, v);
        i = i + 1;
    }
    assert(rec.phoneme_codes@ =~= corrected_codes(c0, chars@, fins@));
    let ghost goal = sandhi_from(corrected_codes(c0, chars@, fins@), fins@, start_pair as int, n - 1);
    let mut i: usize = start_pair;
    if i < n - 1 {
        while i < n - 1
            invariant
                n == c0.len(),
                n == fins@.len(),
                start_pair <= i <= n - 1,
                *rec == (WordRecord { phoneme_codes: rec.phoneme_codes, ..pre }),
                rec.phoneme_codes@.len() == n,
                sandhi_from(rec.phoneme_codes@, fins@, i as int, n - 1) == goal,
            decreases n - 1 - i,
        {
            let ghost cur = rec.phoneme_codes@;
            pair_step(&mut rec.phoneme_codes, &fins, i);
            assert(rec.phoneme_codes@ == sandhi_pair(cur, fins@, i as int));
            i = i + 1;
        }
    }
}

/// The pair rules at `i`, `i + 1` applied in place (see [`sandhi_pair`]).
fn pair_step(codes: &mut Vec<u16>, fins: &Vec<char>, i: usize)
    requires
        i + 1 < old(codes)@.len(),
        old(codes)@.len() == fins@.len(),
    ensures
        final(codes)@ == sandhi_pair(old(codes)@, fins@, i as int),
{
    let n = codes.len();
    let (cls1, med1, init1) = split_phoneme(codes[i]);
    let (cls2, med2, init2) = split_phoneme(codes[i + 1]);
    proof {
        crate::g2p::lemma_make_split(0, 0, 0);
    }
    if cls1 == 27 || cls1 == 18 {
        return;
    }
    if init2 == 12 {
        if (cls1 == 0 || cls1 == 5 || cls1 == 15) && cls2 == 27 {
            codes.set(i + 1, make_phoneme(cls2, med2, aspirate_init(cls1)));
            return;
        }
        if (cls1 == 2 || cls1 == 6 || cls1 == 14) && (cls2 == 0 || cls2 == 27) {
            let f = if fins[i] != '\0' {
                fins[i]
            } else {
                class_to_final(cls1)
            };
            codes.set(i + 1, make_phoneme(cls2, med2, final_to_init(f)));
            codes.set(i, make_phoneme(27, med1, init1));
            return;
        }
        return;
    }
    if i + 2 < n && (cls1 == 0 || cls1 == 15 || cls1 == 5) && init2 == 18 && cls2 == 27 {
        let (c3, m3, i3) = split_phoneme(codes[i + 2]);
        if i3 == 0 || i3 == 7 {
            codes.set(i + 2, make_phoneme(c3, m3, tense_init(i3)));
        }
    }
    if init2 == 18 && ((cls2 == 27 && is_func_medial(med2)) || (cls2 == 6 && med2 == 8)) {
        let f = if fins[i] != '\0' {
            fins[i]
        } else {
            class_to_final(cls1)
        };
        codes.set(i + 1, make_phoneme(cls2, med2, final_to_init(f)));
        codes.set(i, make_phoneme(27, med1, init1));
        return;
    }
    if (cls1 == 0 || cls1 == 15 || cls1 == 5) && (init2 == 0 || init2 == 7) {
        codes.set(i + 1, make_phoneme(cls2, med2, tense_init(init2)));
        return;
    }
    if (cls1 == 0 || cls1 == 15 || cls1 == 5) && init2 == 6 {
        if cls2 == 27 && med2 == 9 {
            codes.set(i + 1, make_phoneme(0, med2, init2));
        } else if cls2 != 27 {
            codes.set(i + 1, make_phoneme(cls2, med2, 16));
        }
        return;
    }
    if cls1 == 2 && init2 == 7 && med2 == 2 {
        codes.set(i + 1, make_phoneme(cls2, med2, 17));
        return;
    }
    if (cls1 == 0 || cls1 == 6) && init2 == 2 && (med2 == 4 || med2 == 14) {
        codes.set(i + 1, make_phoneme(cls2, med2, 14));
        return;
    }
    if (cls1 == 0 || cls1 == 5 || cls1 == 15) && init2 == 1 {
        codes.set(i, make_phoneme(nasal_class(cls1), med1, init1));
        return;
    }
}

/// Apply the in-word sound changes to every pair of the word (see [`sandhi_spec`]).
pub fn apply_phoneme_sandhi(kps: &Kps9566, rec: &mut WordRecord)
    requires
        sorted_by_kps(kps.mappings()),
    ensures
        final(rec).phoneme_codes@ == sandhi_spec(kps.mappings(), *old(rec), 0),
        *final(rec) == (WordRecord { phoneme_codes: final(rec).phoneme_codes, ..*old(rec) }),
{
    apply_phoneme_sandhi_from(kps, rec, 0);
}

} // verus!
