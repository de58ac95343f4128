//! The cross-word rules decided on the analyzer records of two adjacent words: linking (by
//! which of its eleven cases the last morpheme of a word links to the first of the next),
//! nasalisation and aspiration.
use vstd::prelude::*;
use super::exact_hooks::{morph_flag_at, morph_type_at, slot_holds, slot_in, u32_at, RawSecondRecord, SECOND_COUNT_OFFSET};
use super::word_record::WordRecord;

verus! {

/// The morpheme strings the linking rule compares slots with.
pub struct PostprocessTables {
    /// Ending of the first two linking cases.
    pub linking_ending: Vec<u8>,
    /// Stem ending of the fourth linking case.
    pub stem_ending: Vec<u8>,
    /// Endings of the fourth linking case.
    pub tail_endings: Vec<Vec<u8>>,
    /// Endings that keep a word with terminal type 0x15 out of the eighth linking case.
    pub excluded_endings: Vec<Vec<u8>>,
    /// Ending of the eleventh linking case and of the second nasal case.
    pub final_ending: Vec<u8>,
    /// Ending after which the nasal rule applies.
    pub nasal_ending: Vec<u8>,
    /// Endings that keep a word with terminal type 0x1c out of the nasal rule.
    pub nasal_exclusions: Vec<Vec<u8>>,
}

/// Bytes of a record's analyzer record (empty when it has none).
pub open spec fn raw_bytes(r: WordRecord) -> Seq<u8> {
    match r.raw_second_record {
        Some(raw) => raw.view_bytes(),
        None => Seq::empty(),
    }
}

/// Morpheme count of a record, when its analyzer record is present, gives a non-zero count,
/// and the record's own count and word type agree with it.
pub open spec fn recovered_count_spec(r: WordRecord) -> Option<int> {
    match r.raw_second_record {
        Some(raw) => {
            let n = u32_at(raw.view_bytes(), SECOND_COUNT_OFFSET as int);
            if n != 0 && r.morph_count == n && r.word_type == n {
                Some(n)
            } else {
                None
            }
        },
        None => None,
    }
}

/// Morpheme types 1, 2, 3, 9 and 14.
pub open spec fn type_set(v: u8) -> bool {
    v == 1 || v == 2 || v == 3 || v == 9 || v == 14
}

/// Morpheme types the analyzer accepts throughout a word.
pub open spec fn allowed_type(v: u8) -> bool {
    (4 <= v <= 9) || v == 12 || v == 13 || (15 <= v <= 21)
}

/// Whether the record has a count and every one of its morpheme types is an accepted one.
pub open spec fn analyzer_ok(r: WordRecord) -> bool {
    recovered_count_spec(r) matches Some(n) && forall|k: int|
        0 <= k < n ==> allowed_type(#[trigger] morph_type_at(raw_bytes(r), 3 + k))
}

/// Whether slot `i` holds one of the strings `es`.
pub open spec fn slot_holds_any(b: Seq<u8>, i: int, es: Seq<Vec<u8>>) -> bool {
    exists|j: int| 0 <= j < es.len() && slot_holds(b, i, #[trigger] es[j]@)
}

/// Whether a morpheme type pair opens with type `v`: `first == v`, or `first == 1` and
/// `second == v`.
pub open spec fn opens_with(first: u8, second: u8, v: u8) -> bool {
    first == v || (first == 1 && second == v)
}

/// Linking case of two words with counts `n` and `n2` (see [`stage4_linking_spec`]).
pub open spec fn linking_case(t: PostprocessTables, l: WordRecord, r: WordRecord, n: int, n2: int) -> u8 {
    let lb = raw_bytes(l);
    let rb = raw_bytes(r);
    let nt = morph_type_at(rb, 3);
    let first = morph_type_at(lb, 3);
    let terminal = morph_type_at(lb, n + 2);
    let target = morph_type_at(rb, n2 + 2);
    if n > 2 && (morph_type_at(lb, n) == 4 || morph_type_at(lb, n) == 5) && morph_type_at(lb, n + 1) == 0x1e
        && terminal == 0x1b && slot_holds(lb, n + 9, t.linking_ending@) && type_set(nt) {
        1
    } else if type_set(first) && terminal == 0x1b && slot_holds(lb, n + 9, t.linking_ending@) && type_set(nt) {
        2
    } else if analyzer_ok(l) && nt == 1 {
        3
    } else if n > 2 && type_set(first) && (slot_holds(lb, n + 8, t.stem_ending@) || (slot_holds(
        lb,
        n + 7,
        t.stem_ending@,
    ) && 0x17 <= morph_type_at(lb, n + 1) <= 0x19)) && terminal == 0x14 && slot_holds_any(
        lb,
        n + 9,
        t.tail_endings@,
    ) && nt == 1 {
        4
    } else if first == 7 && nt == 1 {
        5
    } else if (analyzer_ok(l) || terminal == 0x0b || terminal == 0x1e) && ((1 <= nt <= 6) || (nt == 0x0c
        && morph_type_at(rb, 4) == 4)) {
        6
    } else if n == 1 && first == 2 && nt == 3 {
        7
    } else if n > 1 && (terminal == 0x1e || terminal == 0x17 || (terminal == 0x15 && slot_in(lb, n + 9)
        && !slot_holds_any(lb, n + 9, t.excluded_endings@))) && (opens_with(first, morph_type_at(lb, 4), 5)
        || opens_with(first, morph_type_at(lb, 4), 4)) && (opens_with(nt, morph_type_at(rb, 4), 5)
        || opens_with(nt, morph_type_at(rb, 4), 4)) {
        8
    } else if n == 1 && first == 6 && nt == 6 {
        9
    } else if type_set(first) && terminal == 0x1b && morph_flag_at(lb, n) & 0xe0 == 0xe0 && (target == 0x1b
        || target == 0x1c || analyzer_ok(r)) {
        10
    } else if type_set(first) && terminal == 0x15 && slot_holds(lb, n + 9, t.final_ending@) && (target
        == 0x1b || target == 0x1c || analyzer_ok(r)) {
        11
    } else {
        0
    }
}

/// Linking case of a word followed by another: 0 unless both carry an analyzer record with a
/// recovered count, else the first of the eleven cases that applies (0 when none does).
pub open spec fn stage4_linking_spec(t: PostprocessTables, l: WordRecord, r: WordRecord) -> u8 {
    match (recovered_count_spec(l), recovered_count_spec(r)) {
        (Some(n), Some(n2)) => linking_case(t, l, r, n, n2),
        _ => 0,
    }
}

/// Whether a word opens with a morpheme of type 4 or 5 (possibly after one of type 1).
pub open spec fn opens_with_4_or_5(first: u8, second: u8) -> bool {
    (first == 4 || first == 5 || first == 1) && (first != 1 || second == 4 || second == 5)
}

/// Nasal case of two words when the first has count `n`: 1 when the first word's ending
/// allows it and the second opens with type 4 or 5; 2 when the first word ends in types 3, 1,
/// 0x15 with the final ending and the second opens the same way; else 0.
pub open spec fn nasal_case(t: PostprocessTables, l: WordRecord, r: WordRecord, n: int) -> u8 {
    let lb = raw_bytes(l);
    let rb = raw_bytes(r);
    let kind = morph_type_at(lb, n + 2);
    let flag = morph_flag_at(lb, n) & 0xe0;
    let first_path = kind == 6 || kind == 0x1a || (kind == 0x1c && slot_in(lb, n + 9) && !slot_holds_any(
        lb,
        n + 9,
        t.nasal_exclusions@,
    )) || slot_holds(lb, n + 9, t.nasal_ending@) || (kind == 0x1b && (flag == 0x40 || flag == 0x80
        || flag == 0xa0 || flag == 0xc0));
    let right_ok = opens_with_4_or_5(morph_type_at(rb, 3), morph_type_at(rb, 4));
    if first_path && right_ok {
        1
    } else if morph_type_at(lb, n) == 3 && morph_type_at(lb, n + 1) == 1 && kind == 0x15 && slot_holds(
        lb,
        n + 9,
        t.final_ending@,
    ) && right_ok {
        2
    } else {
        0
    }
}

/// Nasal case of a word followed by another: 0 unless both carry an analyzer record with a
/// recovered count, else [`nasal_case`].
pub open spec fn stage4_nasal_spec(t: PostprocessTables, l: WordRecord, r: WordRecord) -> u8 {
    match (recovered_count_spec(l), recovered_count_spec(r)) {
        (Some(n), Some(_)) => nasal_case(t, l, r, n),
        _ => 0,
    }
}

/// Aspiration of a word followed by another: 1 when the first word has at least two
/// morphemes, opens with type 4 or 5 (possibly after type 1, or 0x0c before type 4) and ends
/// with type 0x14, and the second ends in a way that takes it (or all its types are accepted
/// ones); else 0.
pub open spec fn stage4_aspirate_spec(l: WordRecord, r: WordRecord) -> u8 {
    match (recovered_count_spec(l), recovered_count_spec(r)) {
        (Some(n), Some(n2)) => {
            let lb = raw_bytes(l);
            let rb = raw_bytes(r);
            let first = morph_type_at(lb, 3);
            let second = morph_type_at(lb, 4);
            let first_ok = (first == 0x0c && second == 4) || first == 5 || (first == 1 && second == 5)
                || first == 4 || (first == 1 && second == 4);
            let target = morph_type_at(rb, n2 + 2);
            let target_ok = target == 0x15 || target == 0x17 || target == 0x1b || target == 0x1c
                || morph_type_at(rb, n2 + 1) == 0x16;
            let shape_ok = if type_set(morph_type_at(rb, 3)) {
                target_ok
            } else {
                (morph_type_at(rb, n2) == 4 || morph_type_at(rb, n2) == 5) && morph_type_at(rb, n2 + 1)
                    == 0x1e && target_ok
            };
            if n >= 2 && first_ok && morph_type_at(lb, n + 2) == 0x14 && (shape_ok || analyzer_ok(r)) {
                1
            } else {
                0
            }
        },
        _ => 0,
    }
}

/// Morpheme count of a record (see [`recovered_count_spec`]); a recovered count fits the
/// record's tables.
fn recovered_count(rec: &WordRecord) -> (r: Option<usize>)
    ensures
        match r {
            Some(n) => recovered_count_spec(*rec) == Some(n as int) && n < 0x1dcc,
            None => recovered_count_spec(*rec) is None,
        },
{
    match &rec.raw_second_record {
        Some(raw) => {
            let n = raw.morph_count();
            if n != 0 && rec.morph_count == n && rec.word_type as usize == n {
                Some(n)
            } else {
                None
            }
        },
        None => None,
    }
}

fn is_type_set(v: u8) -> (r: bool)
    ensures
        r == type_set(v),
{
    v == 1 || v == 2 || v == 3 || v == 9 || v == 14
}

/// Whether the record has a count and all its morpheme types are accepted (see
/// [`analyzer_ok`]).
fn analyzer_predicate(rec: &WordRecord) -> (r: bool)
    ensures
        r == analyzer_ok(*rec),
{
    let n = match recovered_count(rec) {
        Some(n) => n,
        None => {
            return false;
        },
    };
    let raw = match &rec.raw_second_record {
        Some(raw) => raw,
        None => {
            return false;
        },
    };
    let mut k: usize = 0;
    while k < n
        invariant
            n < 0x1dcc,
            k <= n,
            recovered_count_spec(*rec) == Some(n as int),
            rec.raw_second_record == Some(*raw),
            forall|q: int| 0 <= q < k ==> allowed_type(#[trigger] morph_type_at(raw_bytes(*rec), 3 + q)),
        decreases n - k,
    {
        let v = raw.morph_type(3 + k);
        if !((4 <= v && v <= 9) || v == 12 || v == 13 || (15 <= v && v <= 21)) {
            assert(!allowed_type(morph_type_at(raw_bytes(*rec), 3 + k)));
            return false;
        }
        k = k + 1;
    }
    true
}

/// Whether slot `i` of `raw` holds one of `es`.
fn holds_any(raw: &RawSecondRecord, i: usize, es: &Vec<Vec<u8>>) -> (r: bool)
    ensures
        r == slot_holds_any(raw.view_bytes(), i as int, es@),
{
    let mut j: usize = 0;
    while j < es.len()
        invariant
            j <= es@.len(),
            forall|q: int| 0 <= q < j ==> !slot_holds(raw.view_bytes(), i as int, #[trigger] es@[q]@),
        decreases es@.len() - j,
    {
        if raw.slot_holds(i, es[j].as_slice()) {
            return true;
        }
        j = j + 1;
    }
    false
}

/// Which case of the cross-word linking rule joins `left` to `right` (see
/// [`stage4_linking_spec`]); 0 when none does.
pub fn exact_stage4_linking(t: &PostprocessTables, left: &WordRecord, right: &WordRecord) -> (r: u8)
    ensures
        r == stage4_linking_spec(*t, *left, *right),
        r <= 11,
        recovered_count_spec(*left) is None || recovered_count_spec(*right) is None ==> r == 0,
{
    let n = match recovered_count(left) {
        Some(n) => n,
        None => {
            return 0;
        },
    };
    let n2 = match recovered_count(right) {
        Some(n) => n,
        None => {
            return 0;
        },
    };
    let (lr, rr) = match (&left.raw_second_record, &right.raw_second_record) {
        (Some(a), Some(b)) => (a, b),
        _ => {
            return 0;
        },
    };
    let ghost lb = lr.view_bytes();
    let ghost rb = rr.view_bytes();
    assert(lb == raw_bytes(*left) && rb == raw_bytes(*right));
    let nt = rr.morph_type(3);
    let first = lr.morph_type(3);
    let terminal = lr.morph_type(n + 2);
    let target = rr.morph_type(n2 + 2);
    let mn = lr.morph_type(n);
    let mn1 = lr.morph_type(n + 1);
    let link_end = lr.slot_holds(n + 9, t.linking_ending.as_slice());
    if n > 2 && (mn == 4 || mn == 5) && mn1 == 0x1e && terminal == 0x1b && link_end && is_type_set(nt) {
        return 1;
    }
    if is_type_set(first) && terminal == 0x1b && link_end && is_type_set(nt) {
        return 2;
    }
    let left_ok = analyzer_predicate(left);
    if left_ok && nt == 1 {
        return 3;
    }
    if n > 2 && is_type_set(first) {
        let slot_ii = lr.slot_holds(n + 8, t.stem_ending.as_slice()) || (lr.slot_holds(
            n + 7,
            t.stem_ending.as_slice(),
        ) && 0x17 <= mn1 && mn1 <= 0x19);
        if slot_ii && terminal == 0x14 && holds_any(lr, n + 9, &t.tail_endings) && nt == 1 {
            return 4;
        }
    }
    if first == 7 && nt == 1 {
        return 5;
    }
    let second = lr.morph_type(4);
    let next_second = rr.morph_type(4);
    if (left_ok || terminal == 0x0b || terminal == 0x1e) && ((1 <= nt && nt <= 6) || (nt == 0x0c
        && next_second == 4)) {
        return 6;
    }
    if n == 1 && first == 2 && nt == 3 {
        return 7;
    }
    if n > 1 {
        let g8 = terminal == 0x1e || terminal == 0x17 || (terminal == 0x15 && lr.has_slot(n + 9)
            && !holds_any(lr, n + 9, &t.excluded_endings));
        let left_p8 = (first == 5 || (first == 1 && second == 5)) || (first == 4 || (first == 1
            && second == 4));
        let right_p8 = (nt == 5 || (nt == 1 && next_second == 5)) || (nt == 4 || (nt == 1
            && next_second == 4));
        if g8 && left_p8 && right_p8 {
            return 8;
        }
    }
    if n == 1 && first == 6 && nt == 6 {
        return 9;
    }
    if is_type_set(first) && terminal == 0x1b && lr.morph_flag(n) & 0xe0 == 0xe0 {
        if target == 0x1b || target == 0x1c || analyzer_predicate(right) {
            return 10;
        }
    }
    if is_type_set(first) && terminal == 0x15 && lr.slot_holds(n + 9, t.final_ending.as_slice()) {
        if target == 0x1b || target == 0x1c || analyzer_predicate(right) {
            return 11;
        }
    }
    0
}

/// Which case of the cross-word nasal rule joins `left` to `right` (see
/// [`stage4_nasal_spec`]); 0 when none does.
pub fn exact_stage4_nasal(t: &PostprocessTables, left: &WordRecord, right: &WordRecord) -> (r: u8)
    ensures
        r == stage4_nasal_spec(*t, *left, *right),
        r <= 2,
{
    let n = match recovered_count(left) {
        Some(n) => n,
        None => {
            return 0;
        },
    };
    if recovered_count(right).is_none() {
        return 0;
    }
    let (lr, rr) = match (&left.raw_second_record, &right.raw_second_record) {
        (Some(a), Some(b)) => (a, b),
        _ => {
            return 0;
        },
    };
    assert(lr.view_bytes() == raw_bytes(*left) && rr.view_bytes() == raw_bytes(*right));
    let kind = lr.morph_type(n + 2);
    let first_path = if !(kind == 6 || kind == 0x1a) {
        let special = kind == 0x1c && lr.has_slot(n + 9) && !holds_any(lr, n + 9, &t.nasal_exclusions);
        let ordinary = lr.slot_holds(n + 9, t.nasal_ending.as_slice());
        let flag = lr.morph_flag(n) & 0xe0;
        let marker_flag = kind == 0x1b && (flag == 0x40 || flag == 0x80 || flag == 0xa0 || flag == 0xc0);
        special || ordinary || marker_flag
    } else {
        true
    };
    let right_kind = rr.morph_type(3);
    let right_second = rr.morph_type(4);
    let right_ok = (right_kind == 4 || right_kind == 5 || right_kind == 1) && (right_kind != 1
        || right_second == 4 || right_second == 5);
    if first_path && right_ok {
        return 1;
    }
    if lr.morph_type(n) == 3 && lr.morph_type(n + 1) == 1 && kind == 0x15 && lr.slot_holds(
        n + 9,
        t.final_ending.as_slice(),
    ) && right_ok {
        return 2;
    }
    0
}

/// Whether the cross-word aspiration rule joins `left` to `right` (1) or not (0) (see
/// [`stage4_aspirate_spec`]).
pub fn exact_stage4_aspirate(left: &WordRecord, right: &WordRecord) -> (r: u8)
    ensures
        r == stage4_aspirate_spec(*left, *right),
        r <= 1,
{
    let n = match recovered_count(left) {
        Some(n) => n,
        None => {
            return 0;
        },
    };
    if n < 2 {
        return 0;
    }
    let n2 = match recovered_count(right) {
        Some(n) => n,
        None => {
            return 0;
        },
    };
    let (lr, rr) = match (&left.raw_second_record, &right.raw_second_record) {
        (Some(a), Some(b)) => (a, b),
        _ => {
            return 0;
        },
    };
    assert(lr.view_bytes() == raw_bytes(*left) && rr.view_bytes() == raw_bytes(*right));
    let first = lr.morph_type(3);
    let second = lr.morph_type(4);
    let first_ok = (first == 0x0c && second == 4) || first == 5 || (first == 1 && second == 5) || first == 4
        || (first == 1 && second == 4);
    if !first_ok || lr.morph_type(n + 2) != 0x14 {
        return 0;
    }
    let right_kind = rr.morph_type(3);
    let target = rr.morph_type(n2 + 2);
    let target_ok = target == 0x15 || target == 0x17 || target == 0x1b || target == 0x1c || rr.morph_type(
        n2 + 1,
    ) == 0x16;
    let shape_ok = if is_type_set(right_kind) {
        target_ok
    } else {
        let last = rr.morph_type(n2);
        (last == 4 || last == 5) && rr.morph_type(n2 + 1) == 0x1e && target_ok
    };
    if shape_ok || analyzer_predicate(right) {
        return 1;
    }
    0
}

} // verus!
