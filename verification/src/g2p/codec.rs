//! Conversions between KPS 9566 syllable codes, jamo indices, dictionary syllable codes and
//! phoneme codes.
//!
//! The KPS 9566 syllable block is laid out row by row (one row per onset, in KPS order) and,
//! inside a row, column by column (one column per vowel, in KPS order); a column holds the
//! syllables of its onset and vowel with the finals that exist, in order. The layout tables
//! describe where each row and column starts.
use vstd::prelude::*;
use super::g2p_dict::{append_opt, prepend, INIT_KP_TO_STD, INIT_STD_TO_KP, MED_KP_TO_STD, MED_STD_TO_KP};

verus! {

/// KPS 9566 code of 쩜, the decimal point read aloud.
pub const POINT_SYLLABLE: u16 = 0xC9B0;

/// Layout of the KPS 9566 syllable block and the codes of the number syllables.
#[derive(Debug, Clone)]
pub struct KpsTables {
    /// For each onset row `i` (0..19), the first code after the rows before it; a code below
    /// entry 0 is no syllable.
    pub row_starts: Vec<u16>,
    /// First code of each column, indexed `row * 21 + column` with 1-based row and column (so
    /// that entry `row * 21` is the last column of the row before); 0xFFFF marks an empty
    /// column.
    pub col_starts: Vec<u16>,
    /// Finals present in each column as a bit mask (bit = phonetic class), indexed
    /// `vowel + onset * 21` with 0-based KPS onset and vowel.
    pub col_masks: Vec<u32>,
    /// KPS codes of the digit syllables 령, 일, 이, ... 구.
    pub sino_digits: Vec<u16>,
    /// KPS codes of the unit syllables 십, 백, 천, 만, 억, 조, ...
    pub sino_units: Vec<u16>,
}

impl KpsTables {
    /// Table sizes; the first column of each row starts no later than the row; column starts
    /// low enough that an offset and the page correction stay within 16 bits; the number
    /// syllables and 쩜 convert to phoneme codes.
    pub open spec fn wf(&self) -> bool {
        &&& self.layout_wf()
        &&& forall|i: int| 0 <= i < self.sino_digits@.len() ==> kps_phoneme_ok(*self, #[trigger] self.sino_digits@[i])
        &&& forall|i: int| 0 <= i < self.sino_units@.len() ==> kps_phoneme_ok(*self, #[trigger] self.sino_units@[i])
        &&& kps_phoneme_ok(*self, POINT_SYLLABLE)
    }

    /// Table sizes and column starts (see [`KpsTables::wf`]).
    pub open spec fn layout_wf(&self) -> bool {
        &&& self.row_starts@.len() == 19
        &&& self.col_starts@.len() >= 421
        &&& self.col_masks@.len() >= 399
        &&& self.sino_digits@.len() == 10
        &&& self.sino_units@.len() >= 6
        &&& forall|r: int| 1 <= r <= 19 ==> (#[trigger] self.col_starts@[r * 21 + 1] == 0xffff
            || self.col_starts@[r * 21 + 1] <= self.row_starts@[r - 1])
        &&& forall|e: int| 0 <= e < self.col_starts@.len() ==> (#[trigger] self.col_starts@[e] == 0xffff
            || self.col_starts@[e] + 31 + 0xa2 <= 0xffff)
    }
}

/// First row `i >= from` whose start lies above `kps`, or 19.
pub open spec fn row_of(rs: Seq<u16>, kps: u16, from: int) -> int
    decreases 19 - from,
{
    if from >= 19 || from < 0 {
        19
    } else if kps < rs[from] {
        from
    } else {
        row_of(rs, kps, from + 1)
    }
}

/// Start of the column after column `m` of row `row` (the end of the block after the last).
pub open spec fn next_col_start(cs: Seq<u16>, row: int, m: int) -> u16 {
    if m == 20 {
        0xCCD0
    } else {
        cs[row * 21 + m + 1]
    }
}

/// First column `m >= from` of `row` whose successor starts above `kps`, or 21.
pub open spec fn col_of(cs: Seq<u16>, kps: u16, row: int, from: int) -> int
    decreases 21 - from,
{
    if from >= 21 || from < 0 {
        21
    } else if next_col_start(cs, row, from) != 0xffff && kps < next_col_start(cs, row, from) {
        from
    } else {
        col_of(cs, kps, row, from + 1)
    }
}

/// Offset of `kps` in the column starting at `start`, across the page gap, as a byte.
pub open spec fn fin_offset(kps: u16, start: u16) -> u8 {
    let svar = kps - start - (if kps % 256 < start % 256 {
        0xa2int
    } else {
        0int
    });
    if svar < 0 {
        0
    } else {
        (svar % 256) as u8
    }
}

/// Jamo of a KPS 9566 syllable code: (KPS row, KPS column, final offset).
pub open spec fn kps_jamo_spec(t: KpsTables, kps: u16) -> Option<(u8, u8, u8)> {
    let row = row_of(t.row_starts@, kps, 0);
    if row == 0 {
        None
    } else {
        let m = col_of(t.col_starts@, kps, row, 0);
        if m >= 21 {
            None
        } else {
            Some((row as u8, m as u8, fin_offset(kps, t.col_starts@[row * 21 + m])))
        }
    }
}

proof fn lemma_row_of_range(rs: Seq<u16>, kps: u16, from: int)
    requires
        0 <= from <= 19,
    ensures
        from <= row_of(rs, kps, from) <= 19,
    decreases 19 - from,
{
    if from < 19 && !(kps < rs[from]) {
        lemma_row_of_range(rs, kps, from + 1);
    }
}

proof fn lemma_col_of_range(cs: Seq<u16>, kps: u16, row: int, from: int)
    requires
        0 <= from <= 21,
    ensures
        from <= col_of(cs, kps, row, from) <= 21,
    decreases 21 - from,
{
    if from < 21 && !(next_col_start(cs, row, from) != 0xffff && kps < next_col_start(cs, row, from)) {
        lemma_col_of_range(cs, kps, row, from + 1);
    }
}

fn next_start(t: &KpsTables, row: usize, m: usize) -> (r: u16)
    requires
        t.layout_wf(),
        1 <= row <= 19,
        m < 21,
    ensures
        r == next_col_start(t.col_starts@, row as int, m as int),
{
    if m == 20 {
        0xCCD0
    } else {
        t.col_starts[row * 21 + m + 1]
    }
}

/// Jamo of a KPS 9566 syllable code, in KPS order: (onset row, vowel column, final offset);
/// `None` below the syllable block or past the last column.
pub fn kps_to_jamo_kp(t: &KpsTables, kps: u16) -> (r: Option<(u8, u8, u8)>)
    requires
        t.layout_wf(),
    ensures
        r == kps_jamo_spec(*t, kps),
{
    let mut init1: usize = 0;
    while init1 < 19 && !(kps < t.row_starts[init1])
        invariant
            init1 <= 19,
            t.layout_wf(),
            row_of(t.row_starts@, kps, 0) == row_of(t.row_starts@, kps, init1 as int),
        decreases 19 - init1,
    {
        init1 = init1 + 1;
    }
    if init1 == 0 {
        return None;
    }
    let mut med: usize = 0;
    while med < 21 && !(next_start(t, init1, med) != 0xffff && kps < next_start(t, init1, med))
        invariant
            med <= 21,
            1 <= init1 <= 19,
            t.layout_wf(),
            col_of(t.col_starts@, kps, init1 as int, 0) == col_of(t.col_starts@, kps, init1 as int, med as int),
        decreases 21 - med,
    {
        med = med + 1;
    }
    if med >= 21 {
        return None;
    }
    let start = t.col_starts[init1 * 21 + med];
    let mut svar: i32 = kps as i32 - start as i32;
    if kps % 256 < start % 256 {
        svar = svar - 0xa2;
    }
    let fin: u8 = if svar < 0 {
        0
    } else {
        (svar % 256) as u8
    };
    Some((init1 as u8, med as u8, fin))
}

/// Jamo (1-based onset, 1-based vowel, 0-based final) of a precomposed Unicode syllable.
pub open spec fn unicode_jamo_spec(uni: u32) -> Option<(u8, u8, u8)> {
    if 0xAC00 <= uni <= 0xD7A3 {
        let n = uni - 0xAC00;
        Some(((n / 588 + 1) as u8, ((n % 588) / 28 + 1) as u8, (n % 28) as u8))
    } else {
        None
    }
}

/// Jamo (1-based onset, 1-based vowel, 0-based final) of a precomposed Unicode syllable, or
/// `None` outside U+AC00..=U+D7A3.
pub fn unicode_syllable_to_jamo(uni: u32) -> (r: Option<(u8, u8, u8)>)
    ensures
        r == unicode_jamo_spec(uni),
{
    if !(0xAC00 <= uni && uni <= 0xD7A3) {
        return None;
    }
    let n = uni - 0xAC00;
    let init = (n / 588) as u8 + 1;
    let med = ((n % 588) / 28) as u8 + 1;
    let fin = (n % 28) as u8;
    Some((init, med, fin))
}

/// KPS 9566 code of a syllable given by standard 1-based onset and vowel and a final offset.
pub open spec fn jamo_kps_spec(t: KpsTables, init: u8, med: u8, fin: u8) -> Option<u16> {
    let init1 = INIT_STD_TO_KP[init - 1] + 1;
    let med1 = MED_STD_TO_KP[med - 1] + 1;
    let start = t.col_starts@[init1 * 21 + med1];
    if start == 0xffff {
        None
    } else {
        let code = (start + fin) as u16;
        let lo = code % 256;
        if lo < start % 256 || 0xfe < lo {
            Some((code + 0xa2) as u16)
        } else {
            Some(code)
        }
    }
}

/// KPS 9566 code of the syllable with standard 1-based onset `init`, vowel `med` and final
/// offset `fin`, or `None` when its column is empty.
fn jamo_to_kps_syllable(t: &KpsTables, init: u8, med: u8, fin: u8) -> (r: Option<u16>)
    requires
        t.wf(),
        1 <= init <= 19,
        1 <= med <= 21,
        fin < 32,
    ensures
        r == jamo_kps_spec(*t, init, med, fin),
{
    let init_kp = INIT_STD_TO_KP[(init - 1) as usize] as usize;
    let med_kp = MED_STD_TO_KP[(med - 1) as usize] as usize;
    let init1 = init_kp + 1;
    let med1 = med_kp + 1;
    let e = init1 * 21 + med1;
    let start = t.col_starts[e];
    if start == 0xffff {
        return None;
    }
    let mut code: u16 = start + fin as u16;
    let lo = code % 256;
    if lo < start % 256 || 0xfe < lo {
        code = code + 0xa2;
    }
    Some(code)
}

/// Byte of a special (bit 15) code: its low byte.
pub open spec fn special_byte_spec(code: u16) -> u8 {
    (code % 256) as u8
}

/// The byte a special code stands for: digits, `-` and `.` by name, any other code by its
/// low byte.
fn special_code_to_byte(code: u16) -> (r: u8)
    ensures
        r == special_byte_spec(code),
{
    let u = code & 0x7fff;
    assert(u % 256 == code % 256) by (bit_vector)
        requires
            u == code & 0x7fff,
    ;
    if 0x30 <= u && u <= 0x39 {
        (u as u8 - 0x30) + 0x30
    } else if u == 0x2d {
        0x2d
    } else if u == 0x2e {
        0x2e
    } else {
        let r = (u & 0xff) as u8;
        assert(u & 0xff == u % 256) by (bit_vector);
        r
    }
}

/// Special code of a single-byte character: bit 15 set over the byte.
pub open spec fn byte_code_spec(b: u8) -> u16 {
    (0x8000 + b) as u16
}

fn byte_to_special_code(b: u8) -> (r: u16)
    ensures
        r == byte_code_spec(b),
{
    assert((0x8000u16 | b as u16) == 0x8000 + b) by (bit_vector);
    if 0x30 <= b && b <= 0x39 {
        0x8000 | (b - 0x30 + 0x30) as u16
    } else if b == 0x2d {
        0x8000 | 0x2d
    } else if b == 0x2e {
        0x8000 | 0x2e
    } else {
        0x8000 | b as u16
    }
}

/// Dictionary code of a two-byte KPS 9566 character: a syllable by its standard jamo, a
/// full-width digit, hyphen or period as the special code of its ASCII form, any other symbol
/// as a special code over its low 12 bits.
pub open spec fn two_byte_code_spec(t: KpsTables, kps: u16) -> u16 {
    match kps_jamo_spec(t, kps) {
        Some((init, med, fin)) => {
            let init_std = (INIT_KP_TO_STD[init - 1] + 1) as u16;
            let med_std = (MED_KP_TO_STD[med - 1] + 1) as u16;
            ((init_std << 10) | (med_std << 5) | (fin as u16)) as u16
        },
        None => if 0xA3B0 <= kps <= 0xA3B9 {
            (0x8000 + (kps - 0xA3B0 + 0x30)) as u16
        } else if kps == 0xA1AF {
            0x802d
        } else if kps == 0xA1A4 || kps == 0xA1A5 {
            0x802e
        } else {
            (0x8000 + kps % 0x1000) as u16
        },
    }
}

/// Codes of KPS 9566 bytes from index `i` on; `None` when a two-byte character is cut off.
pub open spec fn kps_codes_from(t: KpsTables, b: Seq<u8>, i: int) -> Option<Seq<u16>>
    decreases b.len() - i,
{
    if i < 0 || i >= b.len() {
        Some(Seq::empty())
    } else if b[i] < 0x80 {
        prepend(byte_code_spec(b[i]), kps_codes_from(t, b, i + 1))
    } else if i + 1 >= b.len() {
        None
    } else {
        prepend(two_byte_code_spec(t, (b[i] * 256 + b[i + 1]) as u16), kps_codes_from(t, b, i + 2))
    }
}

proof fn lemma_row_of_below(rs: Seq<u16>, kps: u16, from: int)
    requires
        0 <= from <= 19,
    ensures
        forall|i: int| from <= i < row_of(rs, kps, from) ==> kps >= rs[i],
    decreases 19 - from,
{
    if from < 19 && !(kps < rs[from]) {
        lemma_row_of_below(rs, kps, from + 1);
    }
}

/// A syllable found in the block lies in a column of index at least 1.
proof fn lemma_jamo_ranges(t: KpsTables, kps: u16)
    requires
        t.layout_wf(),
    ensures
        kps_jamo_spec(t, kps) matches Some((i, m, f)) ==> 1 <= i <= 19 && 1 <= m <= 20,
{
    let rs = t.row_starts@;
    let cs = t.col_starts@;
    lemma_row_of_range(rs, kps, 0);
    let row = row_of(rs, kps, 0);
    if row >= 1 {
        lemma_row_of_below(rs, kps, 0);
        assert(kps >= rs[row - 1]);
        assert(cs[row * 21 + 1] == 0xffff || cs[row * 21 + 1] <= rs[row - 1]);
        assert(col_of(cs, kps, row, 0) == col_of(cs, kps, row, 1));
        lemma_col_of_range(cs, kps, row, 1);
    }
}

fn two_byte_code(t: &KpsTables, kps: u16) -> (r: u16)
    requires
        t.wf(),
    ensures
        r == two_byte_code_spec(*t, kps),
{
    proof {
        lemma_jamo_ranges(*t, kps);
    }
    match kps_to_jamo_kp(t, kps) {
        Some((init, med, fin)) => {
            let init_std = (INIT_KP_TO_STD[(init - 1) as usize] + 1) as u16;
            let med_std = (MED_KP_TO_STD[(med - 1) as usize] + 1) as u16;
            let r = (init_std << 10) | (med_std << 5) | fin as u16;
            assert(init_std == (INIT_KP_TO_STD[init - 1] + 1) as u16);
            assert(med_std == (MED_KP_TO_STD[med - 1] + 1) as u16);
            assert(r == two_byte_code_spec(*t, kps));
            r
        },
        None => {
            if 0xA3B0 <= kps && kps <= 0xA3B9 {
                let d = kps - 0xA3B0 + 0x30;
                assert(0x8000 | d == 0x8000 + d) by (bit_vector)
                    requires
                        d < 0x40,
                ;
                0x8000 | d
            } else if kps == 0xA1AF {
                0x802d
            } else if kps == 0xA1A4 || kps == 0xA1A5 {
                0x802e
            } else {
                let v = 0x8000 | (kps & 0xfff);
                assert(v == 0x8000 + kps % 0x1000) by (bit_vector)
                    requires
                        v == 0x8000 | (kps & 0xfff),
                ;
                v
            }
        },
    }
}

/// Dictionary codes of a word in KPS 9566 bytes: an ASCII byte gives the special code over
/// it, a two-byte character its syllable or symbol code; `None` when the last character is
/// cut off.
pub fn kps_bytes_to_codes(t: &KpsTables, bytes: &[u8]) -> (r: Option<Vec<u16>>)
    requires
        t.wf(),
    ensures
        match r {
            Some(v) => kps_codes_from(*t, bytes@, 0) == Some(v@),
            None => kps_codes_from(*t, bytes@, 0) is None,
        },
{
    let n = bytes.len();
    let mut out: Vec<u16> = Vec::new();
    let mut i: usize = 0;
    while i < n
        invariant
            n == bytes@.len(),
            i <= n,
            t.wf(),
            kps_codes_from(*t, bytes@, 0) == append_opt(out@, kps_codes_from(*t, bytes@, i as int)),
        decreases n - i,
    {
        let ghost before = out@;
        let b0 = bytes[i];
        if b0 < 0x80 {
            out.push(byte_to_special_code(b0));
            i = i + 1;
        } else {
            if i + 1 >= n {
                return None;
            }
            let kps: u16 = (b0 as u16) * 256 + bytes[i + 1] as u16;
            out.push(two_byte_code(t, kps));
            i = i + 2;
        }
        proof {
            let rest = kps_codes_from(*t, bytes@, i as int);
            if let Some(r) = rest {
                assert(before + (seq![out@.last()] + r) =~= out@ + r);
            }
        }
    }
    proof {
        if let Some(r) = kps_codes_from(*t, bytes@, i as int) {
            assert(out@ + r =~= out@);
        }
    }
    Some(out)
}

/// KPS 9566 bytes of dictionary codes from index `i` on; `None` at a code that is neither
/// special nor a syllable with an existing column.
pub open spec fn kps_bytes_from(t: KpsTables, c: Seq<u16>, i: int) -> Option<Seq<u8>>
    decreases c.len() - i,
{
    if i < 0 || i >= c.len() {
        Some(Seq::empty())
    } else {
        let code = c[i];
        let rest = kps_bytes_from(t, c, i + 1);
        if code >= 0x8000 {
            prepend_bytes(seq![special_byte_spec(code)], rest)
        } else {
            let init = (code / 1024) as u8;
            let med = ((code / 32) % 32) as u8;
            let fin = (code % 32) as u8;
            if init == 0 || med == 0 || init > 19 || med > 21 {
                None
            } else {
                match jamo_kps_spec(t, init, med, fin) {
                    Some(k) => prepend_bytes(seq![(k / 256) as u8, (k % 256) as u8], rest),
                    None => None,
                }
            }
        }
    }
}

/// `Some(p + r)` for `Some(r)`.
pub open spec fn prepend_bytes(p: Seq<u8>, rest: Option<Seq<u8>>) -> Option<Seq<u8>> {
    match rest {
        Some(r) => Some(p + r),
        None => None,
    }
}

/// KPS 9566 bytes of dictionary codes: a special code gives one byte, a syllable code the two
/// bytes of its KPS 9566 syllable; `None` at a code that is no valid syllable or whose
/// column is empty.
pub fn codes_to_kps_bytes(t: &KpsTables, codes: &[u16]) -> (r: Option<Vec<u8>>)
    requires
        t.wf(),
    ensures
        match r {
            Some(v) => kps_bytes_from(*t, codes@, 0) == Some(v@),
            None => kps_bytes_from(*t, codes@, 0) is None,
        },
{
    let n = codes.len();
    let mut out: Vec<u8> = Vec::new();
    let mut i: usize = 0;
    while i < n
        invariant
            n == codes@.len(),
            i <= n,
            t.wf(),
            kps_bytes_from(*t, codes@, 0) == prepend_bytes(out@, kps_bytes_from(*t, codes@, i as int)),
        decreases n - i,
    {
        let ghost before = out@;
        let c = codes[i];
        if c & 0x8000 != 0 {
            assert((c & 0x8000 != 0) == (c >= 0x8000)) by (bit_vector);
            out.push(special_code_to_byte(c));
        } else {
            assert((c & 0x8000 != 0) == (c >= 0x8000)) by (bit_vector);
            let init = ((c >> 10) & 0x1f) as u8;
            let med = ((c >> 5) & 0x1f) as u8;
            let fin = (c & 0x1f) as u8;
            assert(((c >> 10) & 0x1f) == c / 1024 && ((c >> 5) & 0x1f) == (c / 32) % 32 && (c & 0x1f) == c % 32)
                by (bit_vector)
                requires
                    c < 0x8000,
            ;
            if init == 0 || med == 0 || init > 19 || med > 21 {
                return None;
            }
            let k = match jamo_to_kps_syllable(t, init, med, fin) {
                Some(k) => k,
                None => return None,
            };
            assert((k >> 8) == k / 256 && (k & 0xff) == k % 256) by (bit_vector);
            out.push((k >> 8) as u8);
            out.push((k & 0xff) as u8);
        }
        i = i + 1;
        proof {
            let rest = kps_bytes_from(*t, codes@, i as int);
            if let Some(r) = rest {
                assert(before + (out@.subrange(before.len() as int, out@.len() as int) + r) =~= out@ + r);
            }
        }
    }
    proof {
        if let Some(r) = kps_bytes_from(*t, codes@, i as int) {
            assert(out@ + r =~= out@);
        }
    }
    Some(out)
}

/// Whether a syllable code converts to a phoneme code: a special or vowel-less code, or one
/// whose onset and vowel indices are in range.
pub open spec fn phoneme_code_ok(s: u16) -> bool {
    let init = (s / 1024) % 32;
    let med = (s / 32) % 32;
    init == 0 || med == 0 || (init <= 19 && med <= 21)
}

/// Position of the `n`-th (1-based) set bit of `mask` at or after `bit`, having counted `cnt`
/// set bits below it; 0 when there is none.
pub open spec fn nth_set_bit(mask: u32, n: int, bit: int, cnt: int) -> u16
    decreases 32 - bit,
{
    if bit < 0 || bit >= 32 {
        0
    } else if (mask >> (bit as u32)) & 1 != 0 {
        if cnt + 1 == n {
            bit as u16
        } else {
            nth_set_bit(mask, n, bit + 1, cnt + 1)
        }
    } else {
        nth_set_bit(mask, n, bit + 1, cnt)
    }
}

/// Phonetic class of final number `fin` (1-based) of the column of KPS onset `init_kp` and
/// vowel `med_kp`: the position of that column mask's `fin`-th set bit.
pub open spec fn final_class_spec(t: KpsTables, init_kp: int, med_kp: int, fin: int) -> u16 {
    nth_set_bit(t.col_masks@[med_kp + init_kp * 21], fin, 0, 0)
}

fn final_class_from_mask(t: &KpsTables, init_kp: usize, med_kp: usize, fin_kp: usize) -> (r: u16)
    requires
        t.wf(),
        init_kp < 19,
        med_kp < 21,
    ensures
        r == final_class_spec(*t, init_kp as int, med_kp as int, fin_kp as int),
{
    let mask = t.col_masks[med_kp + init_kp * 21];
    let mut cnt: u32 = 0;
    let mut bit: u32 = 0;
    while bit < 32
        invariant
            bit <= 32,
            cnt <= bit,
            mask == t.col_masks@[med_kp + init_kp * 21],
            nth_set_bit(mask, fin_kp as int, 0, 0) == nth_set_bit(mask, fin_kp as int, bit as int, cnt as int),
        decreases 32 - bit,
    {
        let ghost c0 = cnt as int;
        assert(((bit as int) as u32) == bit);
        if (mask >> bit) & 1 != 0 {
            cnt = cnt + 1;
            if cnt as usize == fin_kp {
                return bit as u16;
            }
        }
        bit = bit + 1;
    }
    0
}

/// Phoneme code of a syllable code: KPS-order `class << 10 | vowel << 5 | onset`, where the
/// class is that of the final (27 for none); special and vowel-less codes stay as they are.
pub open spec fn phoneme_spec(t: KpsTables, s: u16) -> u16 {
    let init = (s / 1024) % 32;
    let med = (s / 32) % 32;
    let fin = s % 32;
    if init == 0 || med == 0 {
        s
    } else {
        let init_kp = INIT_STD_TO_KP[init - 1];
        let med_kp = MED_STD_TO_KP[med - 1];
        let class: u16 = if fin == 0 {
            27
        } else {
            final_class_spec(t, init_kp as int, med_kp as int, fin as int)
        };
        (class * 1024 + med_kp * 32 + init_kp) as u16
    }
}

/// Phoneme code of a syllable code (see [`phoneme_spec`]).
pub fn to_phoneme_code(t: &KpsTables, syllable: u16) -> (r: u16)
    requires
        t.wf(),
        phoneme_code_ok(syllable),
    ensures
        r == phoneme_spec(*t, syllable),
{
    let init_std = ((syllable >> 10) & 0x1f) as usize;
    let med_std = ((syllable >> 5) & 0x1f) as usize;
    let fin_kp = (syllable & 0x1f) as usize;
    assert(((syllable >> 10) & 0x1f) == (syllable / 1024) % 32 && ((syllable >> 5) & 0x1f) == (syllable / 32) % 32
        && (syllable & 0x1f) == syllable % 32) by (bit_vector);
    if init_std == 0 || med_std == 0 {
        return syllable;
    }
    let init_kp = INIT_STD_TO_KP[init_std - 1] as usize;
    let med_kp = MED_STD_TO_KP[med_std - 1] as usize;
    let class: u16 = if fin_kp == 0 {
        27
    } else {
        final_class_from_mask(t, init_kp, med_kp, fin_kp)
    };
    let c = class as u32;
    let r32 = (c << 10) | ((med_kp as u32) << 5) | (init_kp as u32);
    assert(r32 == c * 1024 + (med_kp as u32) * 32 + (init_kp as u32) && c * 1024 + (med_kp as u32) * 32 + (init_kp as u32) < 0x1000_0000) by (bit_vector)
        requires
            c < 0x10000,
            med_kp < 32,
            init_kp < 32,
            r32 == (c << 10) | ((med_kp as u32) << 5) | (init_kp as u32),
    ;
    let r = ((class as u32) * 1024 + (med_kp as u32) * 32 + (init_kp as u32)) as u16;
    r
}

/// Syllable code of a KPS 9566 syllable found in the block, with the final offset kept or
/// dropped.
pub open spec fn jamo_syllable_code(j: (u8, u8, u8), keep_final: bool) -> u16 {
    let init_std = (INIT_KP_TO_STD[j.0 - 1] + 1) as u16;
    let med_std = (MED_KP_TO_STD[j.1 - 1] + 1) as u16;
    if keep_final {
        ((init_std << 10) | (med_std << 5) | (j.2 as u16)) as u16
    } else {
        ((init_std << 10) | (med_std << 5)) as u16
    }
}

/// Whether a KPS 9566 code converts to a phoneme code (see [`kps_code_to_phoneme`]).
pub open spec fn kps_phoneme_ok(t: KpsTables, kps: u16) -> bool {
    match kps_jamo_spec(t, kps) {
        Some(j) => phoneme_code_ok(jamo_syllable_code(j, true)),
        None => true,
    }
}

/// Whether a KPS 9566 code converts to a phoneme code (see [`kps_phoneme_ok`]).
fn phoneme_ok_check(t: &KpsTables, kps: u16) -> (r: bool)
    requires
        t.layout_wf(),
    ensures
        r == kps_phoneme_ok(*t, kps),
{
    proof {
        lemma_jamo_ranges(*t, kps);
    }
    match kps_to_jamo_kp(t, kps) {
        None => true,
        Some((i, m, f)) => {
            let init_std = (INIT_KP_TO_STD[(i - 1) as usize] + 1) as u16;
            let med_std = (MED_KP_TO_STD[(m - 1) as usize] + 1) as u16;
            let s: u16 = (init_std << 10) | (med_std << 5) | (f as u16);
            let init = (s / 1024) % 32;
            let med = (s / 32) % 32;
            init == 0 || med == 0 || (init <= 19 && med <= 21)
        },
    }
}

impl KpsTables {
    /// Whether the tables are well formed (see [`KpsTables::wf`]).
    pub fn is_wf(&self) -> (r: bool)
        ensures
            r == self.wf(),
    {
        if !(self.row_starts.len() == 19 && self.col_starts.len() >= 421 && self.col_masks.len() >= 399
            && self.sino_digits.len() == 10 && self.sino_units.len() >= 6) {
            return false;
        }
        let mut r: usize = 1;
        while r <= 19
            invariant
                1 <= r <= 20,
                self.row_starts@.len() == 19,
                self.col_starts@.len() >= 421,
                forall|q: int| 1 <= q < r ==> (#[trigger] self.col_starts@[q * 21 + 1] == 0xffff
                    || self.col_starts@[q * 21 + 1] <= self.row_starts@[q - 1]),
            decreases 20 - r,
        {
            let c = self.col_starts[r * 21 + 1];
            if !(c == 0xffff || c <= self.row_starts[r - 1]) {
                return false;
            }
            r = r + 1;
        }
        let mut e: usize = 0;
        while e < self.col_starts.len()
            invariant
                e <= self.col_starts@.len(),
                forall|q: int| 0 <= q < e ==> (#[trigger] self.col_starts@[q] == 0xffff
                    || self.col_starts@[q] + 31 + 0xa2 <= 0xffff),
            decreases self.col_starts@.len() - e,
        {
            let c = self.col_starts[e];
            if !(c == 0xffff || c as u32 + 31 + 0xa2 <= 0xffff) {
                return false;
            }
            e = e + 1;
        }
        assert(self.layout_wf());
        let mut k: usize = 0;
        while k < self.sino_digits.len()
            invariant
                self.layout_wf(),
                k <= self.sino_digits@.len(),
                forall|q: int| 0 <= q < k ==> kps_phoneme_ok(*self, #[trigger] self.sino_digits@[q]),
            decreases self.sino_digits@.len() - k,
        {
            if !phoneme_ok_check(self, self.sino_digits[k]) {
                return false;
            }
            k = k + 1;
        }
        let mut k: usize = 0;
        while k < self.sino_units.len()
            invariant
                self.layout_wf(),
                k <= self.sino_units@.len(),
                forall|q: int| 0 <= q < self.sino_digits@.len() ==> kps_phoneme_ok(*self, #[trigger] self.sino_digits@[q]),
                forall|q: int| 0 <= q < k ==> kps_phoneme_ok(*self, #[trigger] self.sino_units@[q]),
            decreases self.sino_units@.len() - k,
        {
            if !phoneme_ok_check(self, self.sino_units[k]) {
                return false;
            }
            k = k + 1;
        }
        phoneme_ok_check(self, POINT_SYLLABLE)
    }
}

/// Phoneme code of a KPS 9566 code (0 outside the syllable block).
pub open spec fn kps_phoneme_spec(t: KpsTables, kps: u16) -> u16 {
    match kps_jamo_spec(t, kps) {
        Some(j) => phoneme_spec(t, jamo_syllable_code(j, true)),
        None => 0,
    }
}

/// Phoneme code of a KPS 9566 syllable code; 0 when the code is no syllable.
pub fn kps_code_to_phoneme(t: &KpsTables, kps: u16) -> (r: u16)
    requires
        t.wf(),
        kps_phoneme_ok(*t, kps),
    ensures
        r == kps_phoneme_spec(*t, kps),
{
    proof {
        lemma_jamo_ranges(*t, kps);
    }
    let (init1, med1, fin) = match kps_to_jamo_kp(t, kps) {
        Some(j) => j,
        None => return 0,
    };
    let init_std = INIT_KP_TO_STD[(init1 - 1) as usize] + 1;
    let med_std = MED_KP_TO_STD[(med1 - 1) as usize] + 1;
    to_phoneme_code(t, ((init_std as u16) << 10) | ((med_std as u16) << 5) | (fin as u16))
}

/// Phonetic class of the final of a KPS 9566 code (27 for none or outside the block).
pub open spec fn kps_final_class_spec(t: KpsTables, kps: u16) -> u8 {
    match kps_jamo_spec(t, kps) {
        Some((i, m, f)) => if f == 0 {
            27
        } else {
            final_class_spec(t, i - 1, m - 1, f as int) as u8
        },
        None => 27,
    }
}

/// Phonetic class of the final of a KPS 9566 code: 27 for an open syllable or a code outside
/// the syllable block.
pub fn kps_final_class(t: &KpsTables, kps: u16) -> (r: u8)
    requires
        t.wf(),
    ensures
        r == kps_final_class_spec(*t, kps),
{
    proof {
        lemma_jamo_ranges(*t, kps);
    }
    let (init1, med1, fin) = match kps_to_jamo_kp(t, kps) {
        Some(j) => j,
        None => return 27,
    };
    if fin == 0 {
        27
    } else {
        final_class_from_mask(t, (init1 - 1) as usize, (med1 - 1) as usize, fin as usize) as u8
    }
}

/// Phoneme code of a KPS 9566 code read without its final (0 outside the block).
pub open spec fn kps_phoneme_no_final_spec(t: KpsTables, kps: u16) -> u16 {
    match kps_jamo_spec(t, kps) {
        Some(j) => phoneme_spec(t, jamo_syllable_code(j, false)),
        None => 0,
    }
}

proof fn lemma_open_code_ok(init_std: u16, med_std: u16)
    requires
        1 <= init_std <= 19,
        1 <= med_std <= 21,
    ensures
        phoneme_code_ok(((init_std << 10) | (med_std << 5)) as u16),
        (((init_std << 10) | (med_std << 5)) as u16) % 32 == 0,
{
    let s = ((init_std << 10) | (med_std << 5)) as u16;
    assert((s / 1024) % 32 == init_std && (s / 32) % 32 == med_std && s % 32 == 0) by (bit_vector)
        requires
            1 <= init_std <= 19,
            1 <= med_std <= 21,
            s == ((init_std << 10) | (med_std << 5)) as u16,
    ;
}

/// Phoneme code of a KPS 9566 syllable read without its final (numbers drop the final of
/// 백 and the like); 0 outside the syllable block.
fn kps_code_to_phoneme_no_final(t: &KpsTables, kps: u16) -> (r: u16)
    requires
        t.wf(),
    ensures
        r == kps_phoneme_no_final_spec(*t, kps),
{
    proof {
        lemma_jamo_ranges(*t, kps);
    }
    let (init1, med1, _fin) = match kps_to_jamo_kp(t, kps) {
        Some(j) => j,
        None => return 0,
    };
    let init_std = INIT_KP_TO_STD[(init1 - 1) as usize] + 1;
    let med_std = MED_KP_TO_STD[(med1 - 1) as usize] + 1;
    proof {
        lemma_open_code_ok(init_std as u16, med_std as u16);
    }
    to_phoneme_code(t, ((init_std as u16) << 10) | ((med_std as u16) << 5))
}

/// Phoneme code of a decimal digit read alone: 령 for 0, the fixed code of 일 for 2, else the
/// digit syllable.
pub open spec fn decimal_digit_spec(t: KpsTables, d: u8) -> u16 {
    if d == 0 {
        0x4863
    } else if d == 2 {
        0x1532
    } else {
        kps_phoneme_spec(t, t.sino_digits@[d as int])
    }
}

fn decimal_digit_code(t: &KpsTables, d: u8) -> (r: u16)
    requires
        t.wf(),
        d <= 9,
    ensures
        r == decimal_digit_spec(*t, d),
{
    if d == 0 {
        0x4863
    } else if d == 2 {
        0x1532
    } else {
        kps_code_to_phoneme(t, t.sino_digits[d as usize])
    }
}

/// Phoneme codes of a decimal number read digit by digit, with 쩜 for the point.
pub open spec fn decimal_spec(t: KpsTables, int_digits: Seq<u8>, frac_digits: Seq<u8>) -> Seq<u16> {
    int_digits.map_values(|d: u8| decimal_digit_spec(t, d)) + seq![kps_phoneme_spec(t, POINT_SYLLABLE)]
        + frac_digits.map_values(|d: u8| decimal_digit_spec(t, d))
}

/// Phoneme codes of a decimal number `int.frac`: each digit on its own, 쩜 between.
pub fn decimal_codes(t: &KpsTables, int_digits: &[u8], frac_digits: &[u8]) -> (r: Vec<u16>)
    requires
        t.wf(),
        forall|i: int| 0 <= i < int_digits@.len() ==> #[trigger] int_digits@[i] <= 9,
        forall|i: int| 0 <= i < frac_digits@.len() ==> #[trigger] frac_digits@[i] <= 9,
    ensures
        r@ == decimal_spec(*t, int_digits@, frac_digits@),
{
    let mut out: Vec<u16> = Vec::new();
    let mut i: usize = 0;
    while i < int_digits.len()
        invariant
            t.wf(),
            i <= int_digits@.len(),
            forall|k: int| 0 <= k < int_digits@.len() ==> #[trigger] int_digits@[k] <= 9,
            out@ =~= int_digits@.subrange(0, i as int).map_values(|d: u8| decimal_digit_spec(*t, d)),
        decreases int_digits@.len() - i,
    {
        out.push(decimal_digit_code(t, int_digits[i]));
        i = i + 1;
    }
    assert(int_digits@.subrange(0, int_digits@.len() as int) =~= int_digits@);
    out.push(kps_code_to_phoneme(t, POINT_SYLLABLE));
    let ghost head = out@;
    let mut j: usize = 0;
    while j < frac_digits.len()
        invariant
            t.wf(),
            j <= frac_digits@.len(),
            forall|k: int| 0 <= k < frac_digits@.len() ==> #[trigger] frac_digits@[k] <= 9,
            out@ =~= head + frac_digits@.subrange(0, j as int).map_values(|d: u8| decimal_digit_spec(*t, d)),
        decreases frac_digits@.len() - j,
    {
        out.push(decimal_digit_code(t, frac_digits[j]));
        j = j + 1;
    }
    assert(frac_digits@.subrange(0, frac_digits@.len() as int) =~= frac_digits@);
    out
}

/// Syllables read for digit `i` of a whole number: nothing for 0; within a group of four,
/// the digit (left out for a 1 before a unit) and 십/백/천; at the start of a group past the
/// first, the digit (left out for 1) and 만/억/조.
pub open spec fn sino_piece(t: KpsTables, ds: Seq<u8>, i: int) -> Seq<u16> {
    let d = ds[i];
    let pos = ds.len() - 1 - i;
    let in_group = pos % 4;
    let group = pos / 4;
    let dig = t.sino_digits@[d as int];
    if d == 0 {
        Seq::empty()
    } else if in_group == 0 {
        if group == 0 {
            seq![dig]
        } else if d == 1 {
            seq![t.sino_units@[3 + group - 1]]
        } else {
            seq![dig, t.sino_units@[3 + group - 1]]
        }
    } else {
        let unit = t.sino_units@[in_group - 1];
        if d == 1 {
            seq![unit]
        } else {
            seq![dig, unit]
        }
    }
}

/// Syllables read for the digits from `i` on.
pub open spec fn sino_from(t: KpsTables, ds: Seq<u8>, i: int) -> Seq<u16>
    decreases ds.len() - i,
{
    if i < 0 || i >= ds.len() {
        Seq::empty()
    } else {
        sino_piece(t, ds, i) + sino_from(t, ds, i + 1)
    }
}

/// Syllables of a whole number read the Sino-Korean way (령 alone when every digit is 0).
pub open spec fn sino_syllables_spec(t: KpsTables, ds: Seq<u8>) -> Seq<u16> {
    let s = sino_from(t, ds, 0);
    if s.len() == 0 {
        seq![t.sino_digits@[0]]
    } else {
        s
    }
}

/// Whether every digit is a decimal digit and the table has the group units the number
/// needs.
pub open spec fn sino_digits_ok(t: KpsTables, ds: Seq<u8>) -> bool {
    forall|i: int| 0 <= i < ds.len() ==> {
        let pos = ds.len() - 1 - i;
        &&& #[trigger] ds[i] <= 9
        &&& (ds[i] != 0 && pos % 4 == 0 && pos / 4 >= 1 ==> 2 + pos / 4 < t.sino_units@.len())
    }
}

/// KPS 9566 syllables of a whole number read the Sino-Korean way: zero digits are silent, a
/// 1 before 십/백/천/만/억/조 is not read, and the digits go in groups of four.
pub fn sino_integer_kps_syllables(t: &KpsTables, digits: &[u8]) -> (r: Vec<u16>)
    requires
        t.wf(),
        sino_digits_ok(*t, digits@),
    ensures
        r@ == sino_syllables_spec(*t, digits@),
{
    let n = digits.len();
    let mut out: Vec<u16> = Vec::new();
    let mut i: usize = 0;
    while i < n
        invariant
            n == digits@.len(),
            i <= n,
            t.wf(),
            sino_digits_ok(*t, digits@),
            sino_from(*t, digits@, 0) == out@ + sino_from(*t, digits@, i as int),
        decreases n - i,
    {
        let ghost before = out@;
        let d = digits[i];
        assert(digits@[i as int] <= 9);
        let pos = n - 1 - i;
        let in_group = pos % 4;
        let group = pos / 4;
        if d != 0 {
            if in_group == 0 {
                if group == 0 {
                    out.push(t.sino_digits[d as usize]);
                } else if d == 1 {
                    out.push(t.sino_units[3 + group - 1]);
                } else {
                    out.push(t.sino_digits[d as usize]);
                    out.push(t.sino_units[3 + group - 1]);
                }
            } else {
                let unit = t.sino_units[in_group - 1];
                if d == 1 {
                    out.push(unit);
                } else {
                    out.push(t.sino_digits[d as usize]);
                    out.push(unit);
                }
            }
        }
        assert(out@ =~= before + sino_piece(*t, digits@, i as int));
        i = i + 1;
        assert(before + sino_piece(*t, digits@, (i - 1) as int) + sino_from(*t, digits@, i as int) =~= out@ + sino_from(*t, digits@, i as int));
    }
    assert(out@ + Seq::<u16>::empty() =~= out@);
    if out.len() == 0 {
        out.push(t.sino_digits[0]);
        assert(out@ =~= seq![t.sino_digits@[0]]);
    }
    out
}

proof fn lemma_sino_from_members(t: KpsTables, ds: Seq<u8>, i: int)
    requires
        t.wf(),
        sino_digits_ok(t, ds),
        0 <= i <= ds.len(),
    ensures
        forall|j: int| 0 <= j < sino_from(t, ds, i).len() ==> kps_phoneme_ok(t, #[trigger] sino_from(t, ds, i)[j]),
    decreases ds.len() - i,
{
    if i < ds.len() {
        lemma_sino_from_members(t, ds, i + 1);
        let p = sino_piece(t, ds, i);
        let rest = sino_from(t, ds, i + 1);
        assert(ds[i] <= 9);
        assert forall|j: int| 0 <= j < p.len() implies kps_phoneme_ok(t, #[trigger] p[j]) by {
            assert(kps_phoneme_ok(t, t.sino_digits@[ds[i] as int]));
            let pos = ds.len() - 1 - i;
            if pos % 4 == 0 && pos / 4 >= 1 {
                assert(kps_phoneme_ok(t, t.sino_units@[3 + pos / 4 - 1]));
            } else if pos % 4 != 0 {
                assert(kps_phoneme_ok(t, t.sino_units@[pos % 4 - 1]));
            }
        }
        assert forall|j: int| 0 <= j < sino_from(t, ds, i).len() implies kps_phoneme_ok(t, #[trigger] sino_from(t, ds, i)[j]) by {
            if j < p.len() {
                assert(sino_from(t, ds, i)[j] == p[j]);
            } else {
                assert(sino_from(t, ds, i)[j] == rest[j - p.len()]);
            }
        }
    }
}

/// Phoneme codes of a whole number read the Sino-Korean way.
pub fn sino_integer_codes(t: &KpsTables, digits: &[u8]) -> (r: Vec<u16>)
    requires
        t.wf(),
        sino_digits_ok(*t, digits@),
    ensures
        r@ == sino_syllables_spec(*t, digits@).map_values(|k: u16| kps_phoneme_spec(*t, k)),
{
    let readings = sino_integer_kps_syllables(t, digits);
    proof {
        lemma_sino_from_members(*t, digits@, 0);
        assert(kps_phoneme_ok(*t, t.sino_digits@[0]));
    }
    let mut out: Vec<u16> = Vec::new();
    let mut i: usize = 0;
    while i < readings.len()
        invariant
            t.wf(),
            i <= readings@.len(),
            forall|j: int| 0 <= j < readings@.len() ==> kps_phoneme_ok(*t, #[trigger] readings@[j]),
            out@ =~= readings@.subrange(0, i as int).map_values(|k: u16| kps_phoneme_spec(*t, k)),
        decreases readings@.len() - i,
    {
        out.push(kps_code_to_phoneme(t, readings[i]));
        i = i + 1;
    }
    assert(readings@.subrange(0, readings@.len() as int) =~= readings@);
    out
}

/// Phoneme codes of syllable codes, one each.
pub fn phoneme_codes_from_syllables(t: &KpsTables, codes: &[u16]) -> (r: Vec<u16>)
    requires
        t.wf(),
        forall|i: int| 0 <= i < codes@.len() ==> phoneme_code_ok(#[trigger] codes@[i]),
    ensures
        r@ == codes@.map_values(|c: u16| phoneme_spec(*t, c)),
{
    let mut out: Vec<u16> = Vec::new();
    let mut i: usize = 0;
    while i < codes.len()
        invariant
            t.wf(),
            i <= codes@.len(),
            forall|j: int| 0 <= j < codes@.len() ==> phoneme_code_ok(#[trigger] codes@[j]),
            out@ =~= codes@.subrange(0, i as int).map_values(|c: u16| phoneme_spec(*t, c)),
        decreases codes@.len() - i,
    {
        out.push(to_phoneme_code(t, codes[i]));
        i = i + 1;
    }
    assert(codes@.subrange(0, codes@.len() as int) =~= codes@);
    out
}

/// The KPS and standard onset and vowel orders are inverse permutations.
proof fn lemma_jamo_orders()
    ensures
        forall|i: int| 0 <= i < 19 ==> INIT_KP_TO_STD[i] < 19 && INIT_STD_TO_KP[INIT_KP_TO_STD[i] as int] == i,
        forall|i: int| 0 <= i < 20 ==> MED_KP_TO_STD[i] < 21 && MED_STD_TO_KP[MED_KP_TO_STD[i] as int] == i,
{
    assert(INIT_KP_TO_STD@ =~= seq![0u8, 2, 3, 5, 6, 7, 9, 12, 14, 15, 16, 17, 18, 1, 4, 8, 10, 13, 11]);
    assert(INIT_STD_TO_KP@ =~= seq![0u8, 13, 1, 2, 14, 3, 4, 5, 15, 6, 16, 18, 7, 17, 8, 9, 10, 11, 12]);
    assert(MED_KP_TO_STD@ =~= seq![0u8, 2, 4, 6, 8, 12, 13, 17, 18, 20, 1, 3, 5, 7, 9, 10, 11, 14, 15, 16, 19]);
    assert(MED_STD_TO_KP@ =~= seq![0u8, 10, 1, 11, 2, 12, 3, 13, 4, 14, 15, 16, 5, 6, 17, 18, 19, 7, 8, 20, 9]);
}

/// Offset of a syllable from the start of its column, across the page gap (trail bytes run
/// from 0xA1 to 0xFE).
pub open spec fn syllable_offset(kps: u16, start: u16) -> int {
    kps - start - (if kps % 256 < start % 256 {
        0xa2int
    } else {
        0int
    })
}

/// A KPS 9566 syllable on a valid trail byte, in a column that starts on a valid trail byte
/// and at an offset from that start that fits in a final index, converts to a dictionary
/// code and back to its own two bytes.
pub proof fn lemma_syllable_round_trip(t: KpsTables, kps: u16)
    requires
        t.layout_wf(),
        kps_jamo_spec(t, kps) matches Some((r, c, f)) && {
            let start = t.col_starts@[r * 21 + c];
            &&& 0xA1 <= kps % 256 <= 0xFE
            &&& 0xA1 <= start % 256 <= 0xFE
            &&& 0 <= syllable_offset(kps, start) < 32
        },
    ensures
        kps_bytes_from(t, seq![two_byte_code_spec(t, kps)], 0) == Some(
            seq![(kps / 256) as u8, (kps % 256) as u8],
        ),
{
    lemma_jamo_ranges(t, kps);
    lemma_jamo_orders();
    let (r, c, f) = kps_jamo_spec(t, kps)->0;
    let start = t.col_starts@[r * 21 + c];
    let off = syllable_offset(kps, start);
    let row = row_of(t.row_starts@, kps, 0);
    lemma_row_of_range(t.row_starts@, kps, 0);
    let m = col_of(t.col_starts@, kps, row, 0);
    lemma_col_of_range(t.col_starts@, kps, row, 0);
    assert(row == r as int && m == c as int);
    assert(f == fin_offset(kps, t.col_starts@[row * 21 + m]));
    assert(f == off);
    let init_std = (INIT_KP_TO_STD[r - 1] + 1) as u16;
    let med_std = (MED_KP_TO_STD[c - 1] + 1) as u16;
    assert(1 <= init_std <= 19 && 1 <= med_std <= 21);
    let fu = f as u16;
    let code = ((init_std << 10) | (med_std << 5) | fu) as u16;
    assert(code == two_byte_code_spec(t, kps));
    assert(code < 0x8000 && code / 1024 == init_std && (code / 32) % 32 == med_std && code % 32 == fu)
        by (bit_vector)
        requires
            1 <= init_std <= 19,
            1 <= med_std <= 21,
            fu < 32,
            code == ((init_std << 10) | (med_std << 5) | fu) as u16,
    ;
    assert(INIT_STD_TO_KP[init_std - 1] + 1 == r);
    assert(MED_STD_TO_KP[med_std - 1] + 1 == c);
    let h = kps / 256;
    let l = kps % 256;
    let sl = start % 256;
    if l < sl {
        assert(start + f == kps - 0xa2);
        if l == 0xA1 {
            assert((kps - 0xa2) % 256 == 0xff) by {
                assert(kps - 0xa2 == 256 * (h - 1) + 0xff);
            }
        } else {
            assert((kps - 0xa2) % 256 == l - 0xa2) by {
                assert(kps - 0xa2 == 256 * h + (l - 0xa2));
            }
        }
    } else {
        assert(start + f == kps);
    }
    assert(jamo_kps_spec(t, init_std as u8, med_std as u8, f) == Some(kps));
    assert(kps_bytes_from(t, seq![code], 1) == Some(Seq::<u8>::empty()));
    assert(seq![(kps / 256) as u8, (kps % 256) as u8] + Seq::<u8>::empty() =~= seq![(kps / 256) as u8, (kps % 256) as u8]);
}

/// Whether a KPS 9566 code is a syllable that converts back (see
/// [`lemma_syllable_round_trip`]).
pub open spec fn syllable_round_trips(t: KpsTables, kps: u16) -> bool {
    kps_jamo_spec(t, kps) matches Some((r, c, f)) && {
        let start = t.col_starts@[r * 21 + c];
        &&& 0xA1 <= kps % 256 <= 0xFE
        &&& 0xA1 <= start % 256 <= 0xFE
        &&& 0 <= syllable_offset(kps, start) < 32
    }
}

/// Whether the bytes from `i` on are ASCII bytes and two-byte syllables that convert back.
pub open spec fn round_trip_from(t: KpsTables, b: Seq<u8>, i: int) -> bool
    decreases b.len() - i,
{
    if i < 0 || i >= b.len() {
        true
    } else if b[i] < 0x80 {
        round_trip_from(t, b, i + 1)
    } else {
        i + 1 < b.len() && syllable_round_trips(t, (b[i] * 256 + b[i + 1]) as u16) && round_trip_from(t, b, i + 2)
    }
}

/// Converting codes with one more code in front shifts the positions by one.
proof fn lemma_kps_bytes_shift(t: KpsTables, x: u16, rest: Seq<u16>, j: int)
    requires
        0 <= j,
    ensures
        kps_bytes_from(t, seq![x] + rest, j + 1) == kps_bytes_from(t, rest, j),
    decreases rest.len() - j,
{
    let s = seq![x] + rest;
    if j < rest.len() {
        assert(s[j + 1] == rest[j]);
        lemma_kps_bytes_shift(t, x, rest, j + 1);
    }
}

/// Bytes of codes with one more code in front: that code's bytes, then the others'.
proof fn lemma_kps_bytes_cons(t: KpsTables, x: u16, rest: Seq<u16>)
    ensures
        kps_bytes_from(t, seq![x] + rest, 0) == match kps_bytes_from(t, seq![x], 0) {
            Some(p) => prepend_bytes(p, kps_bytes_from(t, rest, 0)),
            None => None::<Seq<u8>>,
        },
{
    lemma_kps_bytes_shift(t, x, rest, 0);
    assert((seq![x] + rest)[0] == x);
    assert(kps_bytes_from(t, seq![x], 1) == Some(Seq::<u8>::empty()));
    match kps_bytes_from(t, rest, 0) {
        Some(rb) => {
            match kps_bytes_from(t, seq![x], 0) {
                Some(p) => {
                    assert(p + Seq::<u8>::empty() =~= p);
                },
                None => {},
            }
        },
        None => {},
    }
}

/// KPS 9566 bytes made of ASCII bytes and syllables that convert back (see
/// [`lemma_syllable_round_trip`]) convert to dictionary codes and back to themselves.
pub proof fn lemma_kps_round_trip(t: KpsTables, b: Seq<u8>, i: int)
    requires
        t.layout_wf(),
        0 <= i <= b.len(),
        round_trip_from(t, b, i),
    ensures
        kps_codes_from(t, b, i) matches Some(cs) && kps_bytes_from(t, cs, 0) == Some(b.subrange(i, b.len() as int)),
    decreases b.len() - i,
{
    if i == b.len() {
        assert(b.subrange(i, b.len() as int) =~= Seq::<u8>::empty());
    } else if b[i] < 0x80 {
        lemma_kps_round_trip(t, b, i + 1);
        let cs = kps_codes_from(t, b, i + 1)->0;
        let x = byte_code_spec(b[i]);
        lemma_kps_bytes_cons(t, x, cs);
        assert(kps_bytes_from(t, seq![x], 1) == Some(Seq::<u8>::empty()));
        assert(kps_bytes_from(t, seq![x], 0) == Some(seq![b[i]]));
        assert(b.subrange(i, b.len() as int) =~= seq![b[i]] + b.subrange(i + 1, b.len() as int));
    } else {
        lemma_kps_round_trip(t, b, i + 2);
        let cs = kps_codes_from(t, b, i + 2)->0;
        let kps = (b[i] * 256 + b[i + 1]) as u16;
        let x = two_byte_code_spec(t, kps);
        lemma_syllable_round_trip(t, kps);
        lemma_kps_bytes_cons(t, x, cs);
        assert((kps / 256) as u8 == b[i] && (kps % 256) as u8 == b[i + 1]);
        assert(b.subrange(i, b.len() as int) =~= seq![b[i], b[i + 1]] + b.subrange(i + 2, b.len() as int));
    }
}

} // verus!
