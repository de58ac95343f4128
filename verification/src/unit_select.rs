//! Unit selection: for each prosody record, the voice unit whose context, pitch and tone class
//! fit best, with fallbacks, pitch smoothing, duration and pause assignment.
//!
//! The scoring tables of a voice (pitch/length filter rows, tone transition costs, phoneme
//! class flags and vowel fallback tables) are data handed in as [`SelectTables`].
use vstd::prelude::*;
use crate::connect::u32_le;
use crate::record::MARKER_SENTENCE_END;
use crate::tone::TONE_CLASS_MAP;
use crate::voice_info::{VoiceInfo, VoiceInfoEntry};

verus! {

/// Pause codes: class in {2, 14, 18, 27} with low field in {1, 4, 18}, or class 6 with low
/// field in {3, 4, 18}.
pub open spec fn sel_pause_spec(hi10: u16, low5: u16) -> bool {
    ((hi10 == 2 || hi10 == 0xe || hi10 == 0x12 || hi10 == 0x1b) && (low5 == 1 || low5 == 4 || low5
        == 0x12)) || (hi10 == 6 && (low5 == 3 || low5 == 4 || low5 == 0x12))
}

/// Whether (class, low field) marks a pause.
pub fn is_pause(hi10: u16, low5: u16) -> (r: bool)
    ensures
        r == sel_pause_spec(hi10, low5),
{
    ((hi10 == 2 || hi10 == 0xe || hi10 == 0x12 || hi10 == 0x1b) && (low5 == 1 || low5 == 4 || low5
        == 0x12)) || (hi10 == 6 && (low5 == 3 || low5 == 4 || low5 == 0x12))
}

/// Real phonemes: low field outside {1, 4, 6, 8..=14, 16, 17, 18}, and not (class 6, low 3).
pub open spec fn sel_real_spec(hi10: u16, low5: u16) -> bool {
    !(low5 == 1 || low5 == 4 || low5 == 6 || (8 <= low5 <= 0xe) || low5 == 0x10 || low5 == 0x11
        || low5 == 0x12 || (low5 == 3 && hi10 == 6))
}

/// Whether (class, low field) is a real phoneme.
pub fn is_real_phoneme(hi10: u16, low5: u16) -> (r: bool)
    ensures
        r == sel_real_spec(hi10, low5),
{
    !(low5 == 1 || low5 == 4 || low5 == 6 || (8 <= low5 && low5 <= 0xe) || low5 == 0x10 || low5
        == 0x11 || low5 == 0x12 || (low5 == 3 && hi10 == 6))
}

/// Level 2 is folded into level 3.
pub open spec fn fold_level2(c: int) -> int {
    if c / 10 == 2 {
        c % 10 + 0x1e
    } else {
        c
    }
}

/// Target class: level 2 folded into 3, tone 2 read as 3 and tone 5 as 4.
pub open spec fn target_class_spec(c: u8) -> u8 {
    let c1 = fold_level2(c as int);
    if c1 % 10 == 2 {
        ((c1 / 10) * 10 + 3) as u8
    } else if c1 % 10 == 5 {
        ((c1 / 10) * 10 + 4) as u8
    } else {
        c1 as u8
    }
}

/// Normalized class of a selection target.
pub fn normalize_target_class(c: u8) -> (r: u8)
    ensures
        r == target_class_spec(c),
{
    let mut x: u8 = c;
    if x / 10 == 2 {
        x = x % 10 + 0x1e;
    }
    if x % 10 == 2 {
        x = (x / 10) * 10 + 3;
    } else if x % 10 == 5 {
        x = (x / 10) * 10 + 4;
    }
    x
}

/// Candidate class for the filter row: level 2 folded into 3, tone 2 read as 1.
pub open spec fn candidate_a_spec(c: u8) -> u8 {
    let c1 = fold_level2(c as int);
    if c1 % 10 == 2 {
        ((c1 / 10) * 10 + 1) as u8
    } else {
        c1 as u8
    }
}

/// Normalized class of a candidate, for its filter row.
pub fn normalize_candidate_class_a(c: u8) -> (r: u8)
    ensures
        r == candidate_a_spec(c),
{
    let mut x: u8 = c;
    if x / 10 == 2 {
        x = x % 10 + 0x1e;
    }
    if x % 10 == 2 {
        x = (x / 10) * 10 + 1;
    }
    x
}

/// Candidate class for the cost column: level 2 folded into 3, tone 2 read as 3.
pub open spec fn candidate_b_spec(c: u8) -> u8 {
    let c1 = fold_level2(c as int);
    if c1 % 10 == 2 {
        ((c1 / 10) * 10 + 3) as u8
    } else {
        c1 as u8
    }
}

/// Normalized class of a candidate, for its cost column.
pub fn normalize_candidate_class_b(c: u8) -> (r: u8)
    ensures
        r == candidate_b_spec(c),
{
    let mut x: u8 = c;
    if x / 10 == 2 {
        x = x % 10 + 0x1e;
    }
    if x % 10 == 2 {
        x = (x / 10) * 10 + 3;
    }
    x
}

/// First row from `row` on whose head class is `c` (0 when none).
pub open spec fn row_from(c: u8, row: int) -> int
    decreases 16 - row,
{
    if row < 0 || row >= 16 {
        0
    } else if TONE_CLASS_MAP[row * 16] == c {
        row
    } else {
        row_from(c, row + 1)
    }
}

proof fn lemma_row_from_range(c: u8, row: int)
    ensures
        0 <= row_from(c, row) < 16,
    decreases 16 - row,
{
    if 0 <= row < 16 && TONE_CLASS_MAP[row * 16] != c {
        lemma_row_from_range(c, row + 1);
    }
}

/// Row of the tone-class map headed by `c` (row 0 when no row is).
pub fn tone_class_row(norm_class: u8) -> (r: usize)
    ensures
        r == row_from(norm_class, 0),
        r < 16,
{
    proof {
        lemma_row_from_range(norm_class, 0);
    }
    let mut row: usize = 0;
    while row < 16
        invariant
            row <= 16,
            row_from(norm_class, 0) == row_from(norm_class, row as int),
        decreases 16 - row,
    {
        if TONE_CLASS_MAP[row * 16] == norm_class {
            return row;
        }
        row = row + 1;
    }
    0
}

/// First column from `col` on in `row` holding `c` (15 when none).
pub open spec fn col_from(row: int, c: u8, col: int) -> int
    decreases 16 - col,
{
    if col < 0 || col >= 16 {
        15
    } else if TONE_CLASS_MAP[row * 16 + col] == c {
        col
    } else {
        col_from(row, c, col + 1)
    }
}

proof fn lemma_col_from_range(row: int, c: u8, col: int)
    ensures
        0 <= col_from(row, c, col) < 16,
    decreases 16 - col,
{
    if 0 <= col < 16 && TONE_CLASS_MAP[row * 16 + col] != c {
        lemma_col_from_range(row, c, col + 1);
    }
}

/// Column of `c` in a row of the tone-class map (column 15 when the row lacks it).
pub fn tone_class_col(row: usize, norm_class: u8) -> (r: usize)
    requires
        row < 16,
    ensures
        r == col_from(row as int, norm_class, 0),
        r < 16,
{
    proof {
        lemma_col_from_range(row as int, norm_class, 0);
    }
    let mut col: usize = 0;
    while col < 16
        invariant
            row < 16,
            col <= 16,
            col_from(row as int, norm_class, 0) == col_from(row as int, norm_class, col as int),
        decreases 16 - col,
    {
        if TONE_CLASS_MAP[row * 16 + col] == norm_class {
            return col;
        }
        col = col + 1;
    }
    15
}

/// Duration of a tone class: tone 1, 2, 3 or 5, and 4 pick values 0, 1, 2 and 3 when enabled.
pub open spec fn duration_spec(class: u8, values: Seq<u16>, enabled: Seq<bool>) -> u16 {
    let t = class % 10;
    let k: int = if t == 1 {
        0
    } else if t == 2 {
        1
    } else if t == 3 || t == 5 {
        2
    } else if t == 4 {
        3
    } else {
        -1
    };
    if k >= 0 && enabled[k] {
        values[k]
    } else {
        0
    }
}

/// Duration assigned to a unit of the given tone class.
pub fn duration_for(class: u8, values: &[u16; 4], enabled: &[bool; 4]) -> (r: u16)
    ensures
        r == duration_spec(class, values@, enabled@),
{
    let t = class % 10;
    if t == 1 {
        if enabled[0] {
            values[0]
        } else {
            0
        }
    } else if t == 2 {
        if enabled[1] {
            values[1]
        } else {
            0
        }
    } else if t == 3 || t == 5 {
        if enabled[2] {
            values[2]
        } else {
            0
        }
    } else if t == 4 {
        if enabled[3] {
            values[3]
        } else {
            0
        }
    } else {
        0
    }
}

/// Context code used before a sentence start and after a sentence end.
pub const BOUNDARY_CODE: u16 = 0x6EB3;

/// Selection settings.
#[derive(Clone, Copy, Debug)]
pub struct UnitSelectConfig {
    /// Pitch jump that triggers smoothing.
    pub pitch_tolerance: i32,
    /// Request pitch for level 2 and above.
    pub request_pitch_default: u16,
    /// Pause lengths of tone digits 1..=4.
    pub pause_values: [i32; 4],
    /// Which of the pause lengths apply.
    pub pause_enabled: [bool; 4],
    /// Duration values of tone digits 1..=4.
    pub duration_values: [u16; 4],
    /// Which of the durations apply.
    pub duration_enabled: [bool; 4],
    /// Largest pitch distance (exclusive) accepted for a special unit.
    pub special_dist_init: i32,
}

impl Default for UnitSelectConfig {
    fn default() -> (r: Self)
        ensures
            r.pitch_tolerance == 15,
            r.request_pitch_default == 90,
            r.pause_values@ == seq![1000i32, 3000, 5000, 20000],
            r.pause_enabled@ == seq![false, true, true, true],
            r.duration_values@ == seq![1000u16, 3000, 5000, 20000],
            r.duration_enabled@ == seq![false, true, true, true],
            r.special_dist_init == 200,
    {
        let r = UnitSelectConfig {
            pitch_tolerance: 15,
            request_pitch_default: 90,
            pause_values: [1000, 3000, 5000, 20000],
            pause_enabled: [false, true, true, true],
            duration_values: [1000, 3000, 5000, 20000],
            duration_enabled: [false, true, true, true],
            special_dist_init: 200,
        };
        assert(r.pause_values@ =~= seq![1000i32, 3000, 5000, 20000]);
        assert(r.pause_enabled@ =~= seq![false, true, true, true]);
        assert(r.duration_values@ =~= seq![1000u16, 3000, 5000, 20000]);
        assert(r.duration_enabled@ =~= seq![false, true, true, true]);
        r
    }
}

/// Per-voice scoring tables.
pub struct SelectTables {
    /// Pitch and length bounds `[min pitch, max pitch, min length, max length]` per class row.
    pub filter: Vec<[i32; 4]>,
    /// Cost of each (target row, candidate column) of the tone-class map.
    pub tone_trans_cost: Vec<i32>,
    /// First onset-class flag, by low field.
    pub flag_a: Vec<i32>,
    /// Second onset-class flag, by low field.
    pub flag_b: Vec<i32>,
    /// Third onset-class flag, by low field.
    pub flag_c: Vec<i32>,
    /// Final-class flag, by class.
    pub flag_d: Vec<i32>,
    /// Whether a vowel needs no fallback, by vowel field.
    pub fallback_allow: Vec<u8>,
    /// First fallback vowel, by vowel field.
    pub fallback_repl_lo: Vec<u8>,
    /// Second fallback vowel, by vowel field.
    pub fallback_repl_hi: Vec<u8>,
}

impl SelectTables {
    /// Every table has its fixed size.
    pub open spec fn wf(&self) -> bool {
        &&& self.filter@.len() == 16
        &&& self.tone_trans_cost@.len() == 256
        &&& self.flag_a@.len() == 32
        &&& self.flag_b@.len() == 32
        &&& self.flag_c@.len() == 32
        &&& self.flag_d@.len() == 32
        &&& self.fallback_allow@.len() == 32
        &&& self.fallback_repl_lo@.len() == 32
        &&& self.fallback_repl_hi@.len() == 32
        &&& forall|i: int|
            0 <= i < 256 ==> -1_000_000_000 <= #[trigger] self.tone_trans_cost@[i] <= 1_000_000_000
    }

    /// Whether every table has its size and the costs are in range (see [`SelectTables::wf`]).
    pub fn is_wf(&self) -> (r: bool)
        ensures
            r == self.wf(),
    {
        if !(self.filter.len() == 16 && self.tone_trans_cost.len() == 256 && self.flag_a.len() == 32
            && self.flag_b.len() == 32 && self.flag_c.len() == 32 && self.flag_d.len() == 32
            && self.fallback_allow.len() == 32 && self.fallback_repl_lo.len() == 32
            && self.fallback_repl_hi.len() == 32) {
            return false;
        }
        let mut q: usize = 0;
        while q < 256
            invariant
                q <= 256,
                self.tone_trans_cost@.len() == 256,
                forall|i: int|
                    0 <= i < q ==> -1_000_000_000 <= #[trigger] self.tone_trans_cost@[i] <= 1_000_000_000,
            decreases 256 - q,
        {
            let c = self.tone_trans_cost[q];
            if !(-1_000_000_000 <= c && c <= 1_000_000_000) {
                return false;
            }
            q = q + 1;
        }
        true
    }
}

/// Final-class flag of `hi10`; classes from 32 on read four bytes of the tone-class map.
pub open spec fn flag_d_spec(t: &SelectTables, hi10: u16) -> i32 {
    if hi10 < 32 {
        t.flag_d@[hi10 as int]
    } else {
        u32_le(TONE_CLASS_MAP@, (hi10 - 32) * 4) as i32
    }
}

fn flag_d(t: &SelectTables, hi10: u16) -> (r: i32)
    requires
        t.wf(),
        hi10 < 64,
    ensures
        r == flag_d_spec(t, hi10),
{
    let i = hi10 as usize;
    if i < 32 {
        t.flag_d[i]
    } else {
        let off = (i - 32) * 4;
        let v: u32 = (TONE_CLASS_MAP[off] as u32) + 256 * (TONE_CLASS_MAP[off + 1] as u32) + 65536 * (
        TONE_CLASS_MAP[off + 2] as u32) + 16777216 * (TONE_CLASS_MAP[off + 3] as u32);
        v as i32
    }
}

/// `base + off` when searching with the full scale, `base` otherwise.
pub open spec fn full(search: bool, base: int, off: int) -> int {
    if search {
        base + off
    } else {
        base
    }
}

/// Left-context score of a candidate (`w` is the left weight, `norm_class` the target class).
pub open spec fn score_left_spec(
    t: &SelectTables,
    target_prev: u16,
    target_cur: u16,
    entry_prev: u16,
    entry_cur: u16,
    w: u8,
    norm_class: u8,
    search: bool,
) -> int {
    let target_level = norm_class / 10;
    if w == 2 {
        let ep_hi = entry_prev >> 10;
        if (ep_hi == 0x1b || ep_hi == 0x12) && (entry_cur & 0x1f == 0x12 || entry_cur & 0x1f == 0xc)
            && target_level < 1 {
            -200
        } else if target_prev == entry_prev {
            full(search, 0x14, 0x50)
        } else if (entry_prev ^ target_prev) & 0xffe0 == 0 {
            full(search, 0x14, 0x46)
        } else if target_prev >> 10 == ep_hi {
            full(search, 0x14, 0x28)
        } else if flag_d_spec(t, ep_hi) != 0 {
            0x14
        } else {
            0
        }
    } else if w == 3 || w == 5 {
        if target_prev == entry_prev {
            full(search, 0x3c, 0x28)
        } else if (entry_prev ^ target_prev) & 0xffe0 == 0 {
            full(search, 0x3c, 0x1e)
        } else if entry_prev >> 10 == target_prev >> 10 {
            if t.fallback_repl_lo@[((target_prev & 0x3e0) >> 5) as int] == t.fallback_repl_lo@[((
            entry_prev & 0x3e0) >> 5) as int] {
                full(search, 0x3c, 0x1e)
            } else {
                0x32
            }
        } else if entry_prev >> 10 == 0x1b || entry_prev >> 10 == 0x12 {
            0x14
        } else {
            0
        }
    } else {
        let ep_hi = entry_prev >> 10;
        if (ep_hi == 0x1b || ep_hi == 0x12) && (entry_cur & 0x1f == 0x12 || entry_cur & 0x1f == 0xc)
            && target_level < 1 {
            -200
        } else if target_prev == entry_prev {
            full(search, 0x14, 0x50)
        } else if (entry_prev ^ target_prev) & 0xffe0 == 0 {
            full(search, 0x14, 0x46)
        } else if target_prev >> 10 == ep_hi {
            full(search, 0x14, 0x32)
        } else {
            let i8 = (target_cur & 0x1f) as int;
            let e8 = (entry_cur & 0x1f) as int;
            if (t.flag_a@[i8] == 0 || t.flag_a@[e8] == 0) && (t.flag_b@[i8] == 0 || t.flag_b@[e8]
                == 0) {
                if flag_d_spec(t, ep_hi) == 0 || t.flag_c@[e8] == 0 {
                    0x14
                } else {
                    0
                }
            } else {
                full(search, 0x14, 0x14)
            }
        }
    }
}

fn fullx(search: bool, base: i32, off: i32) -> (r: i32)
    requires
        -1000 <= base <= 1000,
        -1000 <= off <= 1000,
    ensures
        r == full(search, base as int, off as int),
{
    if search {
        base + off
    } else {
        base
    }
}

/// Left-context score of a candidate.
pub fn score_left(
    t: &SelectTables,
    target_prev: u16,
    target_cur: u16,
    entry_prev: u16,
    entry_cur: u16,
    w: u8,
    norm_class: u8,
    search: bool,
) -> (r: i32)
    requires
        t.wf(),
    ensures
        r == score_left_spec(t, target_prev, target_cur, entry_prev, entry_cur, w, norm_class, search),
        -200 <= r <= 100,
{
    let target_level = norm_class / 10;
    assert(entry_prev >> 10 < 64 && target_cur & 0x1f < 32 && entry_cur & 0x1f < 32 && (target_prev & 0x3e0) >> 5
        < 32 && (entry_prev & 0x3e0) >> 5 < 32) by (bit_vector);
    if w == 2 {
        let ep_hi = entry_prev >> 10;
        if (ep_hi == 0x1b || ep_hi == 0x12) && ((entry_cur & 0x1f) == 0x12 || (entry_cur & 0x1f) == 0xc)
            && target_level < 1 {
            -200
        } else if target_prev == entry_prev {
            fullx(search, 0x14, 0x50)
        } else if (entry_prev ^ target_prev) & 0xffe0 == 0 {
            fullx(search, 0x14, 0x46)
        } else if target_prev >> 10 == ep_hi {
            fullx(search, 0x14, 0x28)
        } else if flag_d(t, ep_hi) != 0 {
            0x14
        } else {
            0
        }
    } else if w == 3 || w == 5 {
        if target_prev == entry_prev {
            fullx(search, 0x3c, 0x28)
        } else if (entry_prev ^ target_prev) & 0xffe0 == 0 {
            fullx(search, 0x3c, 0x1e)
        } else if entry_prev >> 10 == target_prev >> 10 {
            if t.fallback_repl_lo[((target_prev & 0x3e0) >> 5) as usize] == t.fallback_repl_lo[((
            entry_prev & 0x3e0) >> 5) as usize] {
                fullx(search, 0x3c, 0x1e)
            } else {
                0x32
            }
        } else if entry_prev >> 10 == 0x1b || entry_prev >> 10 == 0x12 {
            0x14
        } else {
            0
        }
    } else {
        let ep_hi = entry_prev >> 10;
        if (ep_hi == 0x1b || ep_hi == 0x12) && ((entry_cur & 0x1f) == 0x12 || (entry_cur & 0x1f) == 0xc)
            && target_level < 1 {
            -200
        } else if target_prev == entry_prev {
            fullx(search, 0x14, 0x50)
        } else if (entry_prev ^ target_prev) & 0xffe0 == 0 {
            fullx(search, 0x14, 0x46)
        } else if target_prev >> 10 == ep_hi {
            fullx(search, 0x14, 0x32)
        } else {
            let i8 = (target_cur & 0x1f) as usize;
            let e8 = (entry_cur & 0x1f) as usize;
            if (t.flag_a[i8] == 0 || t.flag_a[e8] == 0) && (t.flag_b[i8] == 0 || t.flag_b[e8] == 0) {
                if flag_d(t, ep_hi) == 0 || t.flag_c[e8] == 0 {
                    0x14
                } else {
                    0
                }
            } else {
                fullx(search, 0x14, 0x14)
            }
        }
    }
}

/// Right-context score of a candidate (`w` is the right weight, `norm_class` the target class).
pub open spec fn score_right_spec(
    t: &SelectTables,
    target_next: u16,
    entry_next: u16,
    entry_cur: u16,
    w: u8,
    norm_class: u8,
    search: bool,
) -> int {
    let target_tone = norm_class % 10;
    let ec_hi = entry_cur >> 10;
    let blocked = (ec_hi == 0x1b || ec_hi == 0x12) && (entry_next & 0x1f == 0x12 || entry_next & 0x1f
        == 0xc) && target_tone < 1;
    if w == 2 {
        if blocked {
            -200
        } else if target_next == entry_next {
            full(search, 0x14, 0x50)
        } else if (entry_next ^ target_next) & 0x3ff == 0 {
            full(search, 0x14, 0x46)
        } else if entry_next & 0x1f == target_next & 0x1f {
            full(search, 0x14, 0x28)
        } else if t.flag_c@[(entry_next & 0x1f) as int] != 0 {
            0x14
        } else {
            0
        }
    } else if w == 3 || w == 5 {
        if target_next == entry_next {
            full(search, 0x3c, 0x28)
        } else if (entry_next ^ target_next) & 0x3ff == 0 {
            full(search, 0x3c, 0x1e)
        } else if entry_next & 0x1f == target_next & 0x1f {
            if t.fallback_repl_hi@[((target_next & 0x3e0) >> 5) as int] == t.fallback_repl_hi@[((
            entry_next & 0x3e0) >> 5) as int] {
                full(search, 0x3c, 0x1e)
            } else {
                0x32
            }
        } else if (w == 3 && entry_next & 0x1f == 0xc) || (w == 5 && entry_next & 0x1f == 0x12) {
            0x14
        } else {
            0
        }
    } else {
        if blocked {
            -200
        } else if target_next == entry_next {
            full(search, 0x14, 0x50)
        } else if (entry_next ^ target_next) & 0x3ff == 0 {
            full(search, 0x14, 0x46)
        } else if entry_next & 0x1f == target_next & 0x1f {
            full(search, 0x14, 0x32)
        } else {
            let i9 = (target_next & 0x1f) as int;
            let e9 = (entry_next & 0x1f) as int;
            if (t.flag_a@[i9] == 0 || t.flag_a@[e9] == 0) && (t.flag_b@[i9] == 0 || t.flag_b@[e9]
                == 0) {
                if flag_d_spec(t, ec_hi) == 0 || t.flag_c@[e9] == 0 {
                    0x14
                } else {
                    0
                }
            } else {
                full(search, 0x14, 0x14)
            }
        }
    }
}

/// Right-context score of a candidate.
pub fn score_right(
    t: &SelectTables,
    target_next: u16,
    entry_next: u16,
    entry_cur: u16,
    w: u8,
    norm_class: u8,
    search: bool,
) -> (r: i32)
    requires
        t.wf(),
    ensures
        r == score_right_spec(t, target_next, entry_next, entry_cur, w, norm_class, search),
        -200 <= r <= 100,
{
    let target_tone = norm_class % 10;
    let ec_hi = entry_cur >> 10;
    assert(entry_cur >> 10 < 64 && target_next & 0x1f < 32 && entry_next & 0x1f < 32 && (target_next & 0x3e0) >> 5
        < 32 && (entry_next & 0x3e0) >> 5 < 32) by (bit_vector);
    let blocked = (ec_hi == 0x1b || ec_hi == 0x12) && ((entry_next & 0x1f) == 0x12 || (entry_next
        & 0x1f) == 0xc) && target_tone < 1;
    if w == 2 {
        if blocked {
            -200
        } else if target_next == entry_next {
            fullx(search, 0x14, 0x50)
        } else if (entry_next ^ target_next) & 0x3ff == 0 {
            fullx(search, 0x14, 0x46)
        } else if (entry_next & 0x1f) == (target_next & 0x1f) {
            fullx(search, 0x14, 0x28)
        } else if t.flag_c[(entry_next & 0x1f) as usize] != 0 {
            0x14
        } else {
            0
        }
    } else if w == 3 || w == 5 {
        if target_next == entry_next {
            fullx(search, 0x3c, 0x28)
        } else if (entry_next ^ target_next) & 0x3ff == 0 {
            fullx(search, 0x3c, 0x1e)
        } else if (entry_next & 0x1f) == (target_next & 0x1f) {
            if t.fallback_repl_hi[((target_next & 0x3e0) >> 5) as usize] == t.fallback_repl_hi[((
            entry_next & 0x3e0) >> 5) as usize] {
                fullx(search, 0x3c, 0x1e)
            } else {
                0x32
            }
        } else if (w == 3 && (entry_next & 0x1f) == 0xc) || (w == 5 && (entry_next & 0x1f) == 0x12) {
            0x14
        } else {
            0
        }
    } else {
        if blocked {
            -200
        } else if target_next == entry_next {
            fullx(search, 0x14, 0x50)
        } else if (entry_next ^ target_next) & 0x3ff == 0 {
            fullx(search, 0x14, 0x46)
        } else if (entry_next & 0x1f) == (target_next & 0x1f) {
            fullx(search, 0x14, 0x32)
        } else {
            let i9 = (target_next & 0x1f) as usize;
            let e9 = (entry_next & 0x1f) as usize;
            if (t.flag_a[i9] == 0 || t.flag_a[e9] == 0) && (t.flag_b[i9] == 0 || t.flag_b[e9] == 0) {
                if flag_d(t, ec_hi) == 0 || t.flag_c[e9] == 0 {
                    0x14
                } else {
                    0
                }
            } else {
                fullx(search, 0x14, 0x14)
            }
        }
    }
}

/// What a record asks of the selection.
#[derive(Clone, Copy, Debug, Default, PartialEq, Eq)]
pub struct UnitRequest {
    /// Current phoneme code.
    pub cur: u16,
    /// Previous context code.
    pub prev: u16,
    /// Next context code.
    pub next: u16,
    /// Wanted pitch.
    pub pitch: u16,
    /// Tone class.
    pub class: u8,
    /// Pause flags (tens: left, units: right) and bit 7 for a free pitch ceiling.
    pub flags: u8,
}

/// Left weight of a request.
pub open spec fn weight_prev_spec(t: &SelectTables, req: UnitRequest, norm_class: u8) -> u8 {
    let prev_hi = req.prev >> 10;
    let cur_lo = req.cur & 0x1f;
    let level = norm_class / 10;
    if (prev_hi == 0x1b || prev_hi == 0x12) && cur_lo == 0x12 && level < 2 {
        5
    } else if (prev_hi == 0x1b || prev_hi == 0x12) && cur_lo == 0xc && level < 1 {
        3
    } else if flag_d_spec(t, prev_hi) == 0 || t.flag_c@[cur_lo as int] == 0 {
        1
    } else {
        2
    }
}

/// Left weight of a request.
pub fn weight_prev(t: &SelectTables, req: &UnitRequest, norm_class: u8) -> (r: u8)
    requires
        t.wf(),
    ensures
        r == weight_prev_spec(t, *req, norm_class),
{
    let prev_hi = req.prev >> 10;
    let cur_lo = req.cur & 0x1f;
    let p = req.prev;
    let c = req.cur;
    assert(p >> 10 < 64 && c & 0x1f < 32) by (bit_vector);
    let level = norm_class / 10;
    if (prev_hi == 0x1b || prev_hi == 0x12) && cur_lo == 0x12 && level < 2 {
        return 5;
    }
    if (prev_hi == 0x1b || prev_hi == 0x12) && cur_lo == 0xc && level < 1 {
        return 3;
    }
    if flag_d(t, prev_hi) == 0 || t.flag_c[cur_lo as usize] == 0 {
        return 1;
    }
    2
}

/// Right weight of a request.
pub open spec fn weight_next_spec(t: &SelectTables, req: UnitRequest, norm_class: u8) -> u8 {
    let cur_hi = req.cur >> 10;
    let next_lo = req.next & 0x1f;
    let tone = norm_class % 10;
    if (cur_hi == 0x1b || cur_hi == 0x12) && next_lo == 0x12 && tone < 2 {
        5
    } else if (cur_hi == 0x1b || cur_hi == 0x12) && next_lo == 0xc && tone < 1 {
        3
    } else if flag_d_spec(t, cur_hi) == 0 || t.flag_c@[next_lo as int] == 0 {
        1
    } else {
        2
    }
}

/// Right weight of a request.
pub fn weight_next(t: &SelectTables, req: &UnitRequest, norm_class: u8) -> (r: u8)
    requires
        t.wf(),
    ensures
        r == weight_next_spec(t, *req, norm_class),
{
    let cur_hi = req.cur >> 10;
    let next_lo = req.next & 0x1f;
    let c = req.cur;
    let n = req.next;
    assert(c >> 10 < 64 && n & 0x1f < 32) by (bit_vector);
    let tone = norm_class % 10;
    if (cur_hi == 0x1b || cur_hi == 0x12) && next_lo == 0x12 && tone < 2 {
        return 5;
    }
    if (cur_hi == 0x1b || cur_hi == 0x12) && next_lo == 0xc && tone < 1 {
        return 3;
    }
    if flag_d(t, cur_hi) == 0 || t.flag_c[next_lo as usize] == 0 {
        return 1;
    }
    2
}

/// Quotient rounded toward zero (as machine division does), for a positive divisor.
pub open spec fn tdiv(a: int, b: int) -> int {
    if a >= 0 {
        a / b
    } else {
        -((-a) / b)
    }
}

fn tdiv_exec(a: i32, b: i32) -> (r: i32)
    requires
        b > 0,
        -100000 <= a <= 100000,
    ensures
        r == tdiv(a as int, b as int),
        a >= 0 ==> 0 <= r <= a,
        a < 0 ==> a <= r <= 0,
{
    if a >= 0 {
        a / b
    } else {
        let na: i32 = -a;
        -(na / b)
    }
}

/// Absolute value.
pub open spec fn abs_int(x: int) -> int {
    if x < 0 {
        -x
    } else {
        x
    }
}

/// Whether a candidate passes the pitch and length filter of its class row.
pub open spec fn passes_filter(t: &SelectTables, req: UnitRequest, e: VoiceInfoEntry) -> bool {
    let target_level = target_class_spec(req.class) / 10;
    let row = row_from(candidate_a_spec((e.classcode % 256) as u8), 0);
    let f = t.filter@[row];
    let pitch = (e.pitch as i16) as int;
    let wlen = (e.wlen as i32) as int;
    if req.flags & 0x80 != 0 && target_level <= 1 {
        f[0] <= pitch && f[2] <= wlen && wlen <= f[3]
    } else {
        f[0] <= pitch && pitch <= f[1] && f[2] <= wlen && wlen <= f[3]
    }
}

/// Score of a candidate for a request, or `None` when it is special, has another current
/// code or fails the filter.
pub open spec fn cand_score(t: &SelectTables, req: UnitRequest, e: VoiceInfoEntry, search: bool) -> Option<int> {
    let norm = target_class_spec(req.class);
    if !e.is_normal_spec() || e.phone_cur != req.cur || !passes_filter(t, req, e) {
        None
    } else {
        let wp = weight_prev_spec(t, req, norm) as int;
        let wn = weight_next_spec(t, req, norm) as int;
        let i18 = score_left_spec(t, req.prev, req.cur, e.phone_prev, e.phone_cur, wp as u8, norm, search);
        let i12 = score_right_spec(t, req.next, e.phone_next, e.phone_cur, wn as u8, norm, search);
        let row = row_from(norm, 0);
        let col = col_from(row, candidate_b_spec((e.classcode % 256) as u8), 0);
        let cost = t.tone_trans_cost@[row * 16 + col] as int;
        Some(tdiv(wn * i12, wp + wn) + 100 + tdiv(wp * i18, wp + wn) + cost)
    }
}

/// Best (score, pitch distance, entry) over the first `n` entries; ties go to the smaller
/// pitch distance, then to the earlier entry.
pub open spec fn scan_fold(
    t: &SelectTables,
    entries: Seq<VoiceInfoEntry>,
    req: UnitRequest,
    search: bool,
    n: int,
) -> (int, int, Option<VoiceInfoEntry>)
    decreases n,
{
    if n <= 0 {
        (0, i32::MAX as int, None)
    } else {
        let prev = scan_fold(t, entries, req, search, n - 1);
        let e = entries[n - 1];
        match cand_score(t, req, e, search) {
            None => prev,
            Some(s) => {
                let pd = abs_int((req.pitch as i16) - (e.pitch as i16));
                if s > prev.0 || (s == prev.0 && pd < prev.1) {
                    (s, pd, Some(e))
                } else {
                    prev
                }
            },
        }
    }
}

/// Best-scoring normal unit for a request with its score, or `None` when no candidate scores
/// above zero.
pub open spec fn scan_spec(t: &SelectTables, entries: Seq<VoiceInfoEntry>, req: UnitRequest, search: bool) -> Option<(VoiceInfoEntry, int)> {
    let f = scan_fold(t, entries, req, search, entries.len() as int);
    match f.2 {
        Some(e) => Some((e, f.0)),
        None => None,
    }
}

/// The best of the first `n` entries is one of them, with a score, and no entry scores more;
/// when none is chosen, no entry scores 0 or more.
pub proof fn lemma_scan_fold_best(t: &SelectTables, entries: Seq<VoiceInfoEntry>, req: UnitRequest, search: bool, n: int)
    requires
        0 <= n <= entries.len(),
    ensures
        scan_fold(t, entries, req, search, n).2 matches Some(e) ==> exists|k: int|
            0 <= k < n && entries[k] == e && cand_score(t, req, entries[k], search) == Some(
                scan_fold(t, entries, req, search, n).0,
            ),
        scan_fold(t, entries, req, search, n).2 is None ==> scan_fold(t, entries, req, search, n).0 == 0
            && scan_fold(t, entries, req, search, n).1 == i32::MAX,
        forall|k: int|
            0 <= k < n ==> (#[trigger] cand_score(t, req, entries[k], search) matches Some(s) ==> s
                <= scan_fold(t, entries, req, search, n).0 && (scan_fold(t, entries, req, search, n).2 is None
                ==> s < 0)),
    decreases n,
{
    if n > 0 {
        lemma_scan_fold_best(t, entries, req, search, n - 1);
        let prev = scan_fold(t, entries, req, search, n - 1);
        let e = entries[n - 1];
        let pd = abs_int((req.pitch as i16) - (e.pitch as i16));
        assert(pd < i32::MAX);
        match cand_score(t, req, e, search) {
            None => {},
            Some(s) => {
                if s > prev.0 || (s == prev.0 && pd < prev.1) {
                    assert(entries[n - 1] == e);
                }
            },
        }
    }
}

/// Best special unit from the first `n` entries: (distance bound, entry).
pub open spec fn special_fold(entries: Seq<VoiceInfoEntry>, target: i16, init: int, n: int) -> (int, Option<VoiceInfoEntry>)
    decreases n,
{
    if n <= 0 {
        (init, None)
    } else {
        let prev = special_fold(entries, target, init, n - 1);
        let e = entries[n - 1];
        if e.is_normal_spec() {
            prev
        } else {
            let d = abs_int(target - (e.pitch as i16));
            if d < prev.0 {
                (d, Some(e))
            } else {
                prev
            }
        }
    }
}

fn candidate_score(
    t: &SelectTables,
    req: &UnitRequest,
    e: &VoiceInfoEntry,
    search_flag: bool,
    norm_class: u8,
    tone_row: usize,
    w_prev: u8,
    w_next: u8,
) -> (r: Option<i32>)
    requires
        t.wf(),
        norm_class == target_class_spec(req.class),
        tone_row == row_from(norm_class, 0),
        tone_row < 16,
        w_prev == weight_prev_spec(t, *req, norm_class),
        w_next == weight_next_spec(t, *req, norm_class),
        1 <= w_prev <= 5,
        1 <= w_next <= 5,
    ensures
        match r {
            Some(sc) => cand_score(t, *req, *e, search_flag) == Some(sc as int)
                && -1_000_002_000 <= sc <= 1_000_002_000,
            None => cand_score(t, *req, *e, search_flag) is None,
        },
{
    if !e.is_normal() || e.phone_cur != req.cur {
        return None;
    }
    let target_level = norm_class / 10;
    let cand_norm = normalize_candidate_class_a(e.class_byte());
    let cand_idx = tone_class_row(cand_norm);
    let f = t.filter[cand_idx];
    let pitch = e.pitch_signed();
    let wlen = e.wlen as i32;
    let pass = if (req.flags & 0x80) != 0 && target_level <= 1 {
        f[0] <= pitch && f[2] <= wlen && wlen <= f[3]
    } else {
        f[0] <= pitch && pitch <= f[1] && f[2] <= wlen && wlen <= f[3]
    };
    if !pass {
        return None;
    }
    let i18 = score_left(t, req.prev, req.cur, e.phone_prev, e.phone_cur, w_prev, norm_class, search_flag);
    let i12 = score_right(t, req.next, e.phone_next, e.phone_cur, w_next, norm_class, search_flag);
    let cand_norm_b = normalize_candidate_class_b(e.class_byte());
    let col = tone_class_col(tone_row, cand_norm_b);
    let cost = t.tone_trans_cost[tone_row * 16 + col];
    let wsum = (w_prev + w_next) as i32;
    assert(-1000 <= (w_next as i32) * i12 <= 500) by (nonlinear_arith)
        requires
            1 <= w_next <= 5,
            -200 <= i12 <= 100,
    ;
    assert(-1000 <= (w_prev as i32) * i18 <= 500) by (nonlinear_arith)
        requires
            1 <= w_prev <= 5,
            -200 <= i18 <= 100,
    ;
    let a = tdiv_exec((w_next as i32) * i12, wsum);
    let b = tdiv_exec((w_prev as i32) * i18, wsum);
    assert(-1_000_000_000 <= t.tone_trans_cost@[tone_row * 16 + col] <= 1_000_000_000);
    Some(a + 100 + b + cost)
}

/// State carried from unit to unit: (previous tone, previous pitch, previous class high byte).
pub open spec fn reset_state(st: (u8, u16, u8), records: Seq<ProsodyRecord>, idx: int) -> (u8, u16, u8) {
    if idx > 0 && records[idx - 1].tone_class % 10 >= 3 {
        (4, st.1, 0)
    } else {
        st
    }
}

/// Request built for record `idx` in state `st` (after the reset at a tone boundary).
pub open spec fn base_request(cfg: UnitSelectConfig, st: (u8, u16, u8), records: Seq<ProsodyRecord>, idx: int) -> UnitRequest {
    let rec = records[idx];
    let pt = st.0 % 10;
    let class: u8 = if pt > 0 && pt < rec.tone_class / 10 {
        (rec.tone_class % 10 + pt * 10) as u8
    } else {
        rec.tone_class
    };
    let level = class / 10;
    let tone = class % 10;
    let prev = if idx != 0 && level < 2 {
        records[idx - 1].code
    } else {
        BOUNDARY_CODE
    };
    let next = if idx + 1 < records.len() && rec.marker != MARKER_SENTENCE_END && tone <= 1 {
        records[idx + 1].code
    } else {
        BOUNDARY_CODE
    };
    let pitch = if level >= 2 {
        cfg.request_pitch_default
    } else {
        st.1
    };
    let f0: int = if rec.marker == 2 {
        (st.2 % 10) * 10
    } else if level < 1 && sel_pause_spec(prev >> 10, rec.code & 0x1f) {
        10
    } else {
        0
    };
    let f1: int = if tone < 1 && sel_pause_spec(rec.code >> 10, next & 0x1f) {
        f0 + 1
    } else {
        f0
    };
    let flags: u8 = if rec.flags == 1 {
        (f1 as u8) | 0x80
    } else {
        f1 as u8
    };
    UnitRequest { cur: rec.code, prev, next, pitch, class, flags }
}

/// First fallback: the current code's vowel replaced by its first fallback vowel.
pub open spec fn fallback_a(t: &SelectTables, req: UnitRequest) -> UnitRequest {
    let mid5 = (req.cur >> 5) & 0x1f;
    let repl = (t.fallback_repl_lo@[mid5 as int] as u16) & 0x1f;
    UnitRequest { cur: (req.cur & 0xfc1f) | (repl << 5), ..req }
}

/// Second fallback, first half: a vowel-final unit with the second fallback vowel.
pub open spec fn fallback_b1(t: &SelectTables, ra: UnitRequest) -> UnitRequest {
    let mid5 = (ra.cur >> 5) & 0x1f;
    let b = (t.fallback_repl_hi@[mid5 as int] as u16) & 0x1f;
    let cur_hi = (((b | 0x360) << 5) | (ra.cur & 0x1f)) as u16;
    let lo = ((((t.fallback_repl_lo@[mid5 as int] as u16) & 0x1f) << 5) | (ra.cur & 0xfc12)) as u16;
    UnitRequest {
        cur: cur_hi,
        prev: ra.prev,
        next: lo | 0x12,
        pitch: 0,
        class: ((ra.class / 10) * 10) as u8,
        flags: ((ra.flags / 10) * 10 + 1) as u8,
    }
}

/// Second fallback, second half: the rest of the syllable after the first half.
pub open spec fn fallback_b2(st: (u8, u16, u8), ra: UnitRequest, rb1: UnitRequest) -> UnitRequest {
    UnitRequest {
        cur: rb1.next,
        prev: rb1.cur,
        next: ra.next,
        pitch: rb1.pitch,
        class: ((st.0 % 10) * 10 + ra.class % 10) as u8,
        flags: (ra.flags % 10 + 10) as u8,
    }
}

/// Unit found for a request, trying the fallbacks in turn: (request used, unit, marker).
pub open spec fn select_one(t: &SelectTables, entries: Seq<VoiceInfoEntry>, st: (u8, u16, u8), req: UnitRequest) -> Option<(UnitRequest, VoiceInfoEntry, int)> {
    match scan_spec(t, entries, req, true) {
        Some((e, sc)) => Some((req, e, sc)),
        None => {
            let mid5 = (req.cur >> 5) & 0x1f;
            if t.fallback_allow@[mid5 as int] != 0 {
                None
            } else {
                let ra = fallback_a(t, req);
                match scan_spec(t, entries, ra, true) {
                    Some((e, sc)) => Some((ra, e, sc + 10000)),
                    None => {
                        let mid5b = (ra.cur >> 5) & 0x1f;
                        if !(t.fallback_allow@[mid5b as int] == 0 || ra.cur & 0xfc00 != 0x6c00) {
                            None
                        } else {
                            let rb1 = fallback_b1(t, ra);
                            match scan_spec(t, entries, rb1, true) {
                                Some((e, sc)) => Some((rb1, e, sc + 20000)),
                                None => {
                                    let rb2 = fallback_b2(st, ra, rb1);
                                    match scan_spec(t, entries, rb2, true) {
                                        Some((e, sc)) => Some((rb2, e, sc + 20000)),
                                        None => None,
                                    }
                                },
                            }
                        }
                    },
                }
            }
        },
    }
}

/// A fresh selection for a request and unit.
pub open spec fn new_selection(req: UnitRequest, e: VoiceInfoEntry, marker: int) -> UnitSelection {
    UnitSelection { request: req, data: e, marker: marker as i32, data2: None, marker2: None, extra: None }
}

/// State and selections after the first `n` records.
pub open spec fn select_fold(
    t: &SelectTables,
    entries: Seq<VoiceInfoEntry>,
    cfg: UnitSelectConfig,
    st_init: (u8, u16, u8),
    records: Seq<ProsodyRecord>,
    n: int,
) -> ((u8, u16, u8), Seq<UnitSelection>)
    decreases n,
{
    if n <= 0 {
        (st_init, Seq::empty())
    } else {
        let (st, units) = select_fold(t, entries, cfg, st_init, records, n - 1);
        let st0 = reset_state(st, records, n - 1);
        let req = base_request(cfg, st0, records, n - 1);
        match select_one(t, entries, st0, req) {
            Some((r, e, m)) => (
                (((e.classcode % 256) % 10) as u8, e.pitch, (e.classcode / 256) as u8),
                units.push(new_selection(r, e, m)),
            ),
            None => (st0, units),
        }
    }
}

/// Signed pitch of a unit.
pub open spec fn pitch_of(e: VoiceInfoEntry) -> int {
    (e.pitch as i16) as int
}

/// Whether unit `j + 1` gets a replacement by pitch smoothing between its neighbours.
pub open spec fn smooth_trigger(cfg: UnitSelectConfig, us: Seq<UnitSelection>, j: int) -> bool {
    let prev_d = active_spec(us[j]);
    let mid_d = active_spec(us[j + 1]);
    let next_d = active_spec(us[j + 2]);
    let bvar = us[j + 1].request.flags & 0x80 != 0;
    let mc = mid_d.classcode % 256;
    let mp = pitch_of(mid_d);
    let pp = pitch_of(prev_d);
    let np = pitch_of(next_d);
    let tol = cfg.pitch_tolerance as int;
    if !bvar && mc / 10 < 2 && mc % 10 < 2 {
        abs_int(mp - pp) >= tol && abs_int(np - mp) >= tol && abs_int(2 * mp - np - pp) >= tol
    } else if bvar && mc / 10 < 2 && mc % 10 < 2 {
        mp + 10 < pp || tol < mp - pp
    } else {
        false
    }
}

/// The selections after the smoothing step at `j`.
pub open spec fn smooth_step(
    t: &SelectTables,
    entries: Seq<VoiceInfoEntry>,
    cfg: UnitSelectConfig,
    us: Seq<UnitSelection>,
    j: int,
) -> Seq<UnitSelection> {
    if !smooth_trigger(cfg, us, j) {
        us
    } else {
        let avg = tdiv(pitch_of(active_spec(us[j + 2])) + pitch_of(active_spec(us[j])), 2) as u16;
        let r = UnitRequest { pitch: avg, ..us[j + 1].request };
        match scan_spec(t, entries, r, false) {
            Some((e2, s2)) => us.update(
                j + 1,
                UnitSelection { data2: Some(e2), marker2: Some((s2 + 30000) as i32), ..us[j + 1] },
            ),
            None => us,
        }
    }
}

/// The selections after the smoothing steps at `0..n`.
pub open spec fn smooth_fold(
    t: &SelectTables,
    entries: Seq<VoiceInfoEntry>,
    cfg: UnitSelectConfig,
    us: Seq<UnitSelection>,
    n: int,
) -> Seq<UnitSelection>
    decreases n,
{
    if n <= 0 {
        us
    } else {
        smooth_step(t, entries, cfg, smooth_fold(t, entries, cfg, us, n - 1), n - 1)
    }
}

/// Number of smoothing steps over `len` selections.
pub open spec fn smooth_steps(len: int) -> int {
    if len > 2 {
        len - 2
    } else {
        0
    }
}

/// Remainder of the quotient rounded toward zero.
pub open spec fn trem(a: int, b: int) -> int {
    a - tdiv(a, b) * b
}

/// Class byte of the unit in effect, read as a signed byte.
pub open spec fn signed_class(u: UnitSelection) -> int {
    (((active_spec(u).classcode % 256) as u8) as i8) as int
}

/// Pause index of selection `i`: the smallest class digit around it, forced to 2 next to a
/// tone-2 neighbour and capped by the previous unit's level.
pub open spec fn pause_index(us: Seq<UnitSelection>, i: int) -> int {
    let c = signed_class(us[i]);
    let i0 = tdiv(c, 10);
    let mid_lo = trem(c, 10);
    let i1 = if mid_lo < i0 {
        mid_lo
    } else {
        i0
    };
    let other_hi = (us[i].request.class / 10) as int;
    let i2 = if i1 > other_hi {
        other_hi
    } else {
        i1
    };
    let i3 = if i + 1 < us.len() && trem(signed_class(us[i + 1]), 10) == 2 {
        2
    } else {
        i2
    };
    if i > 0 {
        let pc = signed_class(us[i - 1]);
        let i4 = if trem(pc, 10) == 2 {
            2
        } else {
            i3
        };
        let p_hi = tdiv(pc, 10);
        if i4 > p_hi {
            p_hi
        } else {
            i4
        }
    } else {
        i3
    }
}

/// Pause for a pause index: the configured value of its digit 1..=4 when enabled, else 0.
pub open spec fn pause_value(cfg: UnitSelectConfig, idx: int) -> i32 {
    let arg = (if idx > 0 {
        idx
    } else {
        0
    }) % 10;
    if 1 <= arg <= 4 && cfg.pause_enabled@[arg - 1] {
        cfg.pause_values@[arg - 1]
    } else {
        0
    }
}

/// The selection with the pause of its replacement (when it has one) or of its unit set.
pub open spec fn set_pause_spec(u: UnitSelection, p: i16) -> UnitSelection {
    match u.data2 {
        Some(d2) => UnitSelection { data2: Some(VoiceInfoEntry { pause: p, ..d2 }), ..u },
        None => UnitSelection { data: VoiceInfoEntry { pause: p, ..u.data }, ..u },
    }
}

/// Special unit appended after a real phoneme whose unit has tone digit 0 or 1.
pub open spec fn extra_for(entries: Seq<VoiceInfoEntry>, cfg: UnitSelectConfig, u: UnitSelection) -> Option<VoiceInfoEntry> {
    let d = active_spec(u);
    if sel_real_spec(u.request.cur >> 10, u.request.next & 0x1f) && (d.classcode % 256) % 10 < 2 {
        special_fold(entries, d.pitch as i16, cfg.special_dist_init as int, entries.len() as int).1
    } else {
        None
    }
}

/// Final form of selection `i`: extra unit attached and pause set.
pub open spec fn final_unit(entries: Seq<VoiceInfoEntry>, cfg: UnitSelectConfig, us: Seq<UnitSelection>, i: int) -> UnitSelection {
    let u = us[i];
    let ex = match extra_for(entries, cfg, u) {
        Some(x) => Some(x),
        None => u.extra,
    };
    set_pause_spec(UnitSelection { extra: ex, ..u }, pause_value(cfg, pause_index(us, i)) as i16)
}

/// Samples contributed by selection `i`: its unit, its extra unit and its pause, each twice.
pub open spec fn unit_samples(entries: Seq<VoiceInfoEntry>, cfg: UnitSelectConfig, us: Seq<UnitSelection>, i: int) -> int {
    active_spec(us[i]).wlen * 2 + match extra_for(entries, cfg, us[i]) {
        Some(x) => x.wlen * 2,
        None => 0,
    } + pause_value(cfg, pause_index(us, i)) * 2
}

/// Samples of the first `n` selections.
pub open spec fn samples_sum(entries: Seq<VoiceInfoEntry>, cfg: UnitSelectConfig, us: Seq<UnitSelection>, n: int) -> int
    decreases n,
{
    if n <= 0 {
        0
    } else {
        samples_sum(entries, cfg, us, n - 1) + unit_samples(entries, cfg, us, n - 1)
    }
}

/// Selections of all records, before smoothing.
pub open spec fn selected(t: &SelectTables, entries: Seq<VoiceInfoEntry>, cfg: UnitSelectConfig, st: (u8, u16, u8), records: Seq<ProsodyRecord>) -> Seq<UnitSelection> {
    select_fold(t, entries, cfg, st, records, records.len() as int).1
}

/// Selections of all records after smoothing.
pub open spec fn smoothed(t: &SelectTables, entries: Seq<VoiceInfoEntry>, cfg: UnitSelectConfig, st: (u8, u16, u8), records: Seq<ProsodyRecord>) -> Seq<UnitSelection> {
    let sel = selected(t, entries, cfg, st, records);
    smooth_fold(t, entries, cfg, sel, smooth_steps(sel.len() as int))
}

/// A unit found by a scan is a normal unit of the index whose current phoneme code is the
/// request's.
pub proof fn lemma_scan_matches_request(t: &SelectTables, entries: Seq<VoiceInfoEntry>, req: UnitRequest, search: bool)
    ensures
        scan_spec(t, entries, req, search) matches Some((e, _)) ==> entries.contains(e) && e.is_normal_spec()
            && e.phone_cur == req.cur,
{
    lemma_scan_fold_best(t, entries, req, search, entries.len() as int);
    if let Some((e, _)) = scan_spec(t, entries, req, search) {
        let k = choose|k: int|
            0 <= k < entries.len() && entries[k] == e && cand_score(t, req, entries[k], search) == Some(
                scan_fold(t, entries, req, search, entries.len() as int).0,
            );
        assert(entries[k] == e);
    }
}

/// Every unit selected for a run of records is a normal unit of the index whose current
/// phoneme code is that of the request it was selected for.
pub proof fn lemma_selected_match_requests(
    t: &SelectTables,
    entries: Seq<VoiceInfoEntry>,
    cfg: UnitSelectConfig,
    st: (u8, u16, u8),
    records: Seq<ProsodyRecord>,
    n: int,
)
    ensures
        forall|i: int|
            0 <= i < select_fold(t, entries, cfg, st, records, n).1.len() ==> {
                let u = #[trigger] select_fold(t, entries, cfg, st, records, n).1[i];
                &&& entries.contains(u.data)
                &&& u.data.is_normal_spec()
                &&& u.data.phone_cur == u.request.cur
                &&& u.data2 is None
            },
    decreases n,
{
    if n > 0 {
        lemma_select_len(t, entries, cfg, st, records, n - 1);
        lemma_selected_match_requests(t, entries, cfg, st, records, n - 1);
        let (st1, units) = select_fold(t, entries, cfg, st, records, n - 1);
        let st0 = reset_state(st1, records, n - 1);
        let req = base_request(cfg, st0, records, n - 1);
        lemma_scan_matches_request(t, entries, req, true);
        let ra = fallback_a(t, req);
        lemma_scan_matches_request(t, entries, ra, true);
        let rb1 = fallback_b1(t, ra);
        lemma_scan_matches_request(t, entries, rb1, true);
        let rb2 = fallback_b2(st0, ra, rb1);
        lemma_scan_matches_request(t, entries, rb2, true);
    }
}

/// The unit of a selection, and its replacement when there is one, have the current phoneme
/// code of the selection's request.
pub open spec fn matches_request(u: UnitSelection) -> bool {
    &&& u.data.phone_cur == u.request.cur
    &&& (u.data2 matches Some(d) ==> d.phone_cur == u.request.cur)
}

proof fn lemma_smooth_matches(t: &SelectTables, entries: Seq<VoiceInfoEntry>, cfg: UnitSelectConfig, us: Seq<UnitSelection>, n: int)
    requires
        forall|i: int| 0 <= i < us.len() ==> matches_request(#[trigger] us[i]),
        n <= 0 || n + 2 <= us.len(),
    ensures
        smooth_fold(t, entries, cfg, us, n).len() == us.len(),
        forall|i: int| 0 <= i < us.len() ==> matches_request(#[trigger] smooth_fold(t, entries, cfg, us, n)[i]),
    decreases n,
{
    if n > 0 {
        lemma_smooth_matches(t, entries, cfg, us, n - 1);
        let prev = smooth_fold(t, entries, cfg, us, n - 1);
        let j = n - 1;
        if smooth_trigger(cfg, prev, j) {
            let avg = tdiv(pitch_of(active_spec(prev[j + 2])) + pitch_of(active_spec(prev[j])), 2) as u16;
            let r = UnitRequest { pitch: avg, ..prev[j + 1].request };
            lemma_scan_matches_request(t, entries, r, false);
        }
    }
}

/// Every unit laid out for a run of records, and its replacement when there is one, has the
/// current phoneme code of the request it was selected for.
pub proof fn lemma_final_units_match(
    t: &SelectTables,
    entries: Seq<VoiceInfoEntry>,
    cfg: UnitSelectConfig,
    st: (u8, u16, u8),
    records: Seq<ProsodyRecord>,
)
    ensures
        forall|i: int|
            0 <= i < smoothed(t, entries, cfg, st, records).len() ==> matches_request(
                #[trigger] final_unit(entries, cfg, smoothed(t, entries, cfg, st, records), i),
            ),
{
    let sel = selected(t, entries, cfg, st, records);
    lemma_selected_match_requests(t, entries, cfg, st, records, records.len() as int);
    lemma_smooth_matches(t, entries, cfg, sel, smooth_steps(sel.len() as int));
}

proof fn lemma_select_len(t: &SelectTables, entries: Seq<VoiceInfoEntry>, cfg: UnitSelectConfig, st: (u8, u16, u8), records: Seq<ProsodyRecord>, n: int)
    ensures
        select_fold(t, entries, cfg, st, records, n).1.len() <= (if n > 0 { n } else { 0 }),
    decreases n,
{
    if n > 0 {
        lemma_select_len(t, entries, cfg, st, records, n - 1);
    }
}

fn set_active_pause(u: UnitSelection, pause: i16) -> (r: UnitSelection)
    ensures
        r == set_pause_spec(u, pause),
{
    let mut v = u;
    match u.data2 {
        Some(d2) => {
            let mut d = d2;
            d.pause = pause;
            v.data2 = Some(d);
        },
        None => {
            v.data.pause = pause;
        },
    }
    v
}

fn i8_div10(b: u8) -> (r: i8)
    ensures
        r as int == tdiv(((b as i8) as int), 10),
{
    if b < 128 {
        (b / 10) as i8
    } else {
        let m: u8 = (256 - (b as u16)) as u8;
        assert((b as i8) as int == b - 256) by (bit_vector)
            requires
                b >= 128,
        ;
        -((m / 10) as i8)
    }
}

fn i8_rem10(b: u8) -> (r: i8)
    ensures
        r as int == trem(((b as i8) as int), 10),
{
    if b < 128 {
        (b % 10) as i8
    } else {
        let m: u8 = (256 - (b as u16)) as u8;
        assert((b as i8) as int == b - 256) by (bit_vector)
            requires
                b >= 128,
        ;
        -((m % 10) as i8)
    }
}

/// Prosody record alias for selection callers.
pub use crate::record::ProsodyRecord;

/// One selected unit.
#[derive(Clone, Copy, Debug, PartialEq, Eq)]
pub struct UnitSelection {
    /// The request as finally scanned.
    pub request: UnitRequest,
    /// Selected unit.
    pub data: VoiceInfoEntry,
    /// Score plus the fallback stage (0, 10000 or 20000).
    pub marker: i32,
    /// Replacement unit chosen by pitch smoothing.
    pub data2: Option<VoiceInfoEntry>,
    /// Its score plus 30000.
    pub marker2: Option<i32>,
    /// Special unit appended after a real phoneme.
    pub extra: Option<VoiceInfoEntry>,
}

/// The unit in effect: the replacement when its marker is not a multiple of 10000.
pub open spec fn active_spec(u: UnitSelection) -> VoiceInfoEntry {
    match (u.data2, u.marker2) {
        (Some(d2), Some(m)) => if m % 10000 != 0 {
            d2
        } else {
            u.data
        },
        _ => u.data,
    }
}

impl UnitSelection {
    /// The unit in effect.
    pub fn active_data(&self) -> (r: VoiceInfoEntry)
        ensures
            r == active_spec(*self),
    {
        match self.data2 {
            Some(d2) => match self.marker2 {
                Some(m) => if m % 10000 != 0 {
                    d2
                } else {
                    self.data
                },
                None => self.data,
            },
            None => self.data,
        }
    }

    /// Pause of the unit in effect.
    pub fn pause(&self) -> (r: i32)
        ensures
            r == active_spec(*self).pause as i32,
    {
        self.active_data().pause as i32
    }
}

/// Selected units and their total length in samples.
#[derive(Clone, Debug)]
pub struct ProcessedUnits {
    /// Units in record order.
    pub units: Vec<UnitSelection>,
    /// Total samples including extras and pauses.
    pub total_samples: i64,
}

/// Unit selection over one voice index.
pub struct UnitSelector<'a> {
    info: &'a VoiceInfo,
    tables: &'a SelectTables,
    cfg: UnitSelectConfig,
    prev_tone: u8,
    prev_best_pitch: u16,
    prev_best_class_hi: u8,
}

impl<'a> UnitSelector<'a> {
    /// A selector with no previous unit (previous tone 4).
    pub fn new(info: &'a VoiceInfo, tables: &'a SelectTables, cfg: UnitSelectConfig) -> (r: Self)
        ensures
            r.info() == info,
            r.tables() == tables,
            r.config_spec() == cfg,
            r.state() == (4u8, 0u16, 0u8),
    {
        UnitSelector { info, tables, cfg, prev_tone: 4, prev_best_pitch: 0, prev_best_class_hi: 0 }
    }

    /// Voice index.
    pub closed spec fn info(&self) -> &'a VoiceInfo {
        self.info
    }

    /// Scoring tables.
    pub closed spec fn tables(&self) -> &'a SelectTables {
        self.tables
    }

    /// Settings.
    pub closed spec fn config_spec(&self) -> UnitSelectConfig {
        self.cfg
    }

    /// (previous tone, previous pitch, previous class high byte).
    pub closed spec fn state(&self) -> (u8, u16, u8) {
        (self.prev_tone, self.prev_best_pitch, self.prev_best_class_hi)
    }

    /// Settings.
    pub fn config(&self) -> (r: &UnitSelectConfig)
        ensures
            *r == self.config_spec(),
    {
        &self.cfg
    }

    /// Best normal unit for a request and its score; `None` when no candidate scores above 0.
    pub fn scan(&self, req: &UnitRequest, search_flag: bool) -> (r: Option<(VoiceInfoEntry, i32)>)
        requires
            self.tables().wf(),
        ensures
            match r {
                Some((e, s)) => scan_spec(self.tables(), self.info().entries@, *req, search_flag) == Some((e, s as int))
                    && 0 <= s <= 1_000_002_000,
                None => scan_spec(self.tables(), self.info().entries@, *req, search_flag) is None,
            },
            r matches Some((e, s)) ==> (exists|k: int|
                0 <= k < self.info().entries@.len() && self.info().entries@[k] == e) && cand_score(
                self.tables(),
                *req,
                e,
                search_flag,
            ) == Some(s as int) && e.phone_cur == req.cur,
            forall|k: int|
                0 <= k < self.info().entries@.len() ==> (#[trigger] cand_score(
                    self.tables(),
                    *req,
                    self.info().entries@[k],
                    search_flag,
                ) matches Some(s2) ==> match r {
                    Some((_, s)) => s2 <= s,
                    None => s2 < 0,
                }),
    {
        proof {
            lemma_scan_fold_best(self.tables(), self.info().entries@, *req, search_flag, self.info().entries@.len() as int);
        }
        let t = self.tables;
        let entries = &self.info.entries;
        let norm_class = normalize_target_class(req.class);
        let tone_row = tone_class_row(norm_class);
        let w_prev = weight_prev(t, req, norm_class);
        let w_next = weight_next(t, req, norm_class);
        let wsum = (w_prev + w_next) as i32;
        let mut best_score: i32 = 0;
        let mut best_pitch_dist: i32 = i32::MAX;
        let mut best: Option<VoiceInfoEntry> = None;
        let n = entries.len();
        let mut k: usize = 0;
        while k < n
            invariant
                n == entries@.len(),
                k <= n,
                t.wf(),
                entries@ == self.info().entries@,
                t == self.tables(),
                norm_class == target_class_spec(req.class),
                tone_row == row_from(norm_class, 0),
                w_prev == weight_prev_spec(t, *req, norm_class),
                w_next == weight_next_spec(t, *req, norm_class),
                1 <= w_prev <= 5,
                1 <= w_next <= 5,
                wsum == w_prev + w_next,
                tone_row < 16,
                0 <= best_score <= 1_000_002_000,
                scan_fold(t, entries@, *req, search_flag, k as int) == (best_score as int, best_pitch_dist as int, best),
            decreases n - k,
        {
            let e = entries[k];
            k = k + 1;
            assert(entries@[k - 1] == e);
            match candidate_score(t, req, &e, search_flag, norm_class, tone_row, w_prev, w_next) {
                None => {},
                Some(sc) => {
                    let rp = (req.pitch as i16) as i32;
                    let pitch = e.pitch_signed();
                    let pd = if rp >= pitch { rp - pitch } else { pitch - rp };
                    if sc > best_score || (sc == best_score && pd < best_pitch_dist) {
                        best_score = sc;
                        best_pitch_dist = pd;
                        best = Some(e);
                    }
                },
            }
        }
        match best {
            Some(e) => Some((e, best_score)),
            None => None,
        }
    }

    fn build_request(&self, records: &[ProsodyRecord], idx: usize) -> (r: UnitRequest)
        requires
            idx < records@.len(),
        ensures
            r == base_request(self.config_spec(), self.state(), records@, idx as int),
    {
        let rec = records[idx];
        let pt = self.prev_tone % 10;
        let class: u8 = if pt > 0 && pt < rec.tone_class / 10 {
            rec.tone_class % 10 + pt * 10
        } else {
            rec.tone_class
        };
        let level = class / 10;
        let tone = class % 10;
        let prev = if idx != 0 && level < 2 {
            records[idx - 1].code
        } else {
            BOUNDARY_CODE
        };
        let next = if idx + 1 < records.len() && rec.marker != MARKER_SENTENCE_END && tone <= 1 {
            records[idx + 1].code
        } else {
            BOUNDARY_CODE
        };
        let pitch = if level >= 2 {
            self.cfg.request_pitch_default
        } else {
            self.prev_best_pitch
        };
        let mut flags: u8 = if rec.marker == 2 {
            (self.prev_best_class_hi % 10) * 10
        } else if level < 1 && is_pause(prev >> 10, rec.code & 0x1f) {
            10
        } else {
            0
        };
        if tone < 1 && is_pause(rec.code >> 10, next & 0x1f) {
            flags = flags + 1;
        }
        if rec.flags == 1 {
            flags = flags | 0x80;
        }
        UnitRequest { cur: rec.code, prev, next, pitch, class, flags }
    }

    fn select_with_fallback(&self, req: UnitRequest) -> (r: Option<(UnitRequest, VoiceInfoEntry, i32)>)
        requires
            self.tables().wf(),
        ensures
            match r {
                Some((q, e, m)) => select_one(self.tables(), self.info().entries@, self.state(), req)
                    == Some((q, e, m as int)),
                None => select_one(self.tables(), self.info().entries@, self.state(), req) is None,
            },
    {
        let t = self.tables;
        match self.scan(&req, true) {
            Some((e, sc)) => {
                return Some((req, e, sc));
            },
            None => {},
        }
        let c = req.cur;
        assert((c >> 5) & 0x1f < 32) by (bit_vector);
        let mid5 = ((req.cur >> 5) & 0x1f) as usize;
        if t.fallback_allow[mid5] != 0 {
            return None;
        }
        let repl = (t.fallback_repl_lo[mid5] as u16) & 0x1f;
        let mut ra = req;
        ra.cur = (ra.cur & 0xfc1f) | (repl << 5);
        assert(ra == fallback_a(t, req));
        match self.scan(&ra, true) {
            Some((e, sc)) => {
                return Some((ra, e, sc + 10000));
            },
            None => {},
        }
        let ca = ra.cur;
        assert((ca >> 5) & 0x1f < 32) by (bit_vector);
        let mid5b = ((ra.cur >> 5) & 0x1f) as usize;
        if !(t.fallback_allow[mid5b] == 0 || (ra.cur & 0xfc00) != 0x6c00) {
            return None;
        }
        let b = (t.fallback_repl_hi[mid5b] as u16) & 0x1f;
        assert(b < 32 ==> ((b | 0x360) as int) < 0x380) by (bit_vector);
        assert(b & 0x1f < 32) by (bit_vector);
        let cur_hi: u16 = ((b | 0x360) << 5) | (ra.cur & 0x1f);
        let lo: u16 = (((t.fallback_repl_lo[mid5b] as u16) & 0x1f) << 5) | (ra.cur & 0xfc12);
        let rb1 = UnitRequest {
            cur: cur_hi,
            prev: ra.prev,
            next: lo | 0x12,
            pitch: 0,
            class: ((ra.class / 10) * 10) as u8,
            flags: (ra.flags / 10) * 10 + 1,
        };
        assert(rb1 == fallback_b1(t, ra));
        match self.scan(&rb1, true) {
            Some((e, sc)) => {
                return Some((rb1, e, sc + 20000));
            },
            None => {},
        }
        let rb2 = UnitRequest {
            cur: rb1.next,
            prev: rb1.cur,
            next: ra.next,
            pitch: rb1.pitch,
            class: (self.prev_tone % 10) * 10 + ra.class % 10,
            flags: ra.flags % 10 + 10,
        };
        assert(rb2 == fallback_b2(self.state(), ra, rb1));
        match self.scan(&rb2, true) {
            Some((e, sc)) => Some((rb2, e, sc + 20000)),
            None => None,
        }
    }

    /// Select units for the records in order, updating the carried state.
    fn select_units(&mut self, records: &[ProsodyRecord]) -> (r: Vec<UnitSelection>)
        requires
            old(self).tables().wf(),
        ensures
            (final(self).state(), r@) == select_fold(
                old(self).tables(),
                old(self).info().entries@,
                old(self).config_spec(),
                old(self).state(),
                records@,
                records@.len() as int,
            ),
            final(self).info() == old(self).info(),
            final(self).tables() == old(self).tables(),
            final(self).config_spec() == old(self).config_spec(),
    {
        let ghost t = self.tables();
        let ghost entries = self.info().entries@;
        let ghost cfg = self.config_spec();
        let ghost st_init = self.state();
        let ghost info = self.info();
        let mut units: Vec<UnitSelection> = Vec::new();
        let n = records.len();
        let mut idx: usize = 0;
        while idx < n
            invariant
                n == records@.len(),
                idx <= n,
                self.tables() == t,
                self.info().entries@ == entries,
                self.info() == info,
                self.config_spec() == cfg,
                t.wf(),
                (self.state(), units@) == select_fold(t, entries, cfg, st_init, records@, idx as int),
            decreases n - idx,
        {
            if idx > 0 && records[idx - 1].tone_class % 10 >= 3 {
                self.prev_tone = 4;
                self.prev_best_class_hi = 0;
            }
            let req = self.build_request(records, idx);
            match self.select_with_fallback(req) {
                Some((q, e, m)) => {
                    self.prev_tone = e.class_byte() % 10;
                    self.prev_best_pitch = e.pitch;
                    self.prev_best_class_hi = e.class_hi_byte();
                    units.push(UnitSelection { request: q, data: e, marker: m, data2: None, marker2: None, extra: None });
                },
                None => {},
            }
            idx = idx + 1;
        }
        units
    }

    fn smooth(&self, units: &mut Vec<UnitSelection>)
        requires
            self.tables().wf(),
        ensures
            final(units)@ == smooth_fold(self.tables(), self.info().entries@, self.config_spec(), old(units)@, smooth_steps(old(units)@.len() as int)),
            final(units)@.len() == old(units)@.len(),
    {
        let ghost t = self.tables();
        let ghost entries = self.info().entries@;
        let ghost cfg = self.config_spec();
        let ghost orig = units@;
        let n = units.len();
        if n <= 2 {
            return;
        }
        let tol = self.cfg.pitch_tolerance;
        let mut i: usize = 0;
        while i < n - 2
            invariant
                n == orig.len(),
                n > 2,
                i <= n - 2,
                t == self.tables(),
                t.wf(),
                entries == self.info().entries@,
                cfg == self.config_spec(),
                tol == cfg.pitch_tolerance,
                units@ == smooth_fold(t, entries, cfg, orig, i as int),
                units@.len() == n,
            decreases n - 2 - i,
        {
            let ghost before = units@;
            let prev_d = units[i].active_data();
            let mid_d = units[i + 1].active_data();
            let next_d = units[i + 2].active_data();
            let bvar = (units[i + 1].request.flags & 0x80) != 0;
            let mid_class = mid_d.class_byte();
            let mp = mid_d.pitch_signed();
            let pp = prev_d.pitch_signed();
            let np = next_d.pitch_signed();
            let amp = if mp >= pp { mp - pp } else { pp - mp };
            let anm = if np >= mp { np - mp } else { mp - np };
            let sec = 2 * mp - np - pp;
            let asec = if sec >= 0 { sec } else { -sec };
            let trigger = if !bvar && mid_class / 10 < 2 && mid_class % 10 < 2 {
                amp >= tol && anm >= tol && asec >= tol
            } else if bvar && mid_class / 10 < 2 && mid_class % 10 < 2 {
                mp + 10 < pp || tol < mp - pp
            } else {
                false
            };
            assert(trigger == smooth_trigger(cfg, before, i as int));
            if trigger {
                let avg = tdiv_exec(np + pp, 2) as u16;
                let mut r = units[i + 1].request;
                r.pitch = avg;
                match self.scan(&r, false) {
                    Some((e2, s2)) => {
                        let mut u = units[i + 1];
                        u.data2 = Some(e2);
                        u.marker2 = Some(s2 + 30000);
                        units.set(i + 1, u);
                    },
                    None => {},
                }
            }
            assert(units@ == smooth_step(t, entries, cfg, before, i as int));
            i = i + 1;
        }
    }

    fn finish_one(&self, u0: UnitSelection, class_bytes: &Vec<u8>, i: usize, Ghost(orig): Ghost<Seq<UnitSelection>>) -> (r: (UnitSelection, i64))
        requires
            i < orig.len(),
            class_bytes@.len() == orig.len(),
            forall|j: int| 0 <= j < orig.len() ==> (#[trigger] class_bytes@[j]) == (active_spec(orig[j]).classcode % 256) as u8,
            u0 == set_pause_spec(orig[i as int], duration_spec(orig[i as int].request.class, self.config_spec().duration_values@, self.config_spec().duration_enabled@) as i16),
        ensures
            r.0 == final_unit(self.info().entries@, self.config_spec(), orig, i as int),
            r.1 == unit_samples(self.info().entries@, self.config_spec(), orig, i as int),
            -0x8_0000_0000 <= r.1 <= 0x8_0000_0000,
    {
        let ghost entries = self.info().entries@;
        let ghost cfg = self.config_spec();
        let n = class_bytes.len();
        let req = u0.request;
        let d = u0.active_data();
        assert(d.wlen == active_spec(orig[i as int]).wlen && d.classcode == active_spec(orig[i as int]).classcode
            && d.pitch == active_spec(orig[i as int]).pitch);
        let mut u = u0;
        let mut step: i64 = (d.wlen as i64) * 2;
        if is_real_phoneme(req.cur >> 10, req.next & 0x1f) && d.class_byte() % 10 < 2 {
            match self.scan_special(d.pitch as i16) {
                Some(extra) => {
                    u.extra = Some(extra);
                    step = step + (extra.wlen as i64) * 2;
                },
                None => {},
            }
        }
        let cur_cb = class_bytes[i];
        let mut idx: i8 = i8_div10(cur_cb);
        let mid_lo = i8_rem10(cur_cb);
        if mid_lo < idx {
            idx = mid_lo;
        }
        let other_hi = (req.class / 10) as i8;
        if idx > other_hi {
            idx = other_hi;
        }
        if i + 1 < n {
            let nlo = i8_rem10(class_bytes[i + 1]);
            if nlo == 2 {
                idx = 2;
            }
        }
        if i > 0 {
            let p_lo = i8_rem10(class_bytes[i - 1]);
            if p_lo == 2 {
                idx = 2;
            }
            let p_hi = i8_div10(class_bytes[i - 1]);
            if idx > p_hi {
                idx = p_hi;
            }
        }
        assert(idx as int == pause_index(orig, i as int));
        let arg: usize = (if idx > 0 { idx as usize } else { 0 }) % 10;
        let pause: i32 = if arg >= 1 && arg <= 4 && self.cfg.pause_enabled[arg - 1] {
            self.cfg.pause_values[arg - 1]
        } else {
            0
        };
        assert(pause == pause_value(cfg, pause_index(orig, i as int)));
        let fu = set_active_pause(u, pause as i16);
        step = step + (pause as i64) * 2;
        (fu, step)
    }

    fn final_pass(&self, units: &mut Vec<UnitSelection>) -> (total: i64)
        requires
            old(units)@.len() <= 0x0400_0000,
        ensures
            final(units)@.len() == old(units)@.len(),
            forall|i: int| 0 <= i < old(units)@.len() ==> #[trigger] final(units)@[i] == final_unit(self.info().entries@, self.config_spec(), old(units)@, i),
            total == samples_sum(self.info().entries@, self.config_spec(), old(units)@, old(units)@.len() as int),
    {
        let ghost entries = self.info().entries@;
        let ghost cfg = self.config_spec();
        let ghost orig = units@;
        let n = units.len();
        let mut k: usize = 0;
        while k < n
            invariant
                n == orig.len(),
                k <= n,
                units@.len() == n,
                forall|j: int| 0 <= j < k ==> #[trigger] units@[j] == set_pause_spec(orig[j], duration_spec(orig[j].request.class, cfg.duration_values@, cfg.duration_enabled@) as i16),
                forall|j: int| k <= j < n ==> #[trigger] units@[j] == orig[j],
                cfg == self.config_spec(),
            decreases n - k,
        {
            let d = duration_for(units[k].request.class, &self.cfg.duration_values, &self.cfg.duration_enabled);
            let u = set_active_pause(units[k], d as i16);
            units.set(k, u);
            k = k + 1;
        }
        let mut class_bytes: Vec<u8> = Vec::new();
        let mut k: usize = 0;
        while k < n
            invariant
                n == orig.len(),
                k <= n,
                units@.len() == n,
                class_bytes@.len() == k,
                forall|j: int| 0 <= j < n ==> #[trigger] units@[j] == set_pause_spec(orig[j], duration_spec(orig[j].request.class, cfg.duration_values@, cfg.duration_enabled@) as i16),
                forall|j: int| 0 <= j < k ==> (#[trigger] class_bytes@[j]) == (active_spec(orig[j]).classcode % 256) as u8,
            decreases n - k,
        {
            class_bytes.push(units[k].active_data().class_byte());
            k = k + 1;
        }
        let mut total: i64 = 0;
        let mut i: usize = 0;
        while i < n
            invariant
                n == orig.len(),
                n <= 0x0400_0000,
                i <= n,
                units@.len() == n,
                class_bytes@.len() == n,
                entries == self.info().entries@,
                cfg == self.config_spec(),
                forall|j: int| i <= j < n ==> #[trigger] units@[j] == set_pause_spec(orig[j], duration_spec(orig[j].request.class, cfg.duration_values@, cfg.duration_enabled@) as i16),
                forall|j: int| 0 <= j < i ==> #[trigger] units@[j] == final_unit(entries, cfg, orig, j),
                forall|j: int| 0 <= j < n ==> (#[trigger] class_bytes@[j]) == (active_spec(orig[j]).classcode % 256) as u8,
                total == samples_sum(entries, cfg, orig, i as int),
                -0x8_0000_0000 * i <= total <= 0x8_0000_0000 * i,
            decreases n - i,
        {
            let (fu, step) = self.finish_one(units[i], &class_bytes, i, Ghost(orig));
            units.set(i, fu);
            total = total + step;
            i = i + 1;
        }
        total
    }

    /// Select, smooth and finish the units for a run of prosody records.
    pub fn process(&mut self, records: &[ProsodyRecord]) -> (r: ProcessedUnits)
        requires
            old(self).tables().wf(),
            records@.len() <= 0x0400_0000,
        ensures
            final(self).state() == select_fold(old(self).tables(), old(self).info().entries@, old(self).config_spec(), old(self).state(), records@, records@.len() as int).0,
            final(self).info() == old(self).info(),
            final(self).tables() == old(self).tables(),
            final(self).config_spec() == old(self).config_spec(),
            r.units@.len() == smoothed(old(self).tables(), old(self).info().entries@, old(self).config_spec(), old(self).state(), records@).len(),
            forall|i: int| 0 <= i < r.units@.len() ==> #[trigger] r.units@[i] == final_unit(
                old(self).info().entries@,
                old(self).config_spec(),
                smoothed(old(self).tables(), old(self).info().entries@, old(self).config_spec(), old(self).state(), records@),
                i,
            ),
            r.total_samples == samples_sum(
                old(self).info().entries@,
                old(self).config_spec(),
                smoothed(old(self).tables(), old(self).info().entries@, old(self).config_spec(), old(self).state(), records@),
                r.units@.len() as int,
            ),
            forall|i: int| 0 <= i < r.units@.len() ==> matches_request(#[trigger] r.units@[i]),
    {
        proof {
            lemma_final_units_match(self.tables(), self.info().entries@, self.config_spec(), self.state(), records@);
            lemma_select_len(self.tables(), self.info().entries@, self.config_spec(), self.state(), records@, records@.len() as int);
        }
        let mut units = self.select_units(records);
        self.smooth(&mut units);
        let total = self.final_pass(&mut units);
        ProcessedUnits { units, total_samples: total }
    }

    /// Special unit whose pitch is nearest `target_pitch`, within the configured distance.
    pub fn scan_special(&self, target_pitch: i16) -> (r: Option<VoiceInfoEntry>)
        ensures
            r == special_fold(self.info().entries@, target_pitch, self.config_spec().special_dist_init as int, self.info().entries@.len() as int).1,
    {
        let entries = &self.info.entries;
        let mut best_dist: i32 = self.cfg.special_dist_init;
        let mut best: Option<VoiceInfoEntry> = None;
        let n = entries.len();
        let mut k: usize = 0;
        while k < n
            invariant
                n == entries@.len(),
                k <= n,
                entries@ == self.info().entries@,
                special_fold(entries@, target_pitch, self.config_spec().special_dist_init as int, k as int) == (best_dist as int, best),
            decreases n - k,
        {
            let e = entries[k];
            k = k + 1;
            if e.is_normal() {
                continue;
            }
            let tp = target_pitch as i32;
            let ep = e.pitch_signed();
            let d = if tp >= ep { tp - ep } else { ep - tp };
            if d < best_dist {
                best_dist = d;
                best = Some(e);
            }
        }
        best
    }
}

} // verus!
