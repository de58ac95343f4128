//! Per-unit rendering decisions: which extra unit to read after a unit and how much silence
//! follows it.
use vstd::prelude::*;
use crate::render::{is_real_phoneme, render_real_spec, RenderUnit};

verus! {

/// Remainder of the signed byte `c` by 10, truncated toward zero as Rust's `%` does.
pub open spec fn trunc_rem10(c: i8) -> int {
    let x = c as int;
    if x >= 0 {
        x % 10
    } else {
        -((-x) % 10)
    }
}

/// The extra unit read after a unit, as (offset, length): when the unit is a real phoneme
/// before its successor, its class (a signed byte) leaves a remainder below 2 by 10, and the
/// extra unit has a pitch.
pub open spec fn extra_read_spec(u: RenderUnit) -> Option<(u32, u32)> {
    if render_real_spec(u.code_cur / 1024, u.code_next % 32) && trunc_rem10(u.record.classcode as i8) < 2 {
        match u.extra {
            Some(e) => if e.pitch != 0 {
                Some((e.woff, e.wlen))
            } else {
                None
            },
            None => None,
        }
    } else {
        None
    }
}

/// The extra unit to read after a unit (see [`extra_read_spec`]).
pub fn extra_unit_read(u: &RenderUnit) -> (r: Option<(u32, u32)>)
    ensures
        r == extra_read_spec(*u),
{
    let class_i8 = u.record.classcode as i8;
    let cur = u.code_cur;
    let next = u.code_next;
    assert((cur >> 10) == cur / 1024 && (next & 0x1f) == next % 32) by (bit_vector);
    if is_real_phoneme(u.code_cur >> 10, u.code_next & 0x1f) && class_i8 % 10 < 2 {
        if let Some(extra) = u.extra {
            if extra.pitch != 0 {
                return Some((extra.woff, extra.wlen));
            }
        }
    }
    None
}

/// Bytes of silence after a unit: two per pause sample when the pause is positive.
pub fn pause_silence_bytes(u: &RenderUnit) -> (r: usize)
    ensures
        r == (if u.record.pause > 0 { 2 * u.record.pause } else { 0 }),
{
    if u.record.pause > 0 {
        (u.record.pause as usize) * 2
    } else {
        0
    }
}

} // verus!
