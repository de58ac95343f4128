//! The 12-byte prosody record handed from G2P to unit selection.
//!
//! Layout: `+0` previous code (u16 LE), `+2` current code (u16 LE), `+4` marker,
//! `+5` flags, `+6` tone class (level × 10 + tone), `+7..+12` zero.
use vstd::prelude::*;
use crate::tone::{initial_tone_class, initial_tone_class_spec};

verus! {

/// Serialized size of a [`ProsodyRecord`].
pub const RECORD_SIZE: usize = 12;

/// Marker of the last record of a sentence.
pub const MARKER_SENTENCE_END: u8 = 1;

/// Marker of a record that follows a sentence end.
pub const MARKER_SPECIAL: u8 = 2;

/// One prosody record.
#[derive(Debug, Clone, Copy, PartialEq, Eq, Default)]
pub struct ProsodyRecord {
    /// Previous unit code.
    pub prev_code: u16,
    /// Current unit code.
    pub code: u16,
    /// Marker (0, [`MARKER_SENTENCE_END`] or [`MARKER_SPECIAL`]).
    pub marker: u8,
    /// Flags byte.
    pub flags: u8,
    /// Tone class = level × 10 + tone.
    pub tone_class: u8,
}

/// Low byte of a 16-bit value.
pub open spec fn lo_byte(x: u16) -> u8 {
    (x % 256) as u8
}

/// High byte of a 16-bit value.
pub open spec fn hi_byte(x: u16) -> u8 {
    (x / 256) as u8
}

/// Little-endian 16-bit value of two bytes.
pub open spec fn le16(lo: u8, hi: u8) -> u16 {
    (lo + 256 * hi) as u16
}

/// The 12 serialized bytes of a record.
pub open spec fn record_bytes(r: ProsodyRecord) -> Seq<u8> {
    seq![
        lo_byte(r.prev_code), hi_byte(r.prev_code), lo_byte(r.code), hi_byte(r.code),
        r.marker, r.flags, r.tone_class, 0u8, 0u8, 0u8, 0u8, 0u8,
    ]
}

/// The record that 12 (or more) bytes decode to.
pub open spec fn record_of_bytes(b: Seq<u8>) -> ProsodyRecord
    recommends
        b.len() >= 12,
{
    ProsodyRecord {
        prev_code: le16(b[0], b[1]),
        code: le16(b[2], b[3]),
        marker: b[4],
        flags: b[5],
        tone_class: b[6],
    }
}

/// Record fields after the pump's initial class mapping of a G2P marker byte.
pub open spec fn init_from_marker_spec(
    r: ProsodyRecord,
    marker_byte: u8,
    sentence_final: bool,
) -> ProsodyRecord {
    let m = marker_byte % 128;
    if m == 0 && sentence_final {
        ProsodyRecord {
            flags: marker_byte / 128,
            tone_class: 1,
            marker: MARKER_SENTENCE_END,
            ..r
        }
    } else {
        ProsodyRecord { flags: marker_byte / 128, tone_class: initial_tone_class_spec(m), ..r }
    }
}

impl ProsodyRecord {
    /// A record for `code` with every other field zero.
    pub fn new(code: u16) -> (r: Self)
        ensures
            r == (ProsodyRecord { prev_code: 0, code, marker: 0, flags: 0, tone_class: 0 }),
    {
        ProsodyRecord { prev_code: 0, code, marker: 0, flags: 0, tone_class: 0 }
    }

    /// Tone level (tens digit of the tone class).
    pub fn tone_level(&self) -> (r: u8)
        ensures
            r == self.tone_class / 10,
    {
        self.tone_class / 10
    }

    /// Tone value (units digit of the tone class).
    pub fn tone_value(&self) -> (r: u8)
        ensures
            r == self.tone_class % 10,
    {
        self.tone_class % 10
    }

    /// Serialize to the 12-byte layout.
    pub fn to_bytes(&self) -> (r: [u8; RECORD_SIZE])
        ensures
            r@ == record_bytes(*self),
    {
        let b: [u8; RECORD_SIZE] = [
            (self.prev_code % 256) as u8,
            (self.prev_code / 256) as u8,
            (self.code % 256) as u8,
            (self.code / 256) as u8,
            self.marker,
            self.flags,
            self.tone_class,
            0,
            0,
            0,
            0,
            0,
        ];
        assert(b@ =~= record_bytes(*self));
        b
    }

    /// Parse the first 12 bytes; `None` when fewer than 12 bytes are given.
    pub fn from_bytes(b: &[u8]) -> (r: Option<Self>)
        ensures
            b@.len() < RECORD_SIZE ==> r is None,
            b@.len() >= RECORD_SIZE ==> r == Some(record_of_bytes(b@)),
    {
        if b.len() < RECORD_SIZE {
            return None;
        }
        Some(
            ProsodyRecord {
                prev_code: (b[0] as u16) + 256 * (b[1] as u16),
                code: (b[2] as u16) + 256 * (b[3] as u16),
                marker: b[4],
                flags: b[5],
                tone_class: b[6],
            },
        )
    }

    /// Apply the initial tone-class mapping of a G2P marker byte: flags = bit 7, tone class from
    /// the low 7 bits; a marker of 0 on the sentence-final record marks the sentence end.
    pub fn init_from_marker(&mut self, marker_byte: u8, sentence_final: bool)
        ensures
            *final(self) == init_from_marker_spec(*old(self), marker_byte, sentence_final),
    {
        self.flags = marker_byte / 128;
        let m = marker_byte % 128;
        self.tone_class = initial_tone_class(m);
        if m == 0 && sentence_final {
            self.marker = MARKER_SENTENCE_END;
            self.tone_class = 1;
        }
    }
}

/// Decoding the serialized bytes of a record gives the record back.
pub proof fn lemma_record_bytes_roundtrip(r: ProsodyRecord)
    ensures
        record_bytes(r).len() == RECORD_SIZE,
        record_of_bytes(record_bytes(r)) == r,
{
}

} // verus!
