//! An analyzer record of one word: a fixed-size byte block whose morpheme count and
//! slots are checked when it is taken in.
use vstd::prelude::*;
use crate::text::slice_to_vec;

verus! {

/// Size of an analyzer record.
pub const SECOND_RECORD_SIZE: usize = 0x1dcc;

/// Offset of the morpheme context bytes.
pub const SECOND_MORPH_CONTEXT_OFFSET: usize = 0x1578;

/// Offset of the morpheme types.
pub const SECOND_MORPH_TYPE_OFFSET: usize = 0x157c;

/// Offset of the morpheme flag blocks (0x14 bytes each).
pub const SECOND_MORPH_FLAGS_OFFSET: usize = 0x15cc;

/// Offset of the morpheme count (u32 LE).
pub const SECOND_COUNT_OFFSET: usize = 0x1db0;

/// Size of one morpheme slot.
pub const SLOT_SIZE: usize = 0x32;

/// An analyzer record, kept byte for byte.
#[derive(Debug, PartialEq, Eq)]
pub struct RawSecondRecord {
    bytes: Vec<u8>,
}

impl Clone for RawSecondRecord {
    fn clone(&self) -> (r: Self)
        ensures
            r.view_bytes() == self.view_bytes(),
    {
        proof {
            use_type_invariant(self);
        }
        RawSecondRecord { bytes: slice_to_vec(self.bytes.as_slice()) }
    }
}

/// Why a byte block is no analyzer record.
#[derive(Debug, Clone, PartialEq, Eq)]
pub enum SecondRecordError {
    /// The block is not [`SECOND_RECORD_SIZE`] bytes long.
    InvalidLength { expected: usize, actual: usize },
    /// The morpheme count is 0 or its tables do not fit in the record.
    InvalidMorphCount(usize),
    /// A slot that must hold a NUL-terminated string has no NUL.
    MissingSlotTerminator { index: usize },
}

/// Little-endian u32 at `o`.
pub open spec fn u32_at(b: Seq<u8>, o: int) -> int {
    b[o] + 256 * b[o + 1] + 65536 * b[o + 2] + 16777216 * b[o + 3]
}

/// Whether slot `index` holds a NUL byte.
pub open spec fn slot_terminated(b: Seq<u8>, index: int) -> bool {
    exists|k: int| index * 0x32 <= k < index * 0x32 + 0x32 && b[k] == 0
}

/// Whether the morpheme tables of `count` morphemes fit in a record.
pub open spec fn count_fits(count: int) -> bool {
    &&& count != 0
    &&& SECOND_MORPH_CONTEXT_OFFSET + count + 4 <= SECOND_RECORD_SIZE
    &&& SECOND_MORPH_TYPE_OFFSET + count <= SECOND_RECORD_SIZE
    &&& SECOND_MORPH_FLAGS_OFFSET + (count + 1) * 0x14 <= SECOND_RECORD_SIZE
    &&& (count + 10) * 0x32 <= SECOND_RECORD_SIZE
}

/// Outcome of checking a byte block: the length, then the count, then the NUL of slot 10, then
/// that of the last morpheme's slot (`count + 9`).
pub open spec fn parse_result(b: Seq<u8>) -> Result<(), SecondRecordError> {
    if b.len() != SECOND_RECORD_SIZE {
        Err(SecondRecordError::InvalidLength { expected: SECOND_RECORD_SIZE, actual: b.len() as usize })
    } else {
        let count = u32_at(b, SECOND_COUNT_OFFSET as int);
        if !count_fits(count) {
            Err(SecondRecordError::InvalidMorphCount(count as usize))
        } else if !slot_terminated(b, 10) {
            Err(SecondRecordError::MissingSlotTerminator { index: 10 })
        } else if !slot_terminated(b, count + 9) {
            Err(SecondRecordError::MissingSlotTerminator { index: (count + 9) as usize })
        } else {
            Ok(())
        }
    }
}

/// Little-endian u32 at `offset`.
fn read_u32_le(bytes: &[u8], offset: usize) -> (r: u32)
    requires
        offset + 4 <= bytes@.len(),
    ensures
        r == u32_at(bytes@, offset as int),
{
    (bytes[offset] as u32) + 256 * (bytes[offset + 1] as u32) + 65536 * (bytes[offset + 2] as u32)
        + 16777216 * (bytes[offset + 3] as u32)
}

/// Whether slot `index` holds a NUL byte.
fn slot_has_nul(bytes: &[u8], index: usize) -> (r: bool)
    requires
        (index + 1) * 0x32 <= bytes@.len(),
    ensures
        r == slot_terminated(bytes@, index as int),
{
    let n = bytes.len();
    assert(index * 0x32 + 0x32 <= n);
    let start = index * SLOT_SIZE;
    let end = start + SLOT_SIZE;
    let mut k = start;
    while k < end
        invariant
            start <= k <= end,
            start == index * 0x32,
            end == start + 0x32,
            end <= bytes@.len(),
            forall|q: int| start <= q < k ==> bytes@[q] != 0,
        decreases end - k,
    {
        if bytes[k] == 0 {
            return true;
        }
        k = k + 1;
    }
    false
}

/// Morpheme type byte `i` (the types are read from three bytes before their table, so index 3
/// is the first morpheme's type); 0 past the end of the record.
pub open spec fn morph_type_at(b: Seq<u8>, i: int) -> u8 {
    if 0 <= SECOND_MORPH_TYPE_OFFSET - 3 + i < b.len() {
        b[SECOND_MORPH_TYPE_OFFSET - 3 + i]
    } else {
        0
    }
}

/// First byte of morpheme flag block `i`; 0 past the end of the record.
pub open spec fn morph_flag_at(b: Seq<u8>, i: int) -> u8 {
    if 0 <= SECOND_MORPH_FLAGS_OFFSET + i * 0x14 < b.len() {
        b[SECOND_MORPH_FLAGS_OFFSET + i * 0x14]
    } else {
        0
    }
}

/// Whether slot `i` lies inside the record.
pub open spec fn slot_in(b: Seq<u8>, i: int) -> bool {
    0 <= i && (i + 1) * 0x32 <= b.len()
}

/// Whether slot `i` holds the string `e`: the slot lies inside the record and starts with the
/// bytes of `e` followed by a NUL.
pub open spec fn slot_holds(b: Seq<u8>, i: int, e: Seq<u8>) -> bool {
    &&& slot_in(b, i)
    &&& e.len() < 0x32
    &&& b.subrange(i * 0x32, i * 0x32 + e.len()) == e
    &&& b[i * 0x32 + e.len()] == 0
}

impl RawSecondRecord {
    /// The record's bytes.
    pub closed spec fn view_bytes(&self) -> Seq<u8> {
        self.bytes@
    }

    /// A record is a checked block: of the right size, with a morpheme count that fits.
    #[verifier::type_invariant]
    spec fn inv(self) -> bool {
        &&& self.bytes@.len() == SECOND_RECORD_SIZE
        &&& count_fits(u32_at(self.bytes@, SECOND_COUNT_OFFSET as int))
    }

    /// Take a byte block as an analyzer record (see [`parse_result`]); on success the record
    /// holds exactly the block.
    pub fn parse(bytes: &[u8]) -> (r: Result<Self, SecondRecordError>)
        ensures
            match r {
                Ok(rec) => parse_result(bytes@) == Ok::<(), SecondRecordError>(()) && rec.view_bytes() == bytes@,
                Err(e) => parse_result(bytes@) == Err::<(), SecondRecordError>(e),
            },
    {
        if bytes.len() != SECOND_RECORD_SIZE {
            return Err(SecondRecordError::InvalidLength { expected: SECOND_RECORD_SIZE, actual: bytes.len() });
        }
        let count = read_u32_le(bytes, SECOND_COUNT_OFFSET) as usize;
        if count == 0 {
            return Err(SecondRecordError::InvalidMorphCount(count));
        }
        if count > SECOND_RECORD_SIZE {
            return Err(SecondRecordError::InvalidMorphCount(count));
        }
        let type_end = SECOND_MORPH_TYPE_OFFSET + count;
        let context_end = SECOND_MORPH_CONTEXT_OFFSET + (count + 4);
        let flags_end = SECOND_MORPH_FLAGS_OFFSET + (count + 1) * 0x14;
        let slots_end = (count + 10) * SLOT_SIZE;
        if context_end > SECOND_RECORD_SIZE || type_end > SECOND_RECORD_SIZE || flags_end > SECOND_RECORD_SIZE
            || slots_end > SECOND_RECORD_SIZE {
            return Err(SecondRecordError::InvalidMorphCount(count));
        }
        let terminal_slot = count + 9;
        if !slot_has_nul(bytes, 10) {
            return Err(SecondRecordError::MissingSlotTerminator { index: 10 });
        }
        if !slot_has_nul(bytes, terminal_slot) {
            return Err(SecondRecordError::MissingSlotTerminator { index: terminal_slot });
        }
        let mut out: Vec<u8> = Vec::new();
        let mut i: usize = 0;
        while i < bytes.len()
            invariant
                i <= bytes@.len(),
                out@ == bytes@.subrange(0, i as int),
            decreases bytes@.len() - i,
        {
            out.push(bytes[i]);
            i = i + 1;
            assert(out@ =~= bytes@.subrange(0, i as int));
        }
        assert(out@ =~= bytes@);
        assert(count_fits(u32_at(bytes@, SECOND_COUNT_OFFSET as int)));
        Ok(RawSecondRecord { bytes: out })
    }

    /// The record's bytes.
    pub fn as_bytes(&self) -> (r: &[u8])
        ensures
            r@ == self.view_bytes(),
    {
        self.bytes.as_slice()
    }

    /// The morpheme count stored in the record; its tables fit in the record.
    pub fn morph_count(&self) -> (r: usize)
        ensures
            r == u32_at(self.view_bytes(), SECOND_COUNT_OFFSET as int),
            count_fits(r as int),
            self.view_bytes().len() == SECOND_RECORD_SIZE,
    {
        proof {
            use_type_invariant(self);
        }
        read_u32_le(self.bytes.as_slice(), SECOND_COUNT_OFFSET) as usize
    }

    /// Morpheme type byte `i` (see [`morph_type_at`]).
    pub fn morph_type(&self, i: usize) -> (r: u8)
        ensures
            r == morph_type_at(self.view_bytes(), i as int),
    {
        proof {
            use_type_invariant(self);
        }
        if i < SECOND_RECORD_SIZE - (SECOND_MORPH_TYPE_OFFSET - 3) {
            self.bytes[SECOND_MORPH_TYPE_OFFSET - 3 + i]
        } else {
            0
        }
    }

    /// First byte of morpheme flag block `i` (see [`morph_flag_at`]).
    pub fn morph_flag(&self, i: usize) -> (r: u8)
        ensures
            r == morph_flag_at(self.view_bytes(), i as int),
    {
        proof {
            use_type_invariant(self);
        }
        if i < SECOND_RECORD_SIZE {
            let off = SECOND_MORPH_FLAGS_OFFSET + i * 0x14;
            if off < SECOND_RECORD_SIZE {
                return self.bytes[off];
            }
        }
        0
    }

    /// Whether slot `i` lies inside the record.
    pub fn has_slot(&self, i: usize) -> (r: bool)
        ensures
            r == slot_in(self.view_bytes(), i as int),
    {
        proof {
            use_type_invariant(self);
        }
        i < SECOND_RECORD_SIZE / SLOT_SIZE
    }

    /// Whether slot `i` holds the string `e` (see [`slot_holds`]).
    pub fn slot_holds(&self, i: usize, e: &[u8]) -> (r: bool)
        ensures
            r == slot_holds(self.view_bytes(), i as int, e@),
    {
        proof {
            use_type_invariant(self);
        }
        if i >= SECOND_RECORD_SIZE / SLOT_SIZE || e.len() >= SLOT_SIZE {
            return false;
        }
        assert(i * 0x32 + 0x32 <= SECOND_RECORD_SIZE) by (nonlinear_arith)
            requires
                i < 152,
        ;
        let start = i * SLOT_SIZE;
        let mut k: usize = 0;
        while k < e.len()
            invariant
                k <= e@.len() < 0x32,
                start == i * 0x32,
                start + 0x32 <= self.bytes@.len() == SECOND_RECORD_SIZE,
                forall|q: int| 0 <= q < k ==> self.bytes@[start + q] == e@[q],
            decreases e@.len() - k,
        {
            if self.bytes[start + k] != e[k] {
                assert(self.bytes@.subrange(start as int, start + e@.len())[k as int] != e@[k as int]);
                return false;
            }
            k = k + 1;
        }
        assert(self.bytes@.subrange(start as int, start + e@.len()) =~= e@);
        self.bytes[start + e.len()] == 0
    }
}

} // verus!
