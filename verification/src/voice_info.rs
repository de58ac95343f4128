//! Unit index of a voice: a little-endian `u32` count followed by that many 28-byte entries.
//!
//! Entry layout: +0 cur, +2 prev, +4 next, +6 cur2 (u16 phoneme codes), +8 woff, +0xc wlen
//! (u32 sample offset and length), +0x10 unknown, +0x12 pitch, +0x14 class code, +0x16 flags
//! (u16), +0x18 pause (i16), +0x1a low offset word (u16).
use vstd::prelude::*;
use crate::connect::u32_le;
use crate::record::{hi_byte, le16, lo_byte};

verus! {

/// Size of one index entry in bytes.
pub const ENTRY_SIZE: usize = 28;

/// One unit of the voice index.
#[derive(Clone, Copy, Debug, Default, PartialEq, Eq)]
pub struct VoiceInfoEntry {
    /// Current phoneme code (the selection key).
    pub phone_cur: u16,
    /// Previous phoneme code.
    pub phone_prev: u16,
    /// Next phoneme code.
    pub phone_next: u16,
    /// Copy of the current phoneme code.
    pub phone_cur2: u16,
    /// Sample offset of the waveform in the voice data.
    pub woff: u32,
    /// Waveform length in samples.
    pub wlen: u32,
    /// Unknown word at +0x10.
    pub unk_0x10: u16,
    /// Pitch feature.
    pub pitch: u16,
    /// Phoneme class code.
    pub classcode: u16,
    /// Flags; bit 7 of the low byte marks a special unit.
    pub flags: u16,
    /// Pause length in samples.
    pub pause: i16,
    /// Low word of the waveform offset.
    pub woff_lo: u16,
}

/// Little-endian u16 at `o`.
pub open spec fn u16_at(b: Seq<u8>, o: int) -> u16 {
    le16(b[o], b[o + 1])
}

/// Little-endian u32 at `o`.
pub open spec fn u32_at(b: Seq<u8>, o: int) -> u32 {
    u32_le(b, o) as u32
}

/// The entry that 28 bytes decode to.
pub open spec fn entry_of_bytes(b: Seq<u8>) -> VoiceInfoEntry {
    VoiceInfoEntry {
        phone_cur: u16_at(b, 0x00),
        phone_prev: u16_at(b, 0x02),
        phone_next: u16_at(b, 0x04),
        phone_cur2: u16_at(b, 0x06),
        woff: u32_at(b, 0x08),
        wlen: u32_at(b, 0x0c),
        unk_0x10: u16_at(b, 0x10),
        pitch: u16_at(b, 0x12),
        classcode: u16_at(b, 0x14),
        flags: u16_at(b, 0x16),
        pause: u16_at(b, 0x18) as i16,
        woff_lo: u16_at(b, 0x1a),
    }
}

/// Little-endian bytes of a u32.
pub open spec fn u32_bytes(x: u32) -> Seq<u8> {
    seq![
        (x % 256) as u8,
        ((x / 256) % 256) as u8,
        ((x / 65536) % 256) as u8,
        (x / 16777216) as u8,
    ]
}

/// Little-endian bytes of a u16.
pub open spec fn u16_bytes(x: u16) -> Seq<u8> {
    seq![lo_byte(x), hi_byte(x)]
}

/// The 28 bytes an entry serializes to.
pub open spec fn entry_bytes(e: VoiceInfoEntry) -> Seq<u8> {
    let w = u32_bytes(e.woff);
    let l = u32_bytes(e.wlen);
    seq![
        lo_byte(e.phone_cur), hi_byte(e.phone_cur), lo_byte(e.phone_prev), hi_byte(e.phone_prev),
        lo_byte(e.phone_next), hi_byte(e.phone_next), lo_byte(e.phone_cur2), hi_byte(e.phone_cur2),
        w[0], w[1], w[2], w[3], l[0], l[1], l[2], l[3],
        lo_byte(e.unk_0x10), hi_byte(e.unk_0x10), lo_byte(e.pitch), hi_byte(e.pitch),
        lo_byte(e.classcode), hi_byte(e.classcode), lo_byte(e.flags), hi_byte(e.flags),
        lo_byte(e.pause as u16), hi_byte(e.pause as u16), lo_byte(e.woff_lo), hi_byte(e.woff_lo),
    ]
}

/// A u32 is the little-endian value of its bytes.
proof fn lemma_u32_bytes(x: u32)
    ensures
        u32_le(u32_bytes(x), 0) == x,
{
    let b = u32_bytes(x);
    assert(x == (x % 256) + 256 * ((x / 256) % 256) + 65536 * ((x / 65536) % 256) + 16777216 * (x
        / 16777216)) by (nonlinear_arith);
}

/// The bytes of a little-endian value are the bytes it was read from.
proof fn lemma_le_u32(b0: u8, b1: u8, b2: u8, b3: u8)
    ensures
        u32_bytes((b0 + 256 * b1 + 65536 * b2 + 16777216 * b3) as u32) == seq![b0, b1, b2, b3],
{
    let x = (b0 + 256 * b1 + 65536 * b2 + 16777216 * b3) as u32;
    assert(x as int == b0 + 256 * b1 + 65536 * b2 + 16777216 * b3);
    assert((x % 256) as u8 == b0 && ((x / 256) % 256) as u8 == b1 && ((x / 65536) % 256) as u8 == b2
        && (x / 16777216) as u8 == b3) by (nonlinear_arith)
        requires
            x as int == b0 + 256 * b1 + 65536 * b2 + 16777216 * b3,
    ;
    assert(u32_bytes(x) =~= seq![b0, b1, b2, b3]);
}

fn get_u16(b: &[u8; 28], o: usize) -> (r: u16)
    requires
        o + 2 <= 28,
    ensures
        r == u16_at(b@, o as int),
{
    (b[o] as u16) + 256 * (b[o + 1] as u16)
}

fn get_u32(b: &[u8; 28], o: usize) -> (r: u32)
    requires
        o + 4 <= 28,
    ensures
        r == u32_at(b@, o as int),
{
    (b[o] as u32) + 256 * (b[o + 1] as u32) + 65536 * (b[o + 2] as u32) + 16777216 * (b[o
        + 3] as u32)
}

fn put_u16(b: &mut [u8; 28], o: usize, v: u16)
    requires
        o + 2 <= 28,
    ensures
        final(b)@ == old(b)@.update(o as int, lo_byte(v)).update(o + 1, hi_byte(v)),
{
    b[o] = (v % 256) as u8;
    b[o + 1] = (v / 256) as u8;
}

fn put_u32(b: &mut [u8; 28], o: usize, v: u32)
    requires
        o + 4 <= 28,
    ensures
        final(b)@ == old(b)@.update(o as int, u32_bytes(v)[0]).update(o + 1, u32_bytes(v)[1]).update(
            o + 2,
            u32_bytes(v)[2],
        ).update(o + 3, u32_bytes(v)[3]),
{
    b[o] = (v % 256) as u8;
    b[o + 1] = ((v / 256) % 256) as u8;
    b[o + 2] = ((v / 65536) % 256) as u8;
    b[o + 3] = (v / 16777216) as u8;
}

/// Decoding the serialized bytes of an entry gives the entry back.
pub proof fn lemma_entry_roundtrip(e: VoiceInfoEntry)
    ensures
        entry_bytes(e).len() == ENTRY_SIZE,
        entry_of_bytes(entry_bytes(e)) == e,
{
    let b = entry_bytes(e);
    let p = e.pause;
    assert(((p as u16) as i16) == p) by (bit_vector);
    lemma_u32_bytes(e.woff);
    lemma_u32_bytes(e.wlen);
    assert(u32_le(b, 8) == u32_le(u32_bytes(e.woff), 0));
    assert(u32_le(b, 12) == u32_le(u32_bytes(e.wlen), 0));
    assert(u16_at(b, 0x18) == (p as u16));
}

/// Serializing the entry that bytes decode to gives the bytes back.
pub proof fn lemma_bytes_roundtrip(b: Seq<u8>)
    requires
        b.len() == ENTRY_SIZE,
    ensures
        entry_bytes(entry_of_bytes(b)) == b,
{
    let e = entry_of_bytes(b);
    let u = u16_at(b, 0x18);
    assert(((u as i16) as u16) == u) by (bit_vector);
    lemma_le_u32(b[8], b[9], b[10], b[11]);
    lemma_le_u32(b[12], b[13], b[14], b[15]);
    assert(entry_bytes(e) =~= b);
}

impl VoiceInfoEntry {
    /// Decode an entry from its 28 bytes.
    pub fn from_bytes(b: &[u8; 28]) -> (r: Self)
        ensures
            r == entry_of_bytes(b@),
    {
        VoiceInfoEntry {
            phone_cur: get_u16(b, 0x00),
            phone_prev: get_u16(b, 0x02),
            phone_next: get_u16(b, 0x04),
            phone_cur2: get_u16(b, 0x06),
            woff: get_u32(b, 0x08),
            wlen: get_u32(b, 0x0c),
            unk_0x10: get_u16(b, 0x10),
            pitch: get_u16(b, 0x12),
            classcode: get_u16(b, 0x14),
            flags: get_u16(b, 0x16),
            pause: get_u16(b, 0x18) as i16,
            woff_lo: get_u16(b, 0x1a),
        }
    }

    /// Serialize to the 28-byte layout.
    pub fn to_bytes(&self) -> (r: [u8; 28])
        ensures
            r@ == entry_bytes(*self),
    {
        let mut b = [0u8; 28];
        put_u16(&mut b, 0x00, self.phone_cur);
        put_u16(&mut b, 0x02, self.phone_prev);
        put_u16(&mut b, 0x04, self.phone_next);
        put_u16(&mut b, 0x06, self.phone_cur2);
        put_u32(&mut b, 0x08, self.woff);
        put_u32(&mut b, 0x0c, self.wlen);
        put_u16(&mut b, 0x10, self.unk_0x10);
        put_u16(&mut b, 0x12, self.pitch);
        put_u16(&mut b, 0x14, self.classcode);
        put_u16(&mut b, 0x16, self.flags);
        put_u16(&mut b, 0x18, self.pause as u16);
        put_u16(&mut b, 0x1a, self.woff_lo);
        assert(b@ =~= entry_bytes(*self));
        b
    }

    /// A normal unit: bit 7 of the low flags byte is clear.
    pub open spec fn is_normal_spec(&self) -> bool {
        self.flags % 256 < 128
    }

    /// Whether the unit takes part in normal selection.
    pub fn is_normal(&self) -> (r: bool)
        ensures
            r == self.is_normal_spec(),
    {
        (self.flags % 256) < 128
    }

    /// Whether the unit is special (excluded from normal selection).
    pub fn is_special(&self) -> (r: bool)
        ensures
            r == !self.is_normal_spec(),
    {
        !self.is_normal()
    }

    /// Low byte of the class code.
    pub fn class_byte(&self) -> (r: u8)
        ensures
            r == self.classcode % 256,
    {
        (self.classcode % 256) as u8
    }

    /// High byte of the class code.
    pub fn class_hi_byte(&self) -> (r: u8)
        ensures
            r == self.classcode / 256,
    {
        (self.classcode / 256) as u8
    }

    /// Pitch read as a signed 16-bit value.
    pub fn pitch_signed(&self) -> (r: i32)
        ensures
            r == (self.pitch as i16) as int,
    {
        (self.pitch as i16) as i32
    }
}

/// Why a voice index buffer was refused.
#[derive(Debug, Clone, Copy, PartialEq, Eq)]
pub enum VoiceInfoError {
    /// Fewer than 4 bytes.
    TooShort { len: usize },
    /// `4 + 28 × count` does not fit in `usize`.
    CountOverflow { count: usize },
    /// The buffer is not exactly `4 + 28 × count` bytes.
    SizeMismatch { len: usize, count: usize },
}

/// The whole unit index.
#[derive(Clone, Debug, Default)]
pub struct VoiceInfo {
    /// Entries in file order.
    pub entries: Vec<VoiceInfoEntry>,
}

/// Whether a buffer is exactly a count and that many entries.
pub open spec fn voice_info_layout_ok(d: Seq<u8>) -> bool {
    d.len() >= 4 && d.len() == 4 + 28 * u32_le(d, 0)
}

/// Entry `i` of a well-formed buffer.
pub open spec fn entry_at(d: Seq<u8>, i: int) -> VoiceInfoEntry {
    entry_of_bytes(d.subrange(4 + 28 * i, 4 + 28 * i + 28))
}

/// Each unit's waveform starts where the previous one ends (offsets wrap at 2^32).
pub open spec fn woff_chain_spec(e: Seq<VoiceInfoEntry>) -> bool {
    forall|i: int|
        0 <= i < e.len() - 1 ==> (#[trigger] e[i + 1]).woff == (e[i].woff + e[i].wlen) % 0x1_0000_0000
}

/// Sum of the waveform lengths of the first `n` entries.
pub open spec fn wlen_sum(e: Seq<VoiceInfoEntry>, n: int) -> int
    decreases n,
{
    if n <= 0 {
        0
    } else {
        wlen_sum(e, n - 1) + e[n - 1].wlen
    }
}

proof fn lemma_wlen_sum_mono(e: Seq<VoiceInfoEntry>, i: int, j: int)
    requires
        0 <= i <= j,
    ensures
        wlen_sum(e, i) <= wlen_sum(e, j),
    decreases j - i,
{
    if i < j {
        lemma_wlen_sum_mono(e, i, j - 1);
    }
}

fn copy_entry_bytes(data: &[u8], o: usize) -> (r: [u8; 28])
    requires
        o + 28 <= data@.len(),
    ensures
        r@ == data@.subrange(o as int, o + 28),
{
    let len = data.len();
    let mut b = [0u8; 28];
    let mut k: usize = 0;
    while k < 28
        invariant
            k <= 28,
            len == data@.len(),
            o + 28 <= len,
            forall|j: int| 0 <= j < k ==> b@[j] == data@[o + j],
        decreases 28 - k,
    {
        b[k] = data[o + k];
        k = k + 1;
    }
    assert(b@ =~= data@.subrange(o as int, o + 28));
    b
}

impl VoiceInfo {
    /// Parse a unit index; `Ok` exactly when the buffer is a count followed by that many entries.
    pub fn from_bytes(data: &[u8]) -> (r: Result<Self, VoiceInfoError>)
        ensures
            r is Ok <==> voice_info_layout_ok(data@),
            r matches Ok(v) ==> v.entries@.len() == u32_le(data@, 0) && forall|i: int|
                0 <= i < v.entries@.len() ==> #[trigger] v.entries@[i] == entry_at(data@, i),
            r matches Err(VoiceInfoError::TooShort { .. }) <==> data@.len() < 4,
    {
        let len = data.len();
        if len < 4 {
            return Err(VoiceInfoError::TooShort { len });
        }
        let count = ((data[0] as u32) + 256 * (data[1] as u32) + 65536 * (data[2] as u32)
            + 16777216 * (data[3] as u32)) as usize;
        if count > (usize::MAX - 4) / 28 {
            proof {
                assert(28 * count + 4 > usize::MAX) by (nonlinear_arith)
                    requires
                        count > (usize::MAX - 4) / 28,
                ;
            }
            return Err(VoiceInfoError::CountOverflow { count });
        }
        let need = 4 + count * 28;
        if len != need {
            return Err(VoiceInfoError::SizeMismatch { len, count });
        }
        let mut entries: Vec<VoiceInfoEntry> = Vec::new();
        let mut i: usize = 0;
        while i < count
            invariant
                i <= count,
                len == data@.len(),
                len == 4 + count * 28,
                entries@.len() == i,
                forall|j: int| 0 <= j < i ==> #[trigger] entries@[j] == entry_at(data@, j),
            decreases count - i,
        {
            proof {
                assert(4 + 28 * i + 28 <= len) by (nonlinear_arith)
                    requires
                        i < count,
                        len == 4 + count * 28,
                ;
            }
            let b = copy_entry_bytes(data, 4 + i * 28);
            entries.push(VoiceInfoEntry::from_bytes(&b));
            i = i + 1;
        }
        Ok(VoiceInfo { entries })
    }

    /// Number of entries.
    pub fn count(&self) -> (r: usize)
        ensures
            r == self.entries@.len(),
    {
        self.entries.len()
    }

    /// Whether each unit's waveform starts where the previous one ends.
    pub fn woff_chain_ok(&self) -> (r: bool)
        ensures
            r == woff_chain_spec(self.entries@),
    {
        let n = self.entries.len();
        if n < 2 {
            return true;
        }
        let mut i: usize = 0;
        while i < n - 1
            invariant
                n == self.entries@.len(),
                n >= 2,
                i <= n - 1,
                forall|j: int|
                    0 <= j < i ==> (#[trigger] self.entries@[j + 1]).woff == (self.entries@[j].woff
                        + self.entries@[j].wlen) % 0x1_0000_0000,
            decreases n - 1 - i,
        {
            let a = self.entries[i];
            let b = self.entries[i + 1];
            if b.woff != a.woff.wrapping_add(a.wlen) {
                assert(!woff_chain_spec(self.entries@)) by {
                    assert(self.entries@[i as int + 1].woff != (self.entries@[i as int].woff
                        + self.entries@[i as int].wlen) % 0x1_0000_0000);
                }
                return false;
            }
            i = i + 1;
        }
        true
    }

    /// Whether every entry repeats its current phoneme code in the copy field.
    pub fn cur_dup_ok(&self) -> (r: bool)
        ensures
            r == forall|i: int|
                0 <= i < self.entries@.len() ==> (#[trigger] self.entries@[i]).phone_cur
                    == self.entries@[i].phone_cur2,
    {
        let n = self.entries.len();
        let mut i: usize = 0;
        while i < n
            invariant
                n == self.entries@.len(),
                i <= n,
                forall|j: int|
                    0 <= j < i ==> (#[trigger] self.entries@[j]).phone_cur
                        == self.entries@[j].phone_cur2,
            decreases n - i,
        {
            if self.entries[i].phone_cur != self.entries[i].phone_cur2 {
                return false;
            }
            i = i + 1;
        }
        true
    }

    /// Total waveform length in samples.
    pub fn total_samples(&self) -> (r: u64)
        requires
            wlen_sum(self.entries@, self.entries@.len() as int) <= u64::MAX,
        ensures
            r == wlen_sum(self.entries@, self.entries@.len() as int),
    {
        let n = self.entries.len();
        let mut sum: u64 = 0;
        let mut i: usize = 0;
        while i < n
            invariant
                n == self.entries@.len(),
                i <= n,
                sum == wlen_sum(self.entries@, i as int),
                wlen_sum(self.entries@, n as int) <= u64::MAX,
            decreases n - i,
        {
            proof {
                lemma_wlen_sum_mono(self.entries@, i + 1, n as int);
            }
            sum = sum + self.entries[i].wlen as u64;
            i = i + 1;
        }
        sum
    }
}

} // verus!
