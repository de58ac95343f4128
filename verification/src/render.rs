//! Rendering units and the bounded ring of PCM chunks handed to the consumer.
use vstd::prelude::*;

verus! {

/// Slots of the chunk ring; one slot stays free, so at most `RING_SLOTS - 1` chunks are queued.
pub const RING_SLOTS: usize = 20;

/// Most PCM bytes the ring holds at once.
pub const RING_MAX_BYTES: usize = 0xFFFFF;

/// Waveform reference and prosody of one selected unit.
#[derive(Clone, Copy, Debug, Default, PartialEq, Eq)]
pub struct UnitRecord {
    /// Sample offset of the waveform.
    pub woff: u32,
    /// Waveform length in samples.
    pub wlen: u32,
    /// Pitch feature.
    pub pitch: i16,
    /// Low byte of the class code.
    pub classcode: u8,
    /// Silence after the unit, in samples.
    pub pause: i16,
}

impl UnitRecord {
    /// A unit with the given waveform and every other field zero.
    pub fn new(woff: u32, wlen: u32) -> (r: Self)
        ensures
            r == (UnitRecord { woff, wlen, pitch: 0, classcode: 0, pause: 0 }),
    {
        UnitRecord { woff, wlen, pitch: 0, classcode: 0, pause: 0 }
    }
}

/// One unit to render, with the codes around it and an optional second waveform.
#[derive(Clone, Copy, Debug, Default)]
pub struct RenderUnit {
    /// Current phoneme code.
    pub code_cur: u16,
    /// Next phoneme code.
    pub code_next: u16,
    /// The unit's waveform.
    pub record: UnitRecord,
    /// Waveform appended after a real phoneme, if any.
    pub extra: Option<UnitRecord>,
}

/// Real phonemes: the next code's low field is outside {1, 4, 6, 8..=14, 16, 17, 18}, and not
/// (low field 3 after class 6).
pub open spec fn render_real_spec(high6_cur: u16, low5_next: u16) -> bool {
    !((low5_next == 1 || low5_next == 4 || low5_next == 6 || (8 <= low5_next <= 0xe) || low5_next
        == 0x10 || low5_next == 0x11 || low5_next == 0x12) || (low5_next == 3 && high6_cur == 6))
}

/// Whether the unit before a code with low field `low5_next` is a real phoneme.
pub fn is_real_phoneme(high6_cur: u16, low5_next: u16) -> (r: bool)
    ensures
        r == render_real_spec(high6_cur, low5_next),
{
    !((low5_next == 1 || low5_next == 4 || low5_next == 6 || (8 <= low5_next && low5_next <= 0xe)
        || low5_next == 0x10 || low5_next == 0x11 || low5_next == 0x12) || (low5_next == 3
        && high6_cur == 6))
}

/// [`is_real_phoneme`] on the current code's class and the next code's low field.
pub fn is_real_phoneme_codes(cur: u16, next: u16) -> (r: bool)
    ensures
        r == render_real_spec(cur >> 10, next & 0x1f),
{
    is_real_phoneme(cur >> 10, next & 0x1f)
}

/// A block of rendered PCM bytes.
#[derive(Debug, Clone)]
pub struct Chunk {
    /// PCM bytes.
    pub data: Vec<u8>,
    /// First parameter word (zero).
    pub p1: u32,
    /// Second parameter word (zero).
    pub p2: u32,
}

impl Chunk {
    /// A chunk holding `data`.
    pub fn new(data: Vec<u8>) -> (r: Self)
        ensures
            r.data@ == data@,
            r.p1 == 0,
            r.p2 == 0,
    {
        Chunk { data, p1: 0, p2: 0 }
    }
}

/// Total bytes of a sequence of chunks.
pub open spec fn bytes_sum(s: Seq<Chunk>) -> int
    decreases s.len(),
{
    if s.len() == 0 {
        0
    } else {
        s[0].data@.len() + bytes_sum(s.drop_first())
    }
}

/// Appending a chunk adds its size.
pub proof fn lemma_bytes_sum_push(s: Seq<Chunk>, c: Chunk)
    ensures
        bytes_sum(s.push(c)) == bytes_sum(s) + c.data@.len(),
    decreases s.len(),
{
    let t = s.push(c);
    if s.len() > 0 {
        assert(t[0] == s[0]);
        assert(t.drop_first() =~= s.drop_first().push(c));
        lemma_bytes_sum_push(s.drop_first(), c);
        assert(bytes_sum(t) == t[0].data@.len() + bytes_sum(t.drop_first()));
    } else {
        assert(t.drop_first() =~= Seq::<Chunk>::empty());
        assert(bytes_sum(t.drop_first()) == 0);
        assert(t[0] == c);
    }
}

/// Byte totals are never negative.
pub proof fn lemma_bytes_sum_nonneg(s: Seq<Chunk>)
    ensures
        bytes_sum(s) >= 0,
    decreases s.len(),
{
    if s.len() > 0 {
        lemma_bytes_sum_nonneg(s.drop_first());
    }
}

/// First-in first-out ring of PCM chunks with a slot limit and a byte limit.
pub struct ChunkRing {
    slots: Vec<Option<Chunk>>,
    head: usize,
    tail: usize,
    total: usize,
}

/// Number of occupied slots from `head` to `tail`.
pub open spec fn ring_count(head: int, tail: int) -> int {
    if tail >= head {
        tail - head
    } else {
        RING_SLOTS - head + tail
    }
}

impl ChunkRing {
    /// Queued chunks, oldest first.
    pub closed spec fn chunks(&self) -> Seq<Chunk> {
        Seq::new(
            ring_count(self.head as int, self.tail as int) as nat,
            |k: int| self.slots@[(self.head + k) % (RING_SLOTS as int)]->0,
        )
    }

    /// Slots, indices and byte count agree.
    pub closed spec fn wf(&self) -> bool {
        &&& self.slots@.len() == RING_SLOTS
        &&& self.head < RING_SLOTS
        &&& self.tail < RING_SLOTS
        &&& forall|k: int|
            0 <= k < ring_count(self.head as int, self.tail as int) ==> (#[trigger] self.slots@[(
            self.head + k) % (RING_SLOTS as int)]) is Some
        &&& self.total == bytes_sum(self.chunks())
        &&& self.total <= RING_MAX_BYTES
    }

    /// An empty ring.
    pub fn new() -> (r: Self)
        ensures
            r.wf(),
            r.chunks() == Seq::<Chunk>::empty(),
    {
        let mut slots: Vec<Option<Chunk>> = Vec::new();
        let mut i: usize = 0;
        while i < RING_SLOTS
            invariant
                i <= RING_SLOTS,
                slots@.len() == i,
            decreases RING_SLOTS - i,
        {
            slots.push(None);
            i = i + 1;
        }
        let r = ChunkRing { slots, head: 0, tail: 0, total: 0 };
        assert(r.chunks() =~= Seq::<Chunk>::empty());
        r
    }

    /// Whether a chunk of `size` bytes fits: a free slot remains and the byte limit holds.
    pub fn can_push(&self, size: usize) -> (r: bool)
        requires
            self.wf(),
        ensures
            r == (self.chunks().len() < RING_SLOTS - 1 && bytes_sum(self.chunks()) + size
                <= RING_MAX_BYTES),
    {
        let full = (self.tail + 1) % RING_SLOTS == self.head;
        !full && size <= RING_MAX_BYTES - self.total
    }

    /// Queue `chunk` when it fits; otherwise leave the ring unchanged and return `false`.
    pub fn push(&mut self, chunk: Chunk) -> (r: bool)
        requires
            old(self).wf(),
        ensures
            final(self).wf(),
            r == (old(self).chunks().len() < RING_SLOTS - 1 && bytes_sum(old(self).chunks())
                + chunk.data@.len() <= RING_MAX_BYTES),
            r ==> final(self).chunks() == old(self).chunks().push(chunk),
            r ==> bytes_sum(final(self).chunks()) == bytes_sum(old(self).chunks()) + chunk.data@.len(),
            !r ==> final(self).chunks() == old(self).chunks(),
    {
        if !self.can_push(chunk.data.len()) {
            return false;
        }
        let ghost old_chunks = self.chunks();
        proof {
            lemma_bytes_sum_push(old_chunks, chunk);
        }
        let t = self.tail;
        self.total = self.total + chunk.data.len();
        self.slots.set(t, Some(chunk));
        self.tail = (t + 1) % RING_SLOTS;
        assert(self.chunks() =~= old_chunks.push(chunk));
        true
    }

    /// Whether no chunk is queued.
    pub fn is_empty(&self) -> (r: bool)
        requires
            self.wf(),
        ensures
            r == (self.chunks().len() == 0),
    {
        self.head == self.tail
    }

    /// Number of queued chunks.
    pub fn len(&self) -> (r: usize)
        requires
            self.wf(),
        ensures
            r == self.chunks().len(),
            r < RING_SLOTS,
    {
        if self.tail >= self.head {
            self.tail - self.head
        } else {
            RING_SLOTS - self.head + self.tail
        }
    }

    /// Bytes held by the queued chunks.
    pub fn total_bytes(&self) -> (r: usize)
        requires
            self.wf(),
        ensures
            r == bytes_sum(self.chunks()),
            r <= RING_MAX_BYTES,
    {
        self.total
    }

    /// Take the oldest chunk, or `None` when the ring is empty.
    #[verifier::rlimit(80)]
    pub fn pop(&mut self) -> (r: Option<Chunk>)
        requires
            old(self).wf(),
        ensures
            final(self).wf(),
            old(self).chunks().len() == 0 ==> r is None && final(self).chunks() == old(self).chunks(),
            old(self).chunks().len() > 0 ==> r == Some(old(self).chunks()[0])
                && final(self).chunks() == old(self).chunks().drop_first(),
            r matches Some(c) ==> bytes_sum(final(self).chunks()) == bytes_sum(old(self).chunks())
                - c.data@.len(),
    {
        if self.is_empty() {
            return None;
        }
        let ghost old_chunks = self.chunks();
        let ghost old_slots = self.slots@;
        let h = self.head;
        assert((h + 0) % (RING_SLOTS as int) == h);
        assert(old_slots[(h + 0) % (RING_SLOTS as int)] is Some);
        assert(old_chunks[0] == old_slots[h as int]->0);
        proof {
            lemma_bytes_sum_nonneg(old_chunks.drop_first());
        }
        assert(bytes_sum(old_chunks) == old_chunks[0].data@.len() + bytes_sum(old_chunks.drop_first()));
        let c = self.slots.remove(h);
        assert(c == old_slots[h as int]);
        self.slots.insert(h, None);
        self.head = (h + 1) % RING_SLOTS;
        let chunk = match c {
            Some(x) => x,
            None => {
                return None;
            },
        };
        assert(self.chunks() =~= old_chunks.drop_first());
        let ghost n = ring_count(h as int, self.tail as int);
        assert forall|k: int| 0 <= k < ring_count(self.head as int, self.tail as int) implies (
        #[trigger] self.slots@[(self.head + k) % (RING_SLOTS as int)]) is Some by {
            assert(ring_count(self.head as int, self.tail as int) == n - 1);
            assert((self.head + k) % (RING_SLOTS as int) == (h + (k + 1)) % (RING_SLOTS as int));
            assert(old_slots[(h + (k + 1)) % (RING_SLOTS as int)] is Some);
            assert((h + (k + 1)) % (RING_SLOTS as int) != h);
        }
        self.total = self.total - chunk.data.len();
        Some(chunk)
    }
}

} // verus!
