//! Dictionary pkg parser: double-array trie + TAIL strings + record sub-structures.
//!
//! Layout: `[u32 n1][u32 n2][BASE i32 x n1][CHECK u8 x n1][TAIL u8 x n2][sub A][sub B]`,
//! where each sub-structure is `[u32 count][u32 npairs][npairs x (u32, u32)][count x rec_size]`
//! (record size 6 for A, 26 for B). All integers are little-endian.
use vstd::prelude::*;
use crate::connect::u32_le;
use crate::g2p::g2p_dict::{key_code_ok, key_codes_from, lemma_key_round_trip};

verus! {

/// Key terminator byte used by the trie.
pub const KEY_END: u8 = 0x50;

/// 6-byte record of sub-structure A.
#[derive(Clone, Copy, Debug, PartialEq, Eq)]
pub struct SubARecord {
    pub kind: u8,
    pub sub: u8,
    pub v0: u16,
    pub v1: u16,
}

/// Entry stored after a TAIL string: `x` (u16) and `y` (u8).
#[derive(Clone, Copy, Debug, PartialEq, Eq)]
pub struct TailEntry {
    pub x: u16,
    pub y: u8,
}

impl TailEntry {
    /// `x | (y << 16)`.
    pub fn value(self) -> (r: u32)
        ensures
            r == self.x + 65536 * self.y,
    {
        (self.x as u32) + 65536 * (self.y as u32)
    }
}

/// Result of a prefix search: TAIL offset of the entry and number of key bytes matched.
#[derive(Clone, Copy, Debug, PartialEq, Eq)]
pub struct PrefixMatch {
    pub tail_offset: usize,
    pub matched: usize,
}

/// Why a dictionary buffer was rejected.
#[derive(Clone, Copy, Debug, PartialEq, Eq)]
pub enum DictErrorKind {
    /// `need` bytes were needed at offset `at` but the buffer is shorter.
    Truncated { need: usize, at: usize },
    /// A count times its element size does not fit in memory.
    Overflow,
    /// The layout ended at `consumed` but the buffer is longer.
    SizeMismatch { consumed: usize },
}

/// Dictionary parse error.
#[derive(Clone, Copy, Debug, PartialEq, Eq)]
pub struct DictError {
    pub kind: DictErrorKind,
    /// Length of the rejected buffer.
    pub len: usize,
}

impl DictError {
    /// An error of `kind` for a buffer of `len` bytes.
    pub fn new(kind: DictErrorKind, len: usize) -> (r: Self)
        ensures
            r.kind == kind,
            r.len == len,
    {
        DictError { kind, len }
    }
}

/// Pairs and raw records of one sub-structure.
#[derive(Debug)]
struct SubStruct {
    pairs: Vec<(u32, u32)>,
    records: Vec<u8>,
}

/// A parsed dictionary.
#[derive(Debug)]
pub struct Dict {
    n1: usize,
    n2: usize,
    base: Vec<i32>,
    check: Vec<u8>,
    tail: Vec<u8>,
    sub_a: SubStruct,
    sub_b: SubStruct,
}

/// Offset just past a sub-structure that starts at `o` (count, npairs read from `d`).
pub open spec fn sub_end(d: Seq<u8>, o: int, rec_size: int) -> int {
    o + 8 + 8 * u32_le(d, o + 4) + rec_size * u32_le(d, o)
}

/// Offset where sub-structure A starts.
pub open spec fn sub_a_start(d: Seq<u8>) -> int {
    8 + 5 * u32_le(d, 0) + u32_le(d, 4)
}

/// The buffer is a complete, exactly-sized dictionary.
pub open spec fn dict_layout_ok(d: Seq<u8>) -> bool {
    let oa = sub_a_start(d);
    let ob = sub_end(d, oa, 6);
    &&& d.len() >= 8
    &&& oa + 8 <= d.len()
    &&& ob + 8 <= d.len()
    &&& sub_end(d, ob, 26) == d.len()
}

/// The BASE array a dictionary buffer holds.
pub open spec fn layout_base(d: Seq<u8>) -> Seq<i32> {
    Seq::new(u32_le(d, 0) as nat, |i: int| u32_le(d, 8 + 4 * i) as u32 as i32)
}

/// The pair list of the sub-structure starting at `o`.
pub open spec fn layout_pairs(d: Seq<u8>, o: int) -> Seq<(u32, u32)> {
    Seq::new(
        u32_le(d, o + 4) as nat,
        |i: int| (u32_le(d, o + 8 + 8 * i) as u32, u32_le(d, o + 12 + 8 * i) as u32),
    )
}

/// The raw records of the sub-structure starting at `o`.
pub open spec fn layout_records(d: Seq<u8>, o: int, rec_size: int) -> Seq<u8> {
    d.subrange(o + 8 + 8 * u32_le(d, o + 4), sub_end(d, o, rec_size))
}

/// Read a little-endian u32 at `o`.
fn read_u32_at(data: &[u8], o: usize) -> (r: u32)
    requires
        o + 4 <= data@.len(),
    ensures
        r == u32_le(data@, o as int),
{
    (data[o] as u32) + 256 * (data[o + 1] as u32) + 65536 * (data[o + 2] as u32) + 16777216 * (
    data[o + 3] as u32)
}

/// Bytes `o..o + n` copied out.
fn copy_range(data: &[u8], o: usize, n: usize) -> (r: Vec<u8>)
    requires
        o + n <= data@.len(),
    ensures
        r@ == data@.subrange(o as int, o + n),
{
    let len = data.len();
    let mut out: Vec<u8> = Vec::new();
    let mut i: usize = 0;
    while i < n
        invariant
            i <= n,
            len == data@.len(),
            o + n <= data@.len(),
            out@ == data@.subrange(o as int, o + i),
        decreases n - i,
    {
        out.push(data[o + i]);
        i = i + 1;
        assert(out@ =~= data@.subrange(o as int, o + i));
    }
    out
}

/// Parse one sub-structure at `o`: `Err` when it does not fit in the buffer.
fn parse_sub(data: &[u8], o: usize, rec_size: usize) -> (r: Result<(SubStruct, usize), DictError>)
    requires
        rec_size == 6 || rec_size == 26,
    ensures
        match r {
            Ok((s, end)) => {
                &&& o + 8 <= data@.len()
                &&& end == sub_end(data@, o as int, rec_size as int)
                &&& end <= data@.len()
                &&& s.pairs@ == layout_pairs(data@, o as int)
                &&& s.records@ == layout_records(data@, o as int, rec_size as int)
            },
            Err(_) => o + 8 > data@.len() || sub_end(data@, o as int, rec_size as int)
                > data@.len(),
        },
{
    let len = data.len();
    if o > len || len - o < 8 {
        return Err(DictError::new(DictErrorKind::Truncated { need: 8, at: o }, len));
    }
    let count = read_u32_at(data, o) as usize;
    let npairs = read_u32_at(data, o + 4) as usize;
    let p = o + 8;
    if npairs > (len - p) / 8 {
        proof {
            assert(8 * npairs > len - p) by (nonlinear_arith)
                requires
                    npairs > (len - p) / 8int,
            ;
            assert(rec_size * count >= 0) by (nonlinear_arith)
                requires
                    rec_size > 0,
                    count >= 0,
            ;
            assert(sub_end(data@, o as int, rec_size as int) == o + 8 + 8 * npairs + rec_size
                * count);
        }
        return Err(DictError::new(DictErrorKind::Truncated { need: npairs, at: p }, len));
    }
    let mut pairs: Vec<(u32, u32)> = Vec::new();
    let mut i: usize = 0;
    while i < npairs
        invariant
            i <= npairs,
            len == data@.len(),
            p + 8 * npairs <= data@.len(),
            p == o + 8,
            npairs == u32_le(data@, o + 4),
            pairs@ == layout_pairs(data@, o as int).take(i as int),
        decreases npairs - i,
    {
        let a = read_u32_at(data, p + 8 * i);
        let b = read_u32_at(data, p + 8 * i + 4);
        pairs.push((a, b));
        i = i + 1;
        assert(pairs@ =~= layout_pairs(data@, o as int).take(i as int));
    }
    assert(pairs@ =~= layout_pairs(data@, o as int));
    let q = p + 8 * npairs;
    if count > (len - q) / rec_size {
        proof {
            assert(rec_size * count > len - q) by (nonlinear_arith)
                requires
                    count > (len - q) / (rec_size as int),
                    rec_size > 0,
            ;
        }
        return Err(DictError::new(DictErrorKind::Truncated { need: count, at: q }, len));
    }
    proof {
        assert(rec_size * count <= len - q) by (nonlinear_arith)
            requires
                count <= (len - q) / (rec_size as int),
                rec_size > 0,
        ;
    }
    let records = copy_range(data, q, rec_size * count);
    Ok((SubStruct { pairs, records }, q + rec_size * count))
}

/// BASE entries read from the buffer (`n1` little-endian u32 values at offset 8).
fn read_base(data: &[u8], n1: usize) -> (r: Vec<i32>)
    requires
        8 + 4 * n1 <= data@.len(),
        n1 == u32_le(data@, 0),
    ensures
        r@ == layout_base(data@),
{
    let len = data.len();
    let mut base: Vec<i32> = Vec::new();
    let mut i: usize = 0;
    while i < n1
        invariant
            i <= n1,
            len == data@.len(),
            8 + 4 * n1 <= len,
            n1 == u32_le(data@, 0),
            base@ == layout_base(data@).take(i as int),
        decreases n1 - i,
    {
        let v = read_u32_at(data, 8 + 4 * i);
        base.push(v as i32);
        i = i + 1;
        assert(base@ =~= layout_base(data@).take(i as int));
    }
    assert(base@ =~= layout_base(data@));
    base
}

/// `x` reduced into the i32 range (two's-complement wrap).
pub open spec fn wrap_i32(x: int) -> int {
    ((x + 0x8000_0000) % 0x1_0000_0000) - 0x8000_0000
}

/// Key byte at `consumed`, or [`KEY_END`] at and past the end.
pub open spec fn key_byte(key: Seq<u8>, consumed: int) -> u8 {
    if 0 <= consumed < key.len() {
        key[consumed]
    } else {
        KEY_END
    }
}

/// Trie transition from `node` on byte `c`: the child node, if CHECK confirms it.
pub open spec fn child(base: Seq<i32>, check: Seq<u8>, node: int, c: u8) -> Option<int> {
    let t = wrap_i32(base[node] + c);
    if t < 0 || t >= base.len() || t >= check.len() || check[t] != c {
        None
    } else {
        Some(t)
    }
}

/// Exact-search walk from `node` with `consumed` key bytes used: the first node with negative
/// BASE reached (with the bytes consumed so far), or `None` on a missing transition or when the
/// key (plus terminator) is exhausted first.
pub open spec fn exact_walk(
    base: Seq<i32>,
    check: Seq<u8>,
    key: Seq<u8>,
    node: int,
    consumed: int,
) -> Option<(int, int)>
    decreases key.len() + 1 - consumed,
{
    if consumed < 0 || consumed > key.len() {
        None
    } else {
        match child(base, check, node, key_byte(key, consumed)) {
            None => None,
            Some(t) => if base[t] < 0 {
                Some((t, consumed + 1))
            } else if consumed + 1 > key.len() {
                None
            } else {
                exact_walk(base, check, key, t, consumed + 1)
            },
        }
    }
}

/// A walk ends on an in-range node with negative BASE, after consuming 1..=len+1 bytes.
pub proof fn lemma_exact_walk_end(
    base: Seq<i32>,
    check: Seq<u8>,
    key: Seq<u8>,
    node: int,
    consumed: int,
)
    ensures
        exact_walk(base, check, key, node, consumed) matches Some((n, c)) ==> 0 <= n < base.len()
            && base[n] < 0 && consumed < c <= key.len() + 1,
    decreases key.len() + 1 - consumed,
{
    if 0 <= consumed <= key.len() {
        match child(base, check, node, key_byte(key, consumed)) {
            None => {},
            Some(t) => {
                if base[t] >= 0 && consumed + 1 <= key.len() {
                    lemma_exact_walk_end(base, check, key, t, consumed + 1);
                }
            },
        }
    }
}

/// Outcome of the prefix-search walk.
pub enum PrefixWalk {
    /// No transition on the next key byte from `node` after `consumed` bytes.
    Mismatch(int, int),
    /// Reached `node` (negative BASE) after `consumed` bytes.
    End(int, int),
    /// The key and terminator ran out first.
    Fail,
}

/// Prefix-search walk from `node` with `consumed` key bytes used.
pub open spec fn prefix_walk(
    base: Seq<i32>,
    check: Seq<u8>,
    key: Seq<u8>,
    node: int,
    consumed: int,
) -> PrefixWalk
    decreases key.len() + 1 - consumed,
{
    if consumed < 0 || consumed > key.len() {
        PrefixWalk::Fail
    } else {
        match child(base, check, node, key_byte(key, consumed)) {
            None => PrefixWalk::Mismatch(node, consumed),
            Some(t) => if base[t] < 0 {
                PrefixWalk::End(t, consumed + 1)
            } else if consumed + 1 > key.len() {
                PrefixWalk::Fail
            } else {
                prefix_walk(base, check, key, t, consumed + 1)
            },
        }
    }
}

/// The prefix walk visits in-range nodes; an end node has negative BASE.
pub proof fn lemma_prefix_walk_nodes(
    base: Seq<i32>,
    check: Seq<u8>,
    key: Seq<u8>,
    node: int,
    consumed: int,
)
    requires
        0 <= node < base.len(),
    ensures
        prefix_walk(base, check, key, node, consumed) matches PrefixWalk::Mismatch(n, c) ==> 0 <= n
            < base.len() && consumed <= c <= key.len(),
        prefix_walk(base, check, key, node, consumed) matches PrefixWalk::End(n, c) ==> 0 <= n
            < base.len() && base[n] < 0 && consumed < c <= key.len() + 1,
    decreases key.len() + 1 - consumed,
{
    if 0 <= consumed <= key.len() {
        match child(base, check, node, key_byte(key, consumed)) {
            None => {},
            Some(t) => {
                if base[t] >= 0 && consumed + 1 <= key.len() {
                    lemma_prefix_walk_nodes(base, check, key, t, consumed + 1);
                }
            },
        }
    }
}

/// Node reached from `node` by the terminator byte, when CHECK confirms it.
pub open spec fn end_child(base: Seq<i32>, check: Seq<u8>, node: int) -> Option<int> {
    let tp = wrap_i32(base[node] + KEY_END);
    if tp < 0 || tp >= base.len() || tp >= check.len() || check[tp] != KEY_END {
        None
    } else {
        Some(tp)
    }
}

/// Result of a prefix search `(tail offset, bytes matched)`.
pub open spec fn search_prefix_spec(base: Seq<i32>, check: Seq<u8>, tail: Seq<u8>, key: Seq<u8>) -> Option<
    (int, int),
> {
    if key.len() == 0 {
        None
    } else {
        match prefix_walk(base, check, key, 1, 0) {
            PrefixWalk::Fail => None,
            PrefixWalk::Mismatch(node, consumed) => match end_child(base, check, node) {
                None => None,
                Some(tp) => if base[tp] >= 0 || -base[tp] >= tail.len() {
                    None
                } else {
                    Some((-base[tp], if consumed < key.len() {
                        consumed
                    } else {
                        key.len() as int
                    }))
                },
            },
            PrefixWalk::End(node, consumed) => {
                let off = -base[node];
                if off >= tail.len() {
                    None
                } else if consumed == key.len() + 1 {
                    Some((off, key.len() as int))
                } else {
                    match tail_string_spec(tail, off) {
                        None => None,
                        Some(ts) => {
                            let k = key.subrange(consumed, key.len() as int);
                            if ts.len() > k.len() + 1 || ts != k.push(KEY_END).take(ts.len() as int) {
                                None
                            } else {
                                Some((off, if consumed + ts.len() < key.len() {
                                    consumed + ts.len()
                                } else {
                                    key.len() as int
                                }))
                            }
                        },
                    }
                }
            },
        }
    }
}

/// A prefix search for `key` only reads inside the trie and never negates `i32::MIN`.
pub open spec fn search_prefix_defined(base: Seq<i32>, key: Seq<u8>, check: Seq<u8>) -> bool {
    key.len() == 0 || (base.len() > 1 && match prefix_walk(base, check, key, 1, 0) {
        PrefixWalk::Mismatch(node, _) => match end_child(base, check, node) {
            Some(tp) => base[tp] != i32::MIN,
            None => true,
        },
        PrefixWalk::End(node, _) => base[node] != i32::MIN,
        PrefixWalk::Fail => true,
    })
}

/// Index of the first NUL byte of `t` at or after `i`, or -1.
pub open spec fn first_zero(t: Seq<u8>, i: int) -> int
    decreases t.len() - i,
{
    if i < 0 || i >= t.len() {
        -1
    } else if t[i] == 0 {
        i
    } else {
        first_zero(t, i + 1)
    }
}

/// A NUL found from `i` on lies at or after `i` and inside `t`.
pub proof fn lemma_first_zero_range(t: Seq<u8>, i: int)
    ensures
        first_zero(t, i) == -1 || (i <= first_zero(t, i) < t.len() && t[first_zero(t, i)] == 0),
    decreases t.len() - i,
{
    if 0 <= i < t.len() && t[i] != 0 {
        lemma_first_zero_range(t, i + 1);
    }
}

/// The NUL-terminated TAIL string at `off` (without its NUL), if `off` is inside and a NUL follows.
pub open spec fn tail_string_spec(t: Seq<u8>, off: int) -> Option<Seq<u8>> {
    if off < 0 || off >= t.len() || first_zero(t, off) < 0 {
        None
    } else {
        Some(t.subrange(off, first_zero(t, off)))
    }
}

/// Result of an exact search, given that the walk is defined.
pub open spec fn search_exact_spec(base: Seq<i32>, check: Seq<u8>, tail: Seq<u8>, key: Seq<u8>) -> Option<
    int,
> {
    if key.len() == 0 {
        None
    } else {
        match exact_walk(base, check, key, 1, 0) {
            None => None,
            Some((node, consumed)) => {
                let off = -base[node];
                if off >= tail.len() {
                    None
                } else if consumed == key.len() + 1 {
                    Some(off)
                } else {
                    match tail_string_spec(tail, off) {
                        None => None,
                        Some(ts) => if ts == key.subrange(consumed, key.len() as int).push(KEY_END) {
                            Some(off)
                        } else {
                            None
                        },
                    }
                }
            },
        }
    }
}

/// Where the exact walk ends, the prefix walk ends too.
proof fn lemma_exact_walk_prefix(base: Seq<i32>, check: Seq<u8>, key: Seq<u8>, node: int, consumed: int)
    ensures
        exact_walk(base, check, key, node, consumed) matches Some((t, c)) ==> prefix_walk(
            base,
            check,
            key,
            node,
            consumed,
        ) == PrefixWalk::End(t, c),
    decreases key.len() + 1 - consumed,
{
    if 0 <= consumed <= key.len() {
        match child(base, check, node, key_byte(key, consumed)) {
            None => {},
            Some(t) => if base[t] >= 0 && consumed + 1 <= key.len() {
                lemma_exact_walk_prefix(base, check, key, t, consumed + 1);
            },
        }
    }
}

/// A key found by an exact search is found by a prefix search too, at the same tail offset
/// and with the whole key matched.
pub proof fn lemma_exact_then_prefix(base: Seq<i32>, check: Seq<u8>, tail: Seq<u8>, key: Seq<u8>)
    ensures
        search_exact_spec(base, check, tail, key) matches Some(off) ==> search_prefix_spec(
            base,
            check,
            tail,
            key,
        ) == Some((off, key.len() as int)),
{
    if key.len() > 0 {
        lemma_exact_walk_prefix(base, check, key, 1, 0);
        lemma_exact_walk_end(base, check, key, 1, 0);
        match exact_walk(base, check, key, 1, 0) {
            None => {},
            Some((node, consumed)) => {
                let off = -base[node];
                if off < tail.len() && consumed != key.len() + 1 {
                    match tail_string_spec(tail, off) {
                        None => {},
                        Some(ts) => {
                            let k = key.subrange(consumed, key.len() as int);
                            if ts == k.push(KEY_END) {
                                assert(k.push(KEY_END).take(ts.len() as int) =~= ts);
                                assert(!(ts.len() > k.len() + 1));
                                assert(!(consumed + ts.len() < key.len()));
                                assert(search_prefix_spec(base, check, tail, key) == Some((off, key.len() as int)));
                            }
                        },
                    }
                }
            },
        }
    }
}

/// An exact search for `key` only reads inside the trie: the root exists and the BASE of the
/// node it ends on can be negated.
pub open spec fn search_exact_defined(base: Seq<i32>, key: Seq<u8>, check: Seq<u8>) -> bool {
    key.len() == 0 || (base.len() > 1 && match exact_walk(base, check, key, 1, 0) {
        Some((node, _)) => base[node] != i32::MIN,
        None => true,
    })
}

/// `ts` equals `k` followed by [`KEY_END`].
fn eq_with_end(ts: &[u8], k: &[u8]) -> (r: bool)
    ensures
        r == (ts@ == k@.push(KEY_END)),
{
    if ts.len() == 0 || ts.len() - 1 != k.len() {
        assert(ts@.len() != k@.push(KEY_END).len());
        return false;
    }
    let mut i: usize = 0;
    while i < k.len()
        invariant
            i <= k@.len(),
            ts@.len() == k@.len() + 1,
            forall|j: int| 0 <= j < i ==> ts@[j] == k@[j],
        decreases k@.len() - i,
    {
        if ts[i] != k[i] {
            assert(ts@[i as int] != k@.push(KEY_END)[i as int]);
            return false;
        }
        i = i + 1;
    }
    if ts[k.len()] != KEY_END {
        assert(ts@[k@.len() as int] != k@.push(KEY_END)[k@.len() as int]);
        return false;
    }
    assert(ts@ =~= k@.push(KEY_END));
    true
}

/// Little-endian u16 of two bytes.
pub open spec fn le16(lo: u8, hi: u8) -> u16 {
    (lo + 256 * hi) as u16
}

/// The entry stored after the TAIL string at `off`.
pub open spec fn tail_entry_spec(t: Seq<u8>, off: int) -> Option<TailEntry> {
    match tail_string_spec(t, off) {
        None => None,
        Some(ts) => {
            let p = off + ts.len() + 1;
            if p + 3 > t.len() {
                None
            } else {
                Some(TailEntry { x: le16(t[p], t[p + 1]), y: t[p + 2] })
            }
        },
    }
}

/// Record `i` of a 6-byte record array.
pub open spec fn rec_at(r: Seq<u8>, i: int) -> SubARecord {
    SubARecord {
        kind: r[6 * i],
        sub: r[6 * i + 1],
        v0: le16(r[6 * i + 2], r[6 * i + 3]),
        v1: le16(r[6 * i + 4], r[6 * i + 5]),
    }
}

/// Records `i..` up to and including the first one whose kind has bit 7 set.
pub open spec fn expand_from(r: Seq<u8>, count: int, i: int) -> Seq<SubARecord>
    decreases count - i,
{
    if i < 0 || i >= count {
        Seq::empty()
    } else if rec_at(r, i).kind >= 0x80 {
        seq![rec_at(r, i)]
    } else {
        seq![rec_at(r, i)] + expand_from(r, count, i + 1)
    }
}

/// The record group starting at `idx`: its first record with bit 7 of the kind cleared,
/// then the following records through the next one flagged with bit 7.
pub open spec fn expand_spec(r: Seq<u8>, idx: int) -> Seq<SubARecord> {
    let count: int = (r.len() / 6) as int;
    if idx < 0 || idx >= count {
        Seq::empty()
    } else {
        let first = rec_at(r, idx);
        seq![SubARecord { kind: (first.kind % 128) as u8, ..first }] + expand_from(r, count, idx + 1)
    }
}

impl Dict {
    #[verifier::type_invariant]
    spec fn inv(self) -> bool {
        &&& self.base@.len() == self.n1
        &&& self.check@.len() == self.n1
        &&& self.tail@.len() == self.n2
        &&& self.sub_a.records@.len() % 6 == 0
        &&& self.sub_b.records@.len() % 26 == 0
    }

    /// Number of trie nodes.
    pub closed spec fn n1_spec(&self) -> nat {
        self.n1 as nat
    }

    /// Number of TAIL bytes.
    pub closed spec fn n2_spec(&self) -> nat {
        self.n2 as nat
    }

    /// BASE array.
    pub closed spec fn base_spec(&self) -> Seq<i32> {
        self.base@
    }

    /// CHECK array.
    pub closed spec fn check_spec(&self) -> Seq<u8> {
        self.check@
    }

    /// TAIL bytes.
    pub closed spec fn tail_spec(&self) -> Seq<u8> {
        self.tail@
    }

    /// Raw 6-byte records of sub-structure A.
    pub closed spec fn sub_a_records_spec(&self) -> Seq<u8> {
        self.sub_a.records@
    }

    /// Raw 26-byte records of sub-structure B.
    pub closed spec fn sub_b_records_spec(&self) -> Seq<u8> {
        self.sub_b.records@
    }

    /// Pairs of sub-structure A.
    pub closed spec fn sub_a_pairs_spec(&self) -> Seq<(u32, u32)> {
        self.sub_a.pairs@
    }

    /// Pairs of sub-structure B.
    pub closed spec fn sub_b_pairs_spec(&self) -> Seq<(u32, u32)> {
        self.sub_b.pairs@
    }

    /// Entry stored under exactly `key`.
    pub open spec fn entry_of(&self, key: Seq<u8>) -> Option<TailEntry> {
        match search_exact_spec(self.base_spec(), self.check_spec(), self.tail_spec(), key) {
            Some(off) => tail_entry_spec(self.tail_spec(), off),
            None => None,
        }
    }

    /// Record group of the entry stored under exactly `key`.
    pub open spec fn records_of(&self, key: Seq<u8>) -> Option<Seq<SubARecord>> {
        match self.entry_of(key) {
            Some(e) => Some(expand_spec(self.sub_a_records_spec(), e.x as int)),
            None => None,
        }
    }

    /// Bytes matched and record group of the entry found by a prefix search for `key`.
    pub open spec fn prefix_records_of(&self, key: Seq<u8>) -> Option<(int, Seq<SubARecord>)> {
        match search_prefix_spec(self.base_spec(), self.check_spec(), self.tail_spec(), key) {
            Some((off, m)) => match tail_entry_spec(self.tail_spec(), off) {
                Some(e) => Some((m, expand_spec(self.sub_a_records_spec(), e.x as int))),
                None => None,
            },
            None => None,
        }
    }

    /// An entry found under exactly `key` is also what a prefix search for `key` finds, with
    /// the whole key matched and the same records.
    pub proof fn lemma_exact_entry_then_prefix(&self, key: Seq<u8>)
        ensures
            self.records_of(key) matches Some(rs) ==> self.prefix_records_of(key) == Some(
                (key.len() as int, rs),
            ),
    {
        lemma_exact_then_prefix(self.base_spec(), self.check_spec(), self.tail_spec(), key);
    }

    /// Every search reads inside the trie: the root exists and no BASE is `i32::MIN`.
    pub open spec fn searchable(&self) -> bool {
        &&& self.base_spec().len() > 1
        &&& forall|i: int| 0 <= i < self.base_spec().len() ==> #[trigger] self.base_spec()[i] != i32::MIN
    }

    /// In a searchable dictionary every exact and prefix search is defined.
    pub proof fn lemma_searchable(&self, key: Seq<u8>)
        requires
            self.searchable(),
        ensures
            search_exact_defined(self.base_spec(), key, self.check_spec()),
            search_prefix_defined(self.base_spec(), key, self.check_spec()),
            search_prefix_spec(self.base_spec(), self.check_spec(), self.tail_spec(), key) matches Some(
                (_, m),
            ) ==> 0 <= m <= key.len(),
    {
        let base = self.base_spec();
        let check = self.check_spec();
        lemma_exact_walk_end(base, check, key, 1, 0);
        lemma_prefix_walk_nodes(base, check, key, 1, 0);
    }

    /// Every field of `self` is the corresponding section of the buffer `d`.
    pub open spec fn parsed_from(&self, d: Seq<u8>) -> bool {
        let oa = sub_a_start(d);
        let ob = sub_end(d, oa, 6);
        &&& self.n1_spec() == u32_le(d, 0)
        &&& self.n2_spec() == u32_le(d, 4)
        &&& self.base_spec() == layout_base(d)
        &&& self.check_spec() == d.subrange(8 + 4 * u32_le(d, 0), 8 + 5 * u32_le(d, 0))
        &&& self.tail_spec() == d.subrange(8 + 5 * u32_le(d, 0), oa)
        &&& self.sub_a_pairs_spec() == layout_pairs(d, oa)
        &&& self.sub_a_records_spec() == layout_records(d, oa, 6)
        &&& self.sub_b_pairs_spec() == layout_pairs(d, ob)
        &&& self.sub_b_records_spec() == layout_records(d, ob, 26)
    }

    /// Parse a dictionary buffer; `Err` unless the buffer is exactly one complete dictionary.
    pub fn from_bytes(data: &[u8]) -> (r: Result<Dict, DictError>)
        ensures
            r is Ok <==> dict_layout_ok(data@),
            r matches Ok(d) ==> d.parsed_from(data@),
    {
        let len = data.len();
        if len < 8 {
            return Err(DictError::new(DictErrorKind::Truncated { need: 8, at: 0 }, len));
        }
        let n1 = read_u32_at(data, 0) as usize;
        let n2 = read_u32_at(data, 4) as usize;
        if n1 > (len - 8) / 5 {
            proof {
                assert(5 * n1 > len - 8) by (nonlinear_arith)
                    requires
                        n1 > (len - 8) / 5int,
                ;
            }
            return Err(DictError::new(DictErrorKind::Truncated { need: n1, at: 8 }, len));
        }
        let o1 = 8 + 4 * n1;
        let o2 = o1 + n1;
        if n2 > len - o2 {
            return Err(DictError::new(DictErrorKind::Truncated { need: n2, at: o2 }, len));
        }
        let o3 = o2 + n2;
        let base = read_base(data, n1);
        let check = copy_range(data, o1, n1);
        let tail = copy_range(data, o2, n2);
        let sub_a = match parse_sub(data, o3, 6) {
            Ok(x) => x,
            Err(e) => {
                return Err(e);
            },
        };
        let (sa, o4) = sub_a;
        let sub_b = match parse_sub(data, o4, 26) {
            Ok(x) => x,
            Err(e) => {
                return Err(e);
            },
        };
        let (sb, o5) = sub_b;
        if o5 != len {
            return Err(DictError::new(DictErrorKind::SizeMismatch { consumed: o5 }, len));
        }
        proof {
            assert(sa.records@.len() == 6 * u32_le(data@, o3 as int));
            assert(sb.records@.len() == 26 * u32_le(data@, o4 as int));
            assert((6 * u32_le(data@, o3 as int)) % 6 == 0) by (nonlinear_arith);
            assert((26 * u32_le(data@, o4 as int)) % 26 == 0) by (nonlinear_arith);
        }
        Ok(Dict { n1, n2, base, check, tail, sub_a: sa, sub_b: sb })
    }

    /// Number of trie nodes.
    pub fn n1(&self) -> (r: usize)
        ensures
            r == self.n1_spec(),
    {
        self.n1
    }

    /// Number of TAIL bytes.
    pub fn n2(&self) -> (r: usize)
        ensures
            r == self.n2_spec(),
    {
        self.n2
    }

    /// Number of records in sub-structure A.
    pub fn sub_a_count(&self) -> (r: usize)
        ensures
            r == self.sub_a_records_spec().len() / 6,
    {
        self.sub_a.records.len() / 6
    }

    /// Number of records in sub-structure B.
    pub fn sub_b_count(&self) -> (r: usize)
        ensures
            r == self.sub_b_records_spec().len() / 26,
    {
        self.sub_b.records.len() / 26
    }

    /// Pairs of sub-structure A.
    pub fn sub_a_pairs(&self) -> (r: &[(u32, u32)])
        ensures
            r@ == self.sub_a_pairs_spec(),
    {
        self.sub_a.pairs.as_slice()
    }

    /// Pairs of sub-structure B.
    pub fn sub_b_pairs(&self) -> (r: &[(u32, u32)])
        ensures
            r@ == self.sub_b_pairs_spec(),
    {
        self.sub_b.pairs.as_slice()
    }

    /// BASE of `node`, or `None` past the end.
    pub fn base(&self, node: usize) -> (r: Option<i32>)
        ensures
            r == (if node < self.base_spec().len() {
                Some(self.base_spec()[node as int])
            } else {
                None
            }),
    {
        if node < self.base.len() {
            Some(self.base[node])
        } else {
            None
        }
    }

    /// Whether every search reads inside the trie (see [`Dict::searchable`]).
    pub fn is_searchable(&self) -> (r: bool)
        ensures
            r == self.searchable(),
    {
        if self.base.len() <= 1 {
            return false;
        }
        let mut i: usize = 0;
        while i < self.base.len()
            invariant
                i <= self.base@.len(),
                forall|k: int| 0 <= k < i ==> #[trigger] self.base@[k] != i32::MIN,
            decreases self.base@.len() - i,
        {
            if self.base[i] == i32::MIN {
                return false;
            }
            i = i + 1;
        }
        true
    }

    /// CHECK of `node`, or `None` past the end.
    pub fn check(&self, node: usize) -> (r: Option<u8>)
        ensures
            r == (if node < self.check_spec().len() {
                Some(self.check_spec()[node as int])
            } else {
                None
            }),
    {
        if node < self.check.len() {
            Some(self.check[node])
        } else {
            None
        }
    }

    /// TAIL byte at `off`, or `None` past the end.
    pub fn tail(&self, off: usize) -> (r: Option<u8>)
        ensures
            r == (if off < self.tail_spec().len() {
                Some(self.tail_spec()[off as int])
            } else {
                None
            }),
    {
        if off < self.tail.len() {
            Some(self.tail[off])
        } else {
            None
        }
    }

    /// All TAIL bytes.
    pub fn tail_bytes(&self) -> (r: &[u8])
        ensures
            r@ == self.tail_spec(),
    {
        self.tail.as_slice()
    }

    /// The NUL-terminated TAIL string at `off`, without its NUL.
    pub fn tail_string(&self, off: usize) -> (r: Option<&[u8]>)
        ensures
            match r {
                Some(s) => tail_string_spec(self.tail_spec(), off as int) == Some(s@),
                None => tail_string_spec(self.tail_spec(), off as int) is None,
            },
    {
        proof {
            use_type_invariant(self);
        }
        if off >= self.n2 {
            return None;
        }
        let mut i = off;
        while i < self.n2
            invariant
                off <= i <= self.n2,
                self.n2 == self.tail@.len(),
                first_zero(self.tail@, i as int) == first_zero(self.tail@, off as int),
            decreases self.n2 - i,
        {
            if self.tail[i] == 0 {
                let t = self.tail.as_slice();
                return Some(&t[off..i]);
            }
            i = i + 1;
        }
        None
    }

    /// TAIL offset of the entry stored under exactly `key` (terminator included), or `None`.
    pub fn search_exact(&self, key: &[u8]) -> (r: Option<usize>)
        requires
            search_exact_defined(self.base_spec(), key@, self.check_spec()),
        ensures
            match r {
                Some(o) => search_exact_spec(self.base_spec(), self.check_spec(), self.tail_spec(), key@)
                    == Some(o as int),
                None => search_exact_spec(
                    self.base_spec(),
                    self.check_spec(),
                    self.tail_spec(),
                    key@,
                ) is None,
            },
            r matches Some(o) ==> search_prefix_spec(
                self.base_spec(),
                self.check_spec(),
                self.tail_spec(),
                key@,
            ) == Some((o as int, key@.len() as int)),
    {
        proof {
            use_type_invariant(self);
            lemma_exact_then_prefix(self.base_spec(), self.check_spec(), self.tail_spec(), key@);
        }
        if key.len() == 0 {
            return None;
        }
        let (node, c0) = match self.walk(key) {
            Some(x) => x,
            None => {
                return None;
            },
        };
        let b = self.base[node];
        proof {
            lemma_exact_walk_end(self.base@, self.check@, key@, 1, 0);
            assert(b < 0);
            assert(b != i32::MIN);
        }
        let nb: i32 = -b;
        let off = nb as usize;
        assert(off as int == -self.base@[node as int]);
        if off >= self.n2 {
            return None;
        }
        if c0 == key.len() {
            return Some(off);
        }
        let ts = match self.tail_string(off) {
            Some(x) => x,
            None => {
                return None;
            },
        };
        let k = &key[c0 + 1..key.len()];
        if eq_with_end(ts, k) {
            Some(off)
        } else {
            None
        }
    }

    /// The entry (x, y) stored right after the TAIL string at `off`.
    pub fn tail_entry(&self, off: usize) -> (r: Option<TailEntry>)
        ensures
            r == tail_entry_spec(self.tail_spec(), off as int),
    {
        proof {
            use_type_invariant(self);
        }
        let s = match self.tail_string(off) {
            Some(x) => x,
            None => {
                return None;
            },
        };
        proof {
            lemma_first_zero_range(self.tail@, off as int);
        }
        let p = off + s.len() + 1;
        if p > self.n2 || self.n2 - p < 3 {
            return None;
        }
        let x: u16 = (self.tail[p] as u16) + 256 * (self.tail[p + 1] as u16);
        Some(TailEntry { x, y: self.tail[p + 2] })
    }

    /// Record `idx` of sub-structure A, or `None` past the end.
    pub fn sub_a_record(&self, idx: usize) -> (r: Option<SubARecord>)
        ensures
            r == (if idx < self.sub_a_records_spec().len() / 6 {
                Some(rec_at(self.sub_a_records_spec(), idx as int))
            } else {
                None
            }),
    {
        proof {
            use_type_invariant(self);
        }
        if idx >= self.sub_a_count() {
            return None;
        }
        Some(self.rec(idx))
    }

    /// Record `i` of sub-structure A (in range).
    fn rec(&self, i: usize) -> (r: SubARecord)
        requires
            i < self.sub_a_records_spec().len() / 6,
        ensures
            r == rec_at(self.sub_a_records_spec(), i as int),
    {
        let r = &self.sub_a.records;
        let n = r.len();
        proof {
            assert(6 * i + 6 <= n) by (nonlinear_arith)
                requires
                    i < n / 6,
            ;
        }
        let b = 6 * i;
        SubARecord {
            kind: r[b],
            sub: r[b + 1],
            v0: (r[b + 2] as u16) + 256 * (r[b + 3] as u16),
            v1: (r[b + 4] as u16) + 256 * (r[b + 5] as u16),
        }
    }

    /// The record group starting at `idx` (empty when `idx` is out of range).
    pub fn expand_records(&self, idx: usize) -> (r: Vec<SubARecord>)
        ensures
            r@ == expand_spec(self.sub_a_records_spec(), idx as int),
    {
        proof {
            use_type_invariant(self);
        }
        let count = self.sub_a_count();
        let mut out: Vec<SubARecord> = Vec::new();
        if idx >= count {
            return out;
        }
        let mut first = self.rec(idx);
        first.kind = first.kind % 128;
        out.push(first);
        let ghost r = self.sub_a.records@;
        let mut i = idx + 1;
        while i < count
            invariant
                idx < i <= count,
                count == r.len() / 6,
                r == self.sub_a.records@,
                out@ + expand_from(r, count as int, i as int) == expand_spec(r, idx as int),
            decreases count - i,
        {
            let x = self.rec(i);
            let stop = x.kind >= 0x80;
            out.push(x);
            if stop {
                assert(out@ =~= expand_spec(r, idx as int));
                return out;
            }
            assert(out@ + expand_from(r, count as int, i + 1) =~= expand_spec(r, idx as int));
            i = i + 1;
        }
        assert(out@ =~= expand_spec(r, idx as int));
        out
    }

    /// Entry stored under exactly `key`.
    pub fn lookup(&self, key: &[u8]) -> (r: Option<TailEntry>)
        requires
            search_exact_defined(self.base_spec(), key@, self.check_spec()),
        ensures
            r == match search_exact_spec(
                self.base_spec(),
                self.check_spec(),
                self.tail_spec(),
                key@,
            ) {
                Some(off) => tail_entry_spec(self.tail_spec(), off),
                None => None,
            },
    {
        let off = match self.search_exact(key) {
            Some(o) => o,
            None => {
                return None;
            },
        };
        self.tail_entry(off)
    }

    /// Record group of the entry stored under exactly `key`.
    pub fn lookup_records(&self, key: &[u8]) -> (r: Option<Vec<SubARecord>>)
        requires
            search_exact_defined(self.base_spec(), key@, self.check_spec()),
        ensures
            match r {
                Some(v) => exists|off: int, e: TailEntry|
                    search_exact_spec(self.base_spec(), self.check_spec(), self.tail_spec(), key@)
                        == Some(off) && tail_entry_spec(self.tail_spec(), off) == Some(e) && v@
                        == expand_spec(self.sub_a_records_spec(), e.x as int),
                None => match search_exact_spec(
                    self.base_spec(),
                    self.check_spec(),
                    self.tail_spec(),
                    key@,
                ) {
                    Some(off) => tail_entry_spec(self.tail_spec(), off) is None,
                    None => true,
                },
            },
            match r {
                Some(v) => self.records_of(key@) == Some(v@),
                None => self.records_of(key@) is None,
            },
    {
        let off = match self.search_exact(key) {
            Some(o) => o,
            None => {
                return None;
            },
        };
        let e = match self.tail_entry(off) {
            Some(e) => e,
            None => {
                return None;
            },
        };
        Some(self.expand_records(e.x as usize))
    }

    /// Prefix match and record group of the entry found by [`Dict::search_prefix`].
    pub fn lookup_prefix_records(&self, key: &[u8]) -> (r: Option<(PrefixMatch, Vec<SubARecord>)>)
        requires
            search_prefix_defined(self.base_spec(), key@, self.check_spec()),
        ensures
            match r {
                Some((m, v)) => exists|e: TailEntry|
                    search_prefix_spec(self.base_spec(), self.check_spec(), self.tail_spec(), key@)
                        == Some((m.tail_offset as int, m.matched as int)) && tail_entry_spec(
                        self.tail_spec(),
                        m.tail_offset as int,
                    ) == Some(e) && v@ == expand_spec(self.sub_a_records_spec(), e.x as int),
                None => match search_prefix_spec(
                    self.base_spec(),
                    self.check_spec(),
                    self.tail_spec(),
                    key@,
                ) {
                    Some((off, _)) => tail_entry_spec(self.tail_spec(), off) is None,
                    None => true,
                },
            },
            match r {
                Some((m, v)) => self.prefix_records_of(key@) == Some((m.matched as int, v@)),
                None => self.prefix_records_of(key@) is None,
            },
    {
        let m = match self.search_prefix(key) {
            Some(m) => m,
            None => {
                return None;
            },
        };
        let e = match self.tail_entry(m.tail_offset) {
            Some(e) => e,
            None => {
                return None;
            },
        };
        Some((m, self.expand_records(e.x as usize)))
    }

    /// Longest-prefix search: the entry whose key (with terminator) is a prefix of `key` along
    /// the trie path, and how many key bytes it matched.
    pub fn search_prefix(&self, key: &[u8]) -> (r: Option<PrefixMatch>)
        requires
            search_prefix_defined(self.base_spec(), key@, self.check_spec()),
        ensures
            match r {
                Some(m) => search_prefix_spec(
                    self.base_spec(),
                    self.check_spec(),
                    self.tail_spec(),
                    key@,
                ) == Some((m.tail_offset as int, m.matched as int)),
                None => search_prefix_spec(
                    self.base_spec(),
                    self.check_spec(),
                    self.tail_spec(),
                    key@,
                ) is None,
            },
            key@.len() == 0 ==> r is None,
            r matches Some(m) ==> m.matched <= key@.len() && m.tail_offset < self.tail_spec().len(),
    {
        proof {
            use_type_invariant(self);
        }
        if key.len() == 0 {
            return None;
        }
        proof {
            lemma_prefix_walk_nodes(self.base@, self.check@, key@, 1, 0);
        }
        let (kind, node, consumed) = self.walk_prefix(key);
        if kind == 0 {
            return None;
        }
        if kind == 1 {
            let tp: i32 = self.base[node].wrapping_add(KEY_END as i32);
            if tp < 0 || tp as usize >= self.n1 {
                return None;
            }
            let tpu = tp as usize;
            if self.check[tpu] != KEY_END || self.base[tpu] >= 0 {
                return None;
            }
            let nb: i32 = -self.base[tpu];
            let off = nb as usize;
            if off >= self.n2 {
                return None;
            }
            let matched = if consumed < key.len() {
                consumed
            } else {
                key.len()
            };
            return Some(PrefixMatch { tail_offset: off, matched });
        }
        self.prefix_tail(key, node, consumed)
    }

    /// The prefix walk: kind 0 = fail, 1 = mismatch at (node, consumed), 2 = end at node after
    /// `consumed + 1` bytes.
    fn walk_prefix(&self, key: &[u8]) -> (r: (u8, usize, usize))
        requires
            self.n1_spec() > 1,
        ensures
            r.0 == 0 ==> prefix_walk(self.base_spec(), self.check_spec(), key@, 1, 0) is Fail,
            r.0 == 1 ==> prefix_walk(self.base_spec(), self.check_spec(), key@, 1, 0)
                == PrefixWalk::Mismatch(r.1 as int, r.2 as int),
            r.0 == 2 ==> prefix_walk(self.base_spec(), self.check_spec(), key@, 1, 0)
                == PrefixWalk::End(r.1 as int, r.2 + 1),
            r.0 <= 2,
            r.1 < self.n1_spec(),
            r.2 <= key@.len(),
    {
        proof {
            use_type_invariant(self);
        }
        let mut node: usize = 1;
        let mut consumed: usize = 0;
        while consumed <= key.len()
            invariant
                node < self.n1,
                self.base@.len() == self.n1,
                self.check@.len() == self.n1,
                consumed <= key@.len(),
                prefix_walk(self.base@, self.check@, key@, node as int, consumed as int)
                    == prefix_walk(self.base@, self.check@, key@, 1, 0),
            decreases key@.len() + 1 - consumed,
        {
            let c: u8 = if consumed < key.len() {
                key[consumed]
            } else {
                KEY_END
            };
            let t: i32 = self.base[node].wrapping_add(c as i32);
            if t < 0 || t as usize >= self.n1 || self.check[t as usize] != c {
                return (1, node, consumed);
            }
            let tn = t as usize;
            if self.base[tn] < 0 {
                return (2, tn, consumed);
            }
            if consumed >= key.len() {
                return (0, 0, 0);
            }
            node = tn;
            consumed = consumed + 1;
        }
        (0, 0, 0)
    }

    /// Finish a prefix search that reached `node` (negative BASE) on byte `consumed`.
    #[verifier::loop_isolation(false)]
    fn prefix_tail(&self, key: &[u8], node: usize, c0: usize) -> (r: Option<PrefixMatch>)
        requires
            node < self.n1_spec(),
            c0 <= key@.len(),
            self.base_spec()[node as int] < 0,
            self.base_spec()[node as int] != i32::MIN,
            key@.len() > 0,
        ensures
            ({
                let consumed = c0 + 1;
                let off = -self.base_spec()[node as int];
                let spec_r = if off >= self.tail_spec().len() {
                    None
                } else if consumed == key@.len() + 1 {
                    Some((off, key@.len() as int))
                } else {
                    match tail_string_spec(self.tail_spec(), off) {
                        None => None,
                        Some(ts) => {
                            let k = key@.subrange(consumed, key@.len() as int);
                            if ts.len() > k.len() + 1 || ts != k.push(KEY_END).take(ts.len() as int) {
                                None
                            } else {
                                Some((off, if consumed + ts.len() < key@.len() {
                                    consumed + ts.len()
                                } else {
                                    key@.len() as int
                                }))
                            }
                        },
                    }
                };
                match r {
                    Some(m) => spec_r == Some((m.tail_offset as int, m.matched as int)),
                    None => spec_r is None,
                }
            }),
    {
        proof {
            use_type_invariant(self);
        }
        let nb: i32 = -self.base[node];
        let off = nb as usize;
        assert(off as int == -self.base@[node as int]);
        if off >= self.n2 {
            return None;
        }
        if c0 == key.len() {
            return Some(PrefixMatch { tail_offset: off, matched: key.len() });
        }
        let ts = match self.tail_string(off) {
            Some(x) => x,
            None => {
                return None;
            },
        };
        let consumed = c0 + 1;
        let k = &key[consumed..key.len()];
        assert(k@ == key@.subrange(consumed as int, key@.len() as int));
        if ts.len() > k.len() && ts.len() - k.len() > 1 {
            return None;
        }
        let mut i: usize = 0;
        while i < ts.len()
            invariant
                i <= ts@.len(),
                ts@.len() <= k@.len() + 1,
                forall|j: int| 0 <= j < i ==> ts@[j] == k@.push(KEY_END)[j],
            decreases ts@.len() - i,
        {
            let expect = if i < k.len() {
                k[i]
            } else {
                KEY_END
            };
            if ts[i] != expect {
                assert(ts@[i as int] != k@.push(KEY_END).take(ts@.len() as int)[i as int]);
                return None;
            }
            i = i + 1;
        }
        assert(ts@ =~= k@.push(KEY_END).take(ts@.len() as int));
        let m = if ts.len() < key.len() - consumed {
            consumed + ts.len()
        } else {
            key.len()
        };
        Some(PrefixMatch { tail_offset: off, matched: m })
    }

    /// Result of the trie walk for `key` from the root: the end node and the number of key
    /// bytes consumed before the last transition.
    fn walk(&self, key: &[u8]) -> (r: Option<(usize, usize)>)
        requires
            self.n1_spec() > 1,
        ensures
            match r {
                Some((node, consumed)) => exact_walk(
                    self.base_spec(),
                    self.check_spec(),
                    key@,
                    1,
                    0,
                ) == Some((node as int, consumed + 1)) && node < self.n1_spec(),
                None => exact_walk(self.base_spec(), self.check_spec(), key@, 1, 0) is None,
            },
    {
        proof {
            use_type_invariant(self);
        }
        let mut node: usize = 1;
        let mut consumed: usize = 0;
        while consumed <= key.len()
            invariant
                node < self.n1,
                self.base@.len() == self.n1,
                self.check@.len() == self.n1,
                consumed <= key@.len() + 1,
                exact_walk(self.base@, self.check@, key@, node as int, consumed as int)
                    == exact_walk(self.base@, self.check@, key@, 1, 0),
            decreases key@.len() + 1 - consumed,
        {
            let c: u8 = if consumed < key.len() {
                key[consumed]
            } else {
                KEY_END
            };
            let t: i32 = self.base[node].wrapping_add(c as i32);
            proof {
                assert(t == wrap_i32(self.base@[node as int] + c));
            }
            if t < 0 || t as usize >= self.n1 || self.check[t as usize] != c {
                return None;
            }
            let tn = t as usize;
            if self.base[tn] < 0 {
                return Some((tn, consumed));
            }
            if consumed >= key.len() {
                return None;
            }
            node = tn;
            consumed = consumed + 1;
        }
        None
    }
}

/// Key bytes of one syllable code: special (bit 15) digits → 0x46..0x4F, `-` → 0x45,
/// `.` → 0x44 (other specials have none); otherwise the non-zero initial, medial + 0x13 and
/// final + 0x28.
pub open spec fn syllable_key_spec(code: u16) -> Option<Seq<u8>> {
    if code >= 0x8000 {
        let u = code % 0x8000;
        if 0x30 <= u <= 0x39 {
            Some(seq![(u + 0x16) as u8])
        } else if u == 0x2d {
            Some(seq![0x45u8])
        } else if u == 0x2e {
            Some(seq![0x44u8])
        } else {
            None
        }
    } else {
        let initial = (code / 1024) % 32;
        let medial = (code / 32) % 32;
        let fin = code % 32;
        Some((if initial != 0 {
            seq![initial as u8]
        } else {
            Seq::<u8>::empty()
        }) + (if medial != 0 {
            seq![(medial + 0x13) as u8]
        } else {
            Seq::<u8>::empty()
        }) + (if fin != 0 {
            seq![(fin + 0x28) as u8]
        } else {
            Seq::<u8>::empty()
        }))
    }
}

/// Append the key bytes of `code` to `out`; `false` (and `out` unchanged) for a special code
/// with no key form.
pub fn syllable_to_key(code: u16, out: &mut Vec<u8>) -> (r: bool)
    ensures
        r == syllable_key_spec(code) is Some,
        r ==> final(out)@ == old(out)@ + syllable_key_spec(code)->0,
        !r ==> final(out)@ == old(out)@,
{
    if code >= 0x8000 {
        let u = code % 0x8000;
        let c: u8 = if 0x30 <= u && u <= 0x39 {
            (u + 0x16) as u8
        } else if u == 0x2d {
            0x45
        } else if u == 0x2e {
            0x44
        } else {
            return false;
        };
        out.push(c);
        return true;
    }
    let ghost o = out@;
    let initial = (code / 1024) % 32;
    let medial = (code / 32) % 32;
    let fin = code % 32;
    if initial != 0 {
        out.push(initial as u8);
    }
    if medial != 0 {
        out.push((medial + 0x13) as u8);
    }
    if fin != 0 {
        out.push((fin + 0x28) as u8);
    }
    assert(out@ =~= o + syllable_key_spec(code)->0);
    true
}

/// Key of a syllable sequence: concatenated syllable keys, `None` if any syllable has none.
pub open spec fn key_spec(codes: Seq<u16>) -> Option<Seq<u8>>
    decreases codes.len(),
{
    if codes.len() == 0 {
        Some(Seq::empty())
    } else {
        match (key_spec(codes.drop_last()), syllable_key_spec(codes.last())) {
            (Some(a), Some(b)) => Some(a + b),
            _ => None,
        }
    }
}

/// Trie key of a syllable-code sequence.
pub fn key_from_syllables(codes: &[u16]) -> (r: Option<Vec<u8>>)
    ensures
        match r {
            Some(v) => key_spec(codes@) == Some(v@),
            None => key_spec(codes@) is None,
        },
        (forall|k: int| 0 <= k < codes@.len() ==> key_code_ok(#[trigger] codes@[k])) ==> (r matches Some(
            v,
        ) && key_codes_from(v@, 0) == Some(codes@)),
{
    proof {
        if forall|k: int| 0 <= k < codes@.len() ==> key_code_ok(#[trigger] codes@[k]) {
            lemma_key_round_trip(codes@);
        }
    }
    let mut out: Vec<u8> = Vec::new();
    let mut i: usize = 0;
    assert(codes@.take(0) =~= Seq::<u16>::empty());
    while i < codes.len()
        invariant
            i <= codes@.len(),
            key_spec(codes@.take(i as int)) == Some(out@),
        decreases codes@.len() - i,
    {
        assert(codes@.take(i + 1).drop_last() =~= codes@.take(i as int));
        if !syllable_to_key(codes[i], &mut out) {
            proof {
                lemma_key_spec_none_extends(codes@, i as int + 1);
            }
            return None;
        }
        i = i + 1;
    }
    assert(codes@.take(codes@.len() as int) =~= codes@);
    Some(out)
}

/// Once a prefix of the codes has no key, no longer prefix has one.
proof fn lemma_key_spec_none_extends(codes: Seq<u16>, i: int)
    requires
        0 <= i <= codes.len(),
        key_spec(codes.take(i)) is None,
    ensures
        key_spec(codes) is None,
    decreases codes.len() - i,
{
    if i < codes.len() {
        assert(codes.take(i + 1).drop_last() =~= codes.take(i));
        lemma_key_spec_none_extends(codes, i + 1);
    } else {
        assert(codes.take(i) =~= codes);
    }
}

/// The key reversed.
pub fn reverse_key(key: &[u8]) -> (r: Vec<u8>)
    ensures
        r@ == key@.reverse(),
{
    let mut out: Vec<u8> = Vec::new();
    let mut i: usize = key.len();
    while i > 0
        invariant
            i <= key@.len(),
            out@ == key@.subrange(i as int, key@.len() as int).reverse(),
        decreases i,
    {
        i = i - 1;
        out.push(key[i]);
        assert(out@ =~= key@.subrange(i as int, key@.len() as int).reverse());
    }
    assert(key@.subrange(0, key@.len() as int) =~= key@);
    out
}

} // verus!
