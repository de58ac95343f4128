//! Segmenting a word into dictionary morphemes by dynamic programming: every segmentation of
//! the word's codes (finals split off) into segments of at most [`MAX_CANDIDATES`] codes is
//! scored, and the best one is read segment by segment.
//!
//! Scores are kept doubled so that they stay integers: each code of a segment counts 1, a
//! segment found in a dictionary (or a run of digits only or of symbols only) 20 more, and such
//! a segment that may connect to the segment before it another 6.
use vstd::prelude::*;
use crate::dict::{key_from_syllables, key_spec};
use crate::text::sub_vec;
use super::g2p_dict::{
    classify_candidate, classify_spec, split_finals, split_finals_spec, Reading, MAX_CANDIDATES,
    MORPH_TYPE_BASE,
};
use super::codec::{kps_bytes_to_codes, kps_codes_from};
use super::words::{
    conjects_spec, conjects_verify, hit_reading, morphology_skeleton, morphology_spec,
    reading_from_hit, rview, rviews, word_readings_spec, word_to_readings_codes, G2pDicts,
};

verus! {

/// Score of a position no segmentation reaches.
pub const UNREACHED: i128 = -2000000000;

/// A reading as plain values: (bytes, packed code, marker).
pub type ReadingView = (Seq<u8>, Option<u16>, u8);

/// Whether the segment `s[i..j]` counts as found: a syllable run with an entry in the main or
/// the user dictionary, or a run of digits only or of symbols only.
pub open spec fn seg_hit(d: G2pDicts, s: Seq<u16>, i: int, j: int) -> bool {
    let cand = s.subrange(i, j);
    let c = classify_spec(cand);
    if c == 0x10 {
        match key_spec(cand) {
            Some(k) => d.colligation.records_of(k) is Some || d.user.records_of(k) is Some,
            None => false,
        }
    } else {
        c == 1 || c == 2
    }
}

/// First start of a segment that can end at `j`.
pub open spec fn reach_lo(j: int) -> int {
    if j - MAX_CANDIDATES > 0 {
        j - MAX_CANDIDATES
    } else {
        0
    }
}

/// Score of ending a segment `s[i..j]` after a segmentation of `s[..i]` that scores `si` and
/// whose last segment starts at `pi` (-1: there is none).
pub open spec fn step_score(d: G2pDicts, s: Seq<u16>, i: int, j: int, si: int, pi: int) -> int {
    let base = si + (j - i);
    if seg_hit(d, s, i, j) {
        if i > 0 && pi >= 0 && conjects_spec(
            d,
            s.subrange(pi, i),
            MORPH_TYPE_BASE,
            s.subrange(i, j),
            MORPH_TYPE_BASE,
        ) {
            base + 26
        } else {
            base + 20
        }
    } else {
        base
    }
}

/// Best (score, start of the last segment) over the segmentations of `s[..j]` whose last
/// segment starts before `k`: starts are tried in increasing order and only a strictly higher
/// score replaces the best so far; (UNREACHED, -1) when there is none.
#[verifier::opaque]
pub open spec fn best_before(d: G2pDicts, s: Seq<u16>, j: int, k: int) -> (int, int)
    decreases j, k,
{
    if k <= reach_lo(j) || k > j {
        (UNREACHED as int, -1)
    } else {
        let acc = best_before(d, s, j, k - 1);
        let p = best_end(d, s, k - 1);
        let sc = step_score(d, s, k - 1, j, p.0, p.1);
        if sc > acc.0 {
            (sc, k - 1)
        } else {
            acc
        }
    }
}

/// Best (score, start of the last segment) of segmenting `s[..j]`; (0, -1) for the empty
/// prefix.
#[verifier::opaque]
pub open spec fn best_end(d: G2pDicts, s: Seq<u16>, j: int) -> (int, int)
    decreases j, j + 1,
{
    if j <= 0 {
        (0, -1)
    } else {
        best_before(d, s, j, j)
    }
}

/// Segments (start, end) of the best segmentation of `s[..j]`, in order.
pub open spec fn best_path(d: G2pDicts, s: Seq<u16>, j: int) -> Seq<(int, int)>
    decreases j,
{
    if j <= 0 {
        Seq::empty()
    } else {
        let p = best_end(d, s, j).1;
        if 0 <= p < j {
            best_path(d, s, p).push((p, j))
        } else {
            Seq::empty()
        }
    }
}

/// Readings of the segment `s[a..b]`, and whether they come from a dictionary entry: a
/// segment with an entry in the main dictionary (else the user one) whose reading has a KPS
/// 9566 spelling is that reading; any other segment gives the readings of its codes.
pub open spec fn segment_readings(d: G2pDicts, s: Seq<u16>, a: int, b: int, orig: Seq<u8>) -> (
    Seq<ReadingView>,
    bool,
) {
    let seg = s.subrange(a, b);
    let fallback = (word_readings_spec(d, seg, orig), false);
    match key_spec(seg) {
        None => fallback,
        Some(k) => {
            let coll = d.colligation.records_of(k);
            let recs = if coll is Some {
                coll
            } else {
                d.user.records_of(k)
            };
            match recs {
                None => fallback,
                Some(rs) => match hit_reading(*d.kps, seg, rs) {
                    Some(r) => (seq![r], true),
                    None => fallback,
                },
            }
        },
    }
}

/// Readings of the segments of `path` in order, and whether any came from a dictionary entry.
pub open spec fn path_readings(d: G2pDicts, s: Seq<u16>, path: Seq<(int, int)>, orig: Seq<u8>) -> (
    Seq<ReadingView>,
    bool,
)
    decreases path.len(),
{
    if path.len() == 0 {
        (Seq::empty(), false)
    } else {
        let before = path_readings(d, s, path.drop_last(), orig);
        let last = segment_readings(d, s, path.last().0, path.last().1, orig);
        (before.0 + last.0, before.1 || last.1)
    }
}

/// Readings of a word given as codes along its best segmentation, or `None` when the word is
/// empty or no segment of that segmentation was read from a dictionary entry.
pub open spec fn viterbi_spec(d: G2pDicts, codes: Seq<u16>, orig: Seq<u8>) -> Option<Seq<ReadingView>> {
    let s = split_finals_spec(codes);
    if s.len() == 0 {
        None
    } else {
        let r = path_readings(d, s, best_path(d, s, s.len() as int), orig);
        if r.0.len() == 0 || !r.1 {
            None
        } else {
            Some(r.0)
        }
    }
}

/// A segment adds at least its length and at most 26 more to the score before it.
proof fn lemma_step_score(d: G2pDicts, s: Seq<u16>, i: int, j: int, si: int, pi: int)
    ensures
        si + (j - i) <= step_score(d, s, i, j, si, pi) <= si + (j - i) + 26,
{
}

/// One step of [`best_before`]: the start `k - 1` is tried after those before it.
pub proof fn lemma_best_before_unfold(d: G2pDicts, s: Seq<u16>, j: int, k: int)
    ensures
        (k <= reach_lo(j) || k > j) ==> best_before(d, s, j, k) == (UNREACHED as int, -1int),
        reach_lo(j) < k <= j ==> best_before(d, s, j, k) == {
            let acc = best_before(d, s, j, k - 1);
            let p = best_end(d, s, k - 1);
            let sc = step_score(d, s, k - 1, j, p.0, p.1);
            if sc > acc.0 {
                (sc, k - 1)
            } else {
                acc
            }
        },
{
    reveal(best_before);
    reveal(best_end);
}

/// [`best_end`] of a non-empty prefix tries every start; the empty prefix scores 0.
pub proof fn lemma_best_end_unfold(d: G2pDicts, s: Seq<u16>, j: int)
    ensures
        j <= 0 ==> best_end(d, s, j) == (0int, -1int),
        j > 0 ==> best_end(d, s, j) == best_before(d, s, j, j),
{
    reveal(best_end);
    reveal(best_before);
}

/// Every non-empty prefix is reached; the best score of `s[..j]` lies in `[0, 27 j]`, and the
/// last segment starts no more than [`MAX_CANDIDATES`] codes back.
pub proof fn lemma_best_end(d: G2pDicts, s: Seq<u16>, j: int)
    ensures
        j <= 0 ==> best_end(d, s, j) == (0int, -1int),
        j > 0 ==> 0 <= best_end(d, s, j).0 <= 27 * j,
        j > 0 ==> reach_lo(j) <= best_end(d, s, j).1 < j,
    decreases j, j + 1,
{
    lemma_best_end_unfold(d, s, j);
    if j > 0 {
        lemma_best_before(d, s, j, j);
    }
}

/// Bounds on the best over segments ending at `j` and starting before `k`.
pub proof fn lemma_best_before(d: G2pDicts, s: Seq<u16>, j: int, k: int)
    ensures
        (k <= reach_lo(j) || k > j) ==> best_before(d, s, j, k) == (UNREACHED as int, -1int),
        reach_lo(j) < k <= j ==> 0 <= best_before(d, s, j, k).0 <= 27 * j,
        reach_lo(j) < k <= j ==> reach_lo(j) <= best_before(d, s, j, k).1 < k,
    decreases j, k,
{
    lemma_best_before_unfold(d, s, j, k);
    if reach_lo(j) < k <= j {
        lemma_best_before(d, s, j, k - 1);
        lemma_best_end(d, s, k - 1);
        let acc = best_before(d, s, j, k - 1);
        let p = best_end(d, s, k - 1);
        lemma_step_score(d, s, k - 1, j, p.0, p.1);
        assert(p.0 <= 27 * (k - 1));
        assert(27 * (k - 1) + (j - k + 1) + 26 <= 27 * j);
    }
}

/// Segments of the best path lie inside `s[..j]` and are not empty.
pub proof fn lemma_best_path(d: G2pDicts, s: Seq<u16>, j: int)
    ensures
        forall|t: int|
            0 <= t < best_path(d, s, j).len() ==> 0 <= (#[trigger] best_path(d, s, j)[t]).0 < best_path(
                d,
                s,
                j,
            )[t].1 <= j,
    decreases j,
{
    if j > 0 {
        let p = best_end(d, s, j).1;
        if 0 <= p < j {
            lemma_best_path(d, s, p);
            let bp = best_path(d, s, p);
            assert forall|t: int| 0 <= t < bp.push((p, j)).len() implies 0 <= (#[trigger] bp.push(
                (p, j),
            )[t]).0 < bp.push((p, j))[t].1 <= j by {
                if t < bp.len() {
                    assert(bp.push((p, j))[t] == bp[t]);
                }
            }
        }
    }
}

/// `p` read back as a start: `usize::MAX` stands for none (-1).
pub open spec fn start_view(p: usize) -> int {
    if p == usize::MAX {
        -1
    } else {
        p as int
    }
}

/// Segments in reverse order.
pub open spec fn rev_pairs(b: Seq<(int, int)>) -> Seq<(int, int)> {
    Seq::new(b.len(), |t: int| b[b.len() - 1 - t])
}

/// Pairs of positions as integers.
pub open spec fn pairs_view(b: Seq<(usize, usize)>) -> Seq<(int, int)> {
    b.map_values(|x: (usize, usize)| (x.0 as int, x.1 as int))
}

/// Best of `s[..j]` over the starts before `i` (over all of them once `i >= j`).
pub open spec fn tried(d: G2pDicts, s: Seq<u16>, j: int, i: int) -> (int, int) {
    best_before(d, s, j, if i < j { i } else { j })
}

/// `score[j - 1]` and `start[j - 1]` hold the best of `s[..j]` over the starts before `i`,
/// and over those up to `i` for the ends in `(i, i + len)`.
pub open spec fn table_holds(
    d: G2pDicts,
    s: Seq<u16>,
    score: Seq<i128>,
    start: Seq<usize>,
    i: int,
    len: int,
) -> bool {
    &&& score.len() == s.len()
    &&& start.len() == s.len()
    &&& forall|t: int|
        0 <= t < s.len() ==> {
            let j = t + 1;
            let b = if i < j && j < i + len {
                tried(d, s, j, i + 1)
            } else {
                tried(d, s, j, i)
            };
            &&& #[trigger] score[t] == b.0
            &&& start_view(start[t]) == b.1
        }
}

/// What [`table_holds`] says of one end.
proof fn lemma_table_at(
    d: G2pDicts,
    s: Seq<u16>,
    score: Seq<i128>,
    start: Seq<usize>,
    i: int,
    len: int,
    t: int,
)
    requires
        table_holds(d, s, score, start, i, len),
        0 <= t < s.len(),
    ensures
        ({
            let j = t + 1;
            let b = if i < j && j < i + len {
                tried(d, s, j, i + 1)
            } else {
                tried(d, s, j, i)
            };
            score[t] == b.0 && start_view(start[t]) == b.1
        }),
{
}

/// Trying start `i` for the end `i + len` keeps [`table_holds`], now up to that end.
proof fn lemma_relax_step(
    d: G2pDicts,
    s: Seq<u16>,
    sc0: Seq<i128>,
    st0: Seq<usize>,
    sc1: Seq<i128>,
    st1: Seq<usize>,
    i: int,
    len: int,
    v: i128,
)
    requires
        table_holds(d, s, sc0, st0, i, len),
        0 <= i,
        1 <= len <= MAX_CANDIDATES,
        i + len <= s.len(),
        i < usize::MAX,
        v == step_score(d, s, i, i + len, best_end(d, s, i).0, best_end(d, s, i).1),
        v > sc0[i + len - 1] ==> sc1 == sc0.update(i + len - 1, v) && st1 == st0.update(
            i + len - 1,
            i as usize,
        ),
        v <= sc0[i + len - 1] ==> sc1 == sc0 && st1 == st0,
    ensures
        table_holds(d, s, sc1, st1, i, len + 1),
{
    let j = i + len;
    lemma_best_before_unfold(d, s, j, i + 1);
    assert forall|t: int| 0 <= t < s.len() implies {
        let jt = t + 1;
        let b = if i < jt && jt < i + len + 1 {
            tried(d, s, jt, i + 1)
        } else {
            tried(d, s, jt, i)
        };
        &&& #[trigger] sc1[t] == b.0
        &&& start_view(st1[t]) == b.1
    } by {
        lemma_table_at(d, s, sc0, st0, i, len, t);
        if t == j - 1 {
            assert(sc0[t] == best_before(d, s, j, i).0);
            assert(start_view(st0[t]) == best_before(d, s, j, i).1);
            assert(tried(d, s, j, i + 1) == best_before(d, s, j, i + 1));
            if v > sc0[t] {
                assert(sc1[t] == v);
                assert(start_view(st1[t]) == i);
            } else {
                assert(sc1[t] == sc0[t]);
            }
        } else {
            assert(sc1[t] == sc0[t]);
            assert(st1[t] == st0[t]);
        }
    }
}

/// Whether `s[i..j]` counts as found (see [`seg_hit`]).
fn segment_found(dicts: &G2pDicts, cand: &[u16]) -> (r: bool)
    requires
        dicts.wf(),
    ensures
        r == seg_hit(*dicts, cand@, 0, cand@.len() as int),
{
    assert(cand@.subrange(0, cand@.len() as int) =~= cand@);
    let c = classify_candidate(cand);
    if c == 0x10 {
        match key_from_syllables(cand) {
            Some(key) => {
                proof {
                    dicts.colligation.lemma_searchable(key@);
                    dicts.user.lemma_searchable(key@);
                }
                dicts.colligation.lookup_records(&key).is_some() || dicts.user.lookup_records(
                    &key,
                ).is_some()
            },
            None => false,
        }
    } else {
        c == 1 || c == 2
    }
}

/// Score of the segment `s[i..j]` after the best segmentation of `s[..i]`, which scores `si`
/// and whose last segment starts at `pi`.
fn segment_score(dicts: &G2pDicts, split: &[u16], i: usize, j: usize, si: i128, pi: usize) -> (r: i128)
    requires
        dicts.wf(),
        i < j <= split@.len(),
        0 <= si <= 27 * i,
        start_view(pi) == best_end(*dicts, split@, i as int).1,
        i > 0 ==> pi < i,
    ensures
        r == step_score(*dicts, split@, i as int, j as int, si as int, start_view(pi)),
{
    let cand = sub_vec(split, i, j);
    let hit = segment_found(dicts, &cand);
    assert(cand@.subrange(0, cand@.len() as int) =~= split@.subrange(i as int, j as int));
    let mut sc: i128 = si + (j - i) as i128;
    if hit {
        sc = sc + 20;
        if i > 0 && pi != usize::MAX {
            let before = sub_vec(split, pi, i);
            if conjects_verify(dicts, &before, MORPH_TYPE_BASE, &cand, MORPH_TYPE_BASE) {
                sc = sc + 6;
            }
        }
    }
    sc
}

/// Try start `i` for every end it can reach.
#[verifier::spinoff_prover]
#[verifier::rlimit(40)]
fn relax_from(
    dicts: &G2pDicts,
    split: &[u16],
    i: usize,
    si: i128,
    pi: usize,
    score: &mut Vec<i128>,
    start: &mut Vec<usize>,
)
    requires
        dicts.wf(),
        i < split@.len(),
        si == best_end(*dicts, split@, i as int).0,
        start_view(pi) == best_end(*dicts, split@, i as int).1,
        i > 0 ==> reach_lo(i as int) <= pi < i,
        0 <= si <= 27 * i,
        table_holds(*dicts, split@, old(score)@, old(start)@, i as int, 1),
    ensures
        table_holds(*dicts, split@, final(score)@, final(start)@, i + 1, 1),
{
    let ghost d = *dicts;
    let ghost s = split@;
    let n = split.len();
    let mut len: usize = 1;
    while len <= n - i && len <= MAX_CANDIDATES
        invariant
            n == s.len(),
            s == split@,
            d == *dicts,
            dicts.wf(),
            i < n,
            1 <= len,
            len <= n - i + 1,
            len <= MAX_CANDIDATES + 1,
            si == best_end(d, s, i as int).0,
            start_view(pi) == best_end(d, s, i as int).1,
            i > 0 ==> reach_lo(i as int) <= pi < i,
            0 <= si <= 27 * i,
            table_holds(d, s, score@, start@, i as int, len as int),
        decreases n - i + 1 - len,
    {
        let j = i + len;
        let ghost sc0 = score@;
        let ghost st0 = start@;
        let sc = segment_score(dicts, split, i, j, si, pi);
        if sc > score[j - 1] {
            score.set(j - 1, sc);
            start.set(j - 1, i);
        }
        proof {
            lemma_relax_step(d, s, sc0, st0, score@, start@, i as int, len as int, sc);
        }
        len = len + 1;
    }
    proof {
        assert(table_holds(d, s, score@, start@, i as int, len as int));
        assert forall|t: int| 0 <= t < n implies {
            let j = t + 1;
            let b = tried(d, s, j, i + 1);
            &&& #[trigger] score@[t] == b.0
            &&& start_view(start@[t]) == b.1
        } by {
            let j = t + 1;
            let b0 = if i < j && j < i + len {
                tried(d, s, j, i + 1)
            } else {
                tried(d, s, j, i as int)
            };
            lemma_table_at(d, s, score@, start@, i as int, len as int, t);
            assert(score@[t] == b0.0 && start_view(start@[t]) == b0.1);
            if i < j && j >= i + len {
                assert(len > MAX_CANDIDATES);
                assert(i + 1 <= reach_lo(j));
                lemma_best_before(d, s, j, i as int);
                lemma_best_before(d, s, j, i + 1);
                assert(tried(d, s, j, i as int) == tried(d, s, j, i + 1));
            } else if j <= i {
                assert(tried(d, s, j, i as int) == tried(d, s, j, i + 1));
            }
        }
        assert(table_holds(d, s, score@, start@, i + 1, 1));
    }
}

/// Best score and start of the last segment of every prefix `s[..t + 1]`, at index `t`.
fn fill_best(dicts: &G2pDicts, split: &[u16]) -> (r: (Vec<i128>, Vec<usize>))
    requires
        dicts.wf(),
    ensures
        r.0@.len() == split@.len(),
        r.1@.len() == split@.len(),
        forall|t: int|
            0 <= t < split@.len() ==> #[trigger] r.0@[t] == best_end(*dicts, split@, t + 1).0,
        forall|t: int|
            0 <= t < split@.len() ==> start_view(#[trigger] r.1@[t]) == best_end(
                *dicts,
                split@,
                t + 1,
            ).1,
{
    let ghost d = *dicts;
    let ghost s = split@;
    let n = split.len();
    let mut score: Vec<i128> = Vec::new();
    let mut start: Vec<usize> = Vec::new();
    let mut q: usize = 0;
    while q < n
        invariant
            q <= n,
            score@.len() == q,
            start@.len() == q,
            forall|t: int| 0 <= t < q ==> #[trigger] score@[t] == UNREACHED && start@[t] == usize::MAX,
        decreases n - q,
    {
        score.push(UNREACHED);
        start.push(usize::MAX);
        q = q + 1;
    }
    proof {
        assert forall|t: int| 0 <= t < n implies {
            let b = tried(d, s, t + 1, 0);
            &&& #[trigger] score@[t] == b.0
            &&& start_view(start@[t]) == b.1
        } by {
            lemma_best_before_unfold(d, s, t + 1, 0);
        }
    }
    let mut i: usize = 0;
    while i < n
        invariant
            n == s.len(),
            s == split@,
            d == *dicts,
            dicts.wf(),
            i <= n,
            table_holds(d, s, score@, start@, i as int, 1),
        decreases n - i,
    {
        let si: i128 = if i == 0 {
            0
        } else {
            score[i - 1]
        };
        let pi: usize = if i == 0 {
            usize::MAX
        } else {
            start[i - 1]
        };
        proof {
            lemma_best_end(d, s, i as int);
            lemma_best_end_unfold(d, s, i as int);
        }
        relax_from(dicts, split, i, si, pi, &mut score, &mut start);
        i = i + 1;
    }
    proof {
        assert forall|t: int| 0 <= t < n implies #[trigger] score@[t] == best_end(d, s, t + 1).0
            && start_view(start@[t]) == best_end(d, s, t + 1).1 by {
            lemma_best_end_unfold(d, s, t + 1);
            lemma_table_at(d, s, score@, start@, n as int, 1, t);
        }
        assert forall|t: int| 0 <= t < n implies start_view(#[trigger] start@[t]) == best_end(
            d,
            s,
            t + 1,
        ).1 by {
            assert(score@[t] == best_end(d, s, t + 1).0);
        }
    }
    (score, start)
}

/// Readings of one segment of the best path (see [`segment_readings`]).
fn read_segment(dicts: &G2pDicts, seg: &[u16], orig_bytes: &[u8]) -> (r: (Vec<Reading>, bool))
    requires
        dicts.wf(),
    ensures
        (rviews(r.0@), r.1) == segment_readings(*dicts, seg@, 0, seg@.len() as int, orig_bytes@),
{
    assert(seg@.subrange(0, seg@.len() as int) =~= seg@);
    if let Some(key) = key_from_syllables(seg) {
        proof {
            dicts.colligation.lemma_searchable(key@);
            dicts.user.lemma_searchable(key@);
        }
        let recs = match dicts.colligation.lookup_records(&key) {
            Some(rs) => Some(rs),
            None => dicts.user.lookup_records(&key),
        };
        if let Some(rs) = recs {
            if let Some(rd) = reading_from_hit(dicts.kps, seg, &rs) {
                let v = vec![rd];
                assert(rviews(v@) =~= seq![rview(rd)]);
                return (v, true);
            }
        }
    }
    (word_to_readings_codes(dicts, seg, orig_bytes), false)
}

/// Segments of the best segmentation of `s[..n]`, last first.
fn best_segments(dicts: &G2pDicts, split: &[u16], start: &Vec<usize>) -> (r: Vec<(usize, usize)>)
    requires
        start@.len() == split@.len(),
        forall|t: int|
            0 <= t < split@.len() ==> start_view(#[trigger] start@[t]) == best_end(
                *dicts,
                split@,
                t + 1,
            ).1,
    ensures
        best_path(*dicts, split@, split@.len() as int) == rev_pairs(pairs_view(r@)),
{
    let ghost d = *dicts;
    let ghost s = split@;
    let n = split.len();
    let mut rev: Vec<(usize, usize)> = Vec::new();
    let mut cur: usize = n;
    assert(rev_pairs(pairs_view(rev@)) =~= Seq::<(int, int)>::empty());
    assert(best_path(d, s, n as int) =~= best_path(d, s, n as int) + Seq::<(int, int)>::empty());
    while cur > 0
        invariant
            n == s.len(),
            s == split@,
            d == *dicts,
            cur <= n,
            start@.len() == n,
            forall|t: int| 0 <= t < n ==> start_view(#[trigger] start@[t]) == best_end(d, s, t + 1).1,
            best_path(d, s, n as int) == best_path(d, s, cur as int) + rev_pairs(pairs_view(rev@)),
        decreases cur,
    {
        let p = start[cur - 1];
        proof {
            lemma_best_end(d, s, cur as int);
            assert(start_view(start@[cur - 1]) == best_end(d, s, cur as int).1);
        }
        let ghost old_rev = pairs_view(rev@);
        rev.push((p, cur));
        proof {
            let x = (p as int, cur as int);
            assert(pairs_view(rev@) =~= old_rev.push(x));
            assert(rev_pairs(old_rev.push(x)) =~= seq![x] + rev_pairs(old_rev));
            assert(best_path(d, s, cur as int) == best_path(d, s, p as int).push(x));
            assert(best_path(d, s, p as int).push(x) + rev_pairs(old_rev) =~= best_path(d, s, p as int)
                + (seq![x] + rev_pairs(old_rev)));
        }
        cur = p;
    }
    assert(best_path(d, s, 0) + rev_pairs(pairs_view(rev@)) =~= rev_pairs(pairs_view(rev@)));
    rev
}

/// Intra-word segmentation: readings of a word given as codes along its best-scoring
/// segmentation into dictionary morphemes (see [`viterbi_spec`]); `orig_bytes` is the word's
/// spelling, handed to the reading of segments that are no dictionary entry. `None` when the
/// word is empty or no segment was read from a dictionary entry.
#[verifier::spinoff_prover]
#[verifier::rlimit(40)]
pub fn viterbi_single_chunk(dicts: &G2pDicts, codes: &[u16], orig_bytes: &[u8]) -> (r: Option<
    Vec<Reading>,
>)
    requires
        dicts.wf(),
    ensures
        match r {
            Some(v) => viterbi_spec(*dicts, codes@, orig_bytes@) == Some(rviews(v@)),
            None => viterbi_spec(*dicts, codes@, orig_bytes@) is None,
        },
{
    let split = split_finals(codes);
    let ghost s = split@;
    let ghost d = *dicts;
    let n = split.len();
    if n == 0 {
        return None;
    }
    let (_score, start) = fill_best(dicts, &split);
    let mut rev = best_segments(dicts, &split, &start);
    let ghost path = best_path(d, s, n as int);
    let ghost m = rev@.len() as int;
    proof {
        lemma_best_path(d, s, n as int);
        assert(path.len() == m);
    }
    let mut all: Vec<Reading> = Vec::new();
    let mut any_hit = false;
    assert(path.take(0) =~= Seq::<(int, int)>::empty());
    while rev.len() > 0
        invariant
            s == split@,
            n == s.len(),
            d == *dicts,
            dicts.wf(),
            m == path.len(),
            path == best_path(d, s, n as int),
            rev@.len() <= m,
            forall|t: int|
                0 <= t < rev@.len() ==> path[m - 1 - t] == (
                    (#[trigger] rev@[t]).0 as int,
                    rev@[t].1 as int,
                ),
            forall|t: int| 0 <= t < m ==> 0 <= (#[trigger] path[t]).0 < path[t].1 <= n,
            (rviews(all@), any_hit) == path_readings(d, s, path.take(m - rev@.len()), orig_bytes@),
        decreases rev@.len(),
    {
        let k = rev.len();
        let (a, b) = rev[k - 1];
        let ghost done = m - k;
        proof {
            assert(path[done] == (a as int, b as int));
        }
        rev.pop();
        let seg = sub_vec(&split, a, b);
        let (mut rs, h) = read_segment(dicts, &seg, orig_bytes);
        let ghost before = rviews(all@);
        let ghost added = rviews(rs@);
        all.append(&mut rs);
        any_hit = any_hit || h;
        proof {
            assert(seg@ =~= s.subrange(a as int, b as int));
            assert(seg@.subrange(0, seg@.len() as int) =~= seg@);
            assert(path.take(done + 1).drop_last() =~= path.take(done));
            assert(path.take(done + 1).last() == path[done]);
            assert(rviews(all@) =~= before + added);
        }
    }
    assert(path.take(m) =~= path);
    if all.len() == 0 || !any_hit {
        None
    } else {
        Some(all)
    }
}

/// Codes of the first of some readings (none when there is no reading or its bytes do not
/// convert).
pub open spec fn first_codes(d: G2pDicts, rs: Seq<ReadingView>) -> Seq<u16> {
    if rs.len() > 0 {
        match kps_codes_from(*d.kps, rs[0].0, 0) {
            Some(c) => c,
            None => Seq::empty(),
        }
    } else {
        Seq::empty()
    }
}

/// What window `i` gives after `prev`, the result of the window before it: its intra-word
/// segmentation `res`, unless both have readings whose first ones convert to codes that may
/// not connect, in which case its morphology readings.
pub open spec fn window_result(
    d: G2pDicts,
    prev: Option<Seq<ReadingView>>,
    res: Option<Seq<ReadingView>>,
    codes: Seq<u16>,
    orig: Seq<u8>,
    i: int,
) -> Option<Seq<ReadingView>> {
    if i > 0 && prev is Some && res is Some {
        let pc = first_codes(d, prev->0);
        let cc = first_codes(d, res->0);
        if pc.len() > 0 && cc.len() > 0 && !conjects_spec(d, pc, MORPH_TYPE_BASE, cc, MORPH_TYPE_BASE) {
            morphology_spec(d, codes, orig)
        } else {
            res
        }
    } else {
        res
    }
}

/// Spelling of window `i`: its entry in `origs`, or nothing past its end.
pub open spec fn orig_at(origs: Seq<Seq<u8>>, i: int) -> Seq<u8> {
    if 0 <= i < origs.len() {
        origs[i]
    } else {
        Seq::empty()
    }
}

/// Results of the windows in order (see [`window_result`]).
pub open spec fn sentence_viterbi_spec(d: G2pDicts, windows: Seq<Seq<u16>>, origs: Seq<Seq<u8>>) -> Seq<
    Option<Seq<ReadingView>>,
>
    decreases windows.len(),
{
    if windows.len() == 0 {
        Seq::empty()
    } else {
        let before = sentence_viterbi_spec(d, windows.drop_last(), origs);
        let i = windows.len() - 1;
        let codes = windows.last();
        let orig = orig_at(origs, i);
        let prev = if before.len() > 0 {
            before.last()
        } else {
            None
        };
        before.push(window_result(d, prev, viterbi_spec(d, codes, orig), codes, orig, i))
    }
}

/// A result as plain values.
pub open spec fn result_view(o: Option<Vec<Reading>>) -> Option<Seq<ReadingView>> {
    match o {
        Some(v) => Some(rviews(v@)),
        None => None,
    }
}

/// Codes of the first reading (see [`first_codes`]).
fn first_reading_codes(dicts: &G2pDicts, rs: &Vec<Reading>) -> (r: Vec<u16>)
    requires
        dicts.wf(),
    ensures
        r@ == first_codes(*dicts, rviews(rs@)),
{
    if rs.len() > 0 {
        match kps_bytes_to_codes(dicts.kps, &rs[0].bytes) {
            Some(c) => c,
            None => Vec::new(),
        }
    } else {
        Vec::new()
    }
}

/// Sentence-level segmentation: each window (a word's codes, with its spelling at the same
/// index of `orig_bytes_list`) is segmented on its own, and a window whose first reading may
/// not connect to the first reading of the window before falls back to its morphology
/// readings (see [`sentence_viterbi_spec`]).
pub fn sentence_morphology_viterbi(
    dicts: &G2pDicts,
    windows: &[Vec<u16>],
    orig_bytes_list: &[Vec<u8>],
) -> (r: Vec<Option<Vec<Reading>>>)
    requires
        dicts.wf(),
    ensures
        r@.map_values(|o: Option<Vec<Reading>>| result_view(o)) == sentence_viterbi_spec(
            *dicts,
            windows@.map_values(|w: Vec<u16>| w@),
            orig_bytes_list@.map_values(|o: Vec<u8>| o@),
        ),
{
    let ghost d = *dicts;
    let ghost ws = windows@.map_values(|w: Vec<u16>| w@);
    let ghost os = orig_bytes_list@.map_values(|o: Vec<u8>| o@);
    let mut out: Vec<Option<Vec<Reading>>> = Vec::new();
    let mut i: usize = 0;
    assert(ws.take(0) =~= Seq::<Seq<u16>>::empty());
    while i < windows.len()
        invariant
            d == *dicts,
            dicts.wf(),
            i <= windows@.len(),
            ws == windows@.map_values(|w: Vec<u16>| w@),
            os == orig_bytes_list@.map_values(|o: Vec<u8>| o@),
            out@.map_values(|o: Option<Vec<Reading>>| result_view(o)) == sentence_viterbi_spec(
                d,
                ws.take(i as int),
                os,
            ),
            out@.len() == i,
        decreases windows@.len() - i,
    {
        let ghost before = out@.map_values(|o: Option<Vec<Reading>>| result_view(o));
        let empty: Vec<u8> = Vec::new();
        let orig: &Vec<u8> = if i < orig_bytes_list.len() {
            &orig_bytes_list[i]
        } else {
            &empty
        };
        let codes = &windows[i];
        proof {
            assert(ws.take(i + 1).drop_last() =~= ws.take(i as int));
            assert(ws.take(i + 1).last() == codes@);
            assert(orig@ == orig_at(os, i as int));
        }
        let res = viterbi_single_chunk(dicts, codes, orig);
        let ghost rv = result_view(res);
        let mut chosen = res;
        if i > 0 {
            let last = &out[i - 1];
            proof {
                assert(before[i - 1] == result_view(*last));
            }
            match (last, &chosen) {
                (Some(prev), Some(cur)) => {
                    let prev_codes = first_reading_codes(dicts, prev);
                    let cur_codes = first_reading_codes(dicts, cur);
                    if prev_codes.len() > 0 && cur_codes.len() > 0 && !conjects_verify(
                        dicts,
                        &prev_codes,
                        MORPH_TYPE_BASE,
                        &cur_codes,
                        MORPH_TYPE_BASE,
                    ) {
                        chosen = morphology_skeleton(dicts, codes, orig);
                    }
                },
                _ => {},
            }
        }
        out.push(chosen);
        proof {
            assert(out@.map_values(|o: Option<Vec<Reading>>| result_view(o)) =~= before.push(
                result_view(chosen),
            ));
        }
        i = i + 1;
    }
    assert(ws.take(windows@.len() as int) =~= ws);
    out
}

} // verus!
