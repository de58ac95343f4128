//! Tone classes, sentence sandhi, and the 16-value class normalization.
use vstd::prelude::*;
use crate::record::{
    init_from_marker_spec, ProsodyRecord, MARKER_SENTENCE_END, MARKER_SPECIAL,
};

verus! {

/// Tone-class map: 16 rows of 16 tone classes; row heads are the canonical classes.
pub const TONE_CLASS_MAP: [u8; 256] = [
    40, 30, 41, 31, 10, 11, 0, 1, 3, 13, 4, 14, 33, 43, 34, 44, 4, 14, 3, 13, 1, 11, 0, 10, 30, 31,
    40, 41, 33, 34, 43, 44, 30, 40, 31, 41, 10, 11, 0, 1, 3, 13, 4, 14, 33, 43, 34, 44, 3, 13, 4,
    14, 1, 11, 0, 10, 30, 31, 40, 41, 33, 34, 43, 44, 10, 11, 30, 40, 31, 41, 0, 1, 3, 13, 4, 14,
    33, 43, 34, 44, 1, 11, 0, 10, 3, 13, 4, 14, 30, 31, 40, 41, 33, 34, 43, 44, 41, 31, 40, 30, 11,
    10, 0, 1, 3, 13, 4, 14, 33, 43, 34, 44, 14, 4, 13, 3, 11, 1, 0, 10, 30, 31, 40, 41, 33, 34, 43,
    44, 31, 41, 30, 40, 11, 10, 0, 1, 3, 13, 4, 14, 33, 43, 34, 44, 13, 3, 14, 4, 11, 10, 1, 0, 30,
    31, 40, 41, 33, 34, 43, 44, 11, 10, 1, 0, 30, 31, 3, 13, 40, 41, 4, 14, 33, 43, 34, 44, 33, 34,
    43, 41, 14, 31, 13, 30, 3, 40, 4, 11, 10, 1, 0, 44, 34, 33, 43, 14, 4, 13, 3, 41, 31, 11, 10,
    30, 40, 10, 0, 44, 43, 33, 34, 41, 40, 31, 30, 14, 13, 11, 10, 3, 4, 1, 0, 44, 44, 33, 43, 34,
    41, 14, 31, 13, 40, 4, 30, 3, 11, 0, 1, 10, 0, 11, 1, 10, 30, 31, 40, 41, 3, 13, 4, 14, 33, 43,
    34, 44,
];

/// The 16 canonical tone classes, in row order of [`TONE_CLASS_MAP`].
pub const NORMALIZED_CLASSES: [u8; 16] = [40, 4, 30, 3, 10, 1, 41, 14, 31, 13, 11, 33, 34, 43, 44, 0];

/// Tone level of a class (tens digit).
pub fn level(cls: u8) -> (r: u8)
    ensures
        r == cls / 10,
{
    cls / 10
}

/// Tone value of a class (units digit).
pub fn tone(cls: u8) -> (r: u8)
    ensures
        r == cls % 10,
{
    cls % 10
}

/// Initial tone class of a G2P marker (low 7 bits): 1→1, 2|5→3, 3→2, 6→5, 7→4, else 0.
pub open spec fn initial_tone_class_spec(marker: u8) -> u8 {
    let m = marker % 128;
    if m == 1 {
        1
    } else if m == 2 || m == 5 {
        3
    } else if m == 3 {
        2
    } else if m == 6 {
        5
    } else if m == 7 {
        4
    } else {
        0
    }
}

/// Initial tone class of a G2P marker byte (its low 7 bits).
pub fn initial_tone_class(marker: u8) -> (r: u8)
    ensures
        r == initial_tone_class_spec(marker),
{
    match marker % 128 {
        1 => 1,
        2 | 5 => 3,
        3 => 2,
        6 => 5,
        7 => 4,
        _ => 0,
    }
}

/// Tone class the pump assigns to a stale marker 4 (always 1).
pub fn initial_tone_class_marker4_stale() -> (r: u8)
    ensures
        r == 1,
{
    1
}

/// The records of one sentence before sandhi: record `i` carries `codes[i]` and the initial
/// class of `markers[i]`; the last record is the sentence-final one.
pub open spec fn sentence_records(codes: Seq<u16>, markers: Seq<u8>) -> Seq<ProsodyRecord> {
    Seq::new(
        codes.len(),
        |i: int|
            init_from_marker_spec(
                ProsodyRecord { prev_code: 0, code: codes[i], marker: 0, flags: 0, tone_class: 0 },
                markers[i],
                i + 1 == codes.len(),
            ),
    )
}

/// Build one sentence's records from the G2P codes and marker bytes (equal lengths).
pub fn build_sentence(codes: &[u16], markers: &[u8]) -> (r: Vec<ProsodyRecord>)
    requires
        codes@.len() == markers@.len(),
    ensures
        r@ == sentence_records(codes@, markers@),
{
    let n = codes.len();
    let mut out: Vec<ProsodyRecord> = Vec::new();
    let mut i: usize = 0;
    while i < n
        invariant
            n == codes@.len(),
            n == markers@.len(),
            i <= n,
            out@ == sentence_records(codes@, markers@).take(i as int),
        decreases n - i,
    {
        let mut r = ProsodyRecord::new(codes[i]);
        r.init_from_marker(markers[i], i + 1 == n);
        out.push(r);
        i = i + 1;
        assert(out@ =~= sentence_records(codes@, markers@).take(i as int));
    }
    assert(out@ =~= sentence_records(codes@, markers@));
    out
}

/// Head of row `i` of [`TONE_CLASS_MAP`].
pub open spec fn row_head(i: int) -> u8 {
    TONE_CLASS_MAP@[16 * i]
}

/// Row of the canonical class `cls` (first row whose head equals `cls`), or `None`.
pub fn normalize_class(cls: u8) -> (r: Option<u8>)
    ensures
        match r {
            Some(i) => i < 16 && row_head(i as int) == cls && forall|k: int|
                0 <= k < i ==> row_head(k) != cls,
            None => forall|k: int| 0 <= k < 16 ==> row_head(k) != cls,
        },
{
    let mut i: u8 = 0;
    while i < 16
        invariant
            i <= 16,
            forall|k: int| 0 <= k < i ==> row_head(k) != cls,
        decreases 16 - i,
    {
        if TONE_CLASS_MAP[i as usize * 16] == cls {
            return Some(i);
        }
        i = i + 1;
    }
    None
}

/// Class after the VoiceInfo remapping: level 2 becomes level 3, then tone 2 → 3 and 5 → 4.
pub open spec fn voiceinfo_class(cls: u8) -> u8 {
    let c = if cls / 10 == 2 { cls % 10 + 0x1E } else { cls as int };
    if c % 10 == 2 {
        (c / 10 * 10 + 3) as u8
    } else if c % 10 == 5 {
        (c / 10 * 10 + 4) as u8
    } else {
        c as u8
    }
}

/// Normalize a VoiceInfo class: remap (see [`voiceinfo_class`]) then [`normalize_class`].
pub fn normalize_voiceinfo_class(cls: u8) -> (r: Option<u8>)
    ensures
        match r {
            Some(i) => i < 16 && row_head(i as int) == voiceinfo_class(cls) && forall|k: int|
                0 <= k < i ==> row_head(k) != voiceinfo_class(cls),
            None => forall|k: int| 0 <= k < 16 ==> row_head(k) != voiceinfo_class(cls),
        },
{
    let mut c = cls;
    if level(c) == 2 {
        c = tone(c) + 0x1E;
    }
    let t = tone(c);
    if t == 2 {
        c = level(c) * 10 + 3;
    } else if t == 5 {
        c = level(c) * 10 + 4;
    }
    normalize_class(c)
}

/// Unit code of an inter-word pause record; sandhi skips it.
pub const PAUSE_CODE: u16 = 0x1486;

/// A record with its tone class replaced.
pub open spec fn with_tone(r: ProsodyRecord, t: u8) -> ProsodyRecord {
    ProsodyRecord { tone_class: t, ..r }
}

/// `x + y` reduced modulo 256 (the byte arithmetic of the tone pass).
pub open spec fn wrap_add(x: u8, y: int) -> u8 {
    ((x + y) % 256) as u8
}

/// Walk back from `j` over pause records, stopping at index 0.
pub open spec fn scan_back(s: Seq<ProsodyRecord>, j: int) -> int
    decreases j,
{
    if j > 0 && s[j].code == PAUSE_CODE {
        scan_back(s, j - 1)
    } else {
        j
    }
}

/// Record `i` takes its previous tone from the buffer's last record rather than the sentence.
pub open spec fn uses_buffer(s: Seq<ProsodyRecord>, i: int) -> bool {
    i == 0 || (scan_back(s, i - 1) == 0 && s[0].code == PAUSE_CODE)
}

/// One sandhi step for sentence record `i` over (buffer, sentence).
pub open spec fn sandhi_step(
    b: Seq<ProsodyRecord>,
    s: Seq<ProsodyRecord>,
    i: int,
) -> (Seq<ProsodyRecord>, Seq<ProsodyRecord>) {
    let ac = b.len() as int;
    if s[i].code == PAUSE_CODE {
        (b, s)
    } else {
        let fb = uses_buffer(s, i);
        let j = scan_back(s, i - 1);
        let pt = if fb {
            b[ac - 1].tone_class % 10
        } else {
            s[j].tone_class % 10
        };
        if pt == 5 {
            let b1 = if fb {
                b.update(ac - 1, with_tone(b[ac - 1], 5))
            } else {
                b
            };
            let s1 = if fb {
                s
            } else {
                s.update(j, with_tone(s[j], 5))
            };
            (b1, s1.update(i, with_tone(s1[i], wrap_add(s1[i].tone_class, 0x1E))))
        } else {
            (b, s.update(i, with_tone(s[i], wrap_add(s[i].tone_class, pt * 10))))
        }
    }
}

/// Sandhi steps for records `i..n` of the sentence.
pub open spec fn sandhi_from(
    b: Seq<ProsodyRecord>,
    s: Seq<ProsodyRecord>,
    i: int,
    n: int,
) -> (Seq<ProsodyRecord>, Seq<ProsodyRecord>)
    decreases n - i,
{
    if i < 0 || i >= n {
        (b, s)
    } else {
        let st = sandhi_step(b, s, i);
        sandhi_from(st.0, st.1, i + 1, n)
    }
}

/// Boundary linking of the first record once all steps are done.
pub open spec fn link_first(
    b: Seq<ProsodyRecord>,
    s: Seq<ProsodyRecord>,
) -> Seq<ProsodyRecord> {
    let ac = b.len() as int;
    if ac == 0 {
        s.update(0, with_tone(s[0], (s[0].tone_class % 10 + 0x28) as u8))
    } else {
        let first = if b[ac - 1].marker == MARKER_SENTENCE_END {
            ProsodyRecord { marker: MARKER_SPECIAL, ..s[0] }
        } else {
            s[0]
        };
        s.update(0, with_tone(first, ((b[ac - 1].tone_class % 10) * 10 + s[0].tone_class % 10) as u8))
    }
}

/// The buffer after appending `s` with sandhi (identity for an empty sentence).
pub open spec fn sandhi_result(b: Seq<ProsodyRecord>, s: Seq<ProsodyRecord>) -> Seq<ProsodyRecord> {
    if s.len() == 0 {
        b
    } else {
        let st = sandhi_from(b, s, if b.len() == 0 { 1 } else { 0 }, s.len() as int);
        st.0 + link_first(st.0, st.1)
    }
}

/// The sentence as it stands after sandhi (unchanged when empty).
pub open spec fn sandhi_sentence(b: Seq<ProsodyRecord>, s: Seq<ProsodyRecord>) -> Seq<ProsodyRecord> {
    if s.len() == 0 {
        s
    } else {
        let st = sandhi_from(b, s, if b.len() == 0 { 1 } else { 0 }, s.len() as int);
        link_first(st.0, st.1)
    }
}

/// Sandhi is defined on (buffer, sentence): the pass would otherwise read before the buffer.
/// That happens only when the buffer is empty and the sentence opens with a pause record and
/// has a non-pause record later (that record then takes its previous tone from the buffer).
pub open spec fn sandhi_defined(b: Seq<ProsodyRecord>, s: Seq<ProsodyRecord>) -> bool {
    !(s.len() > 0 && s[0].code == PAUSE_CODE && (exists|k: int|
        0 <= k < s.len() && s[k].code != PAUSE_CODE) && b.len() == 0)
}

/// Whether sandhi is defined on (buffer, sentence) (see [`sandhi_defined`]).
pub fn sandhi_is_defined(buf: &Vec<ProsodyRecord>, sentence: &Vec<ProsodyRecord>) -> (r: bool)
    ensures
        r == sandhi_defined(buf@, sentence@),
{
    let n = sentence.len();
    if n == 0 || sentence[0].code != PAUSE_CODE {
        return true;
    }
    let mut k: usize = 0;
    while k < n && sentence[k].code == PAUSE_CODE
        invariant
            n == sentence@.len(),
            k <= n,
            forall|q: int| 0 <= q < k ==> (#[trigger] sentence@[q]).code == PAUSE_CODE,
        decreases n - k,
    {
        k = k + 1;
    }
    if k == n {
        return true;
    }
    buf.len() != 0
}

/// The step for record `i` reads and writes only inside the buffer and the sentence.
pub open spec fn step_in_bounds(b: Seq<ProsodyRecord>, s: Seq<ProsodyRecord>, i: int) -> bool {
    s[i].code != PAUSE_CODE && uses_buffer(s, i) ==> b.len() > 0
}

/// Where record `i` finds its previous tone: `(true, _)` for the buffer, `(false, j)` for
/// sentence record `j`.
fn previous_ref(sentence: &Vec<ProsodyRecord>, i: usize) -> (r: (bool, usize))
    requires
        i < sentence@.len(),
    ensures
        r.0 == uses_buffer(sentence@, i as int),
        i > 0 ==> r.1 == scan_back(sentence@, i - 1),
        i > 0 ==> r.1 < i,
{
    let mut j: usize = 0;
    if i > 0 {
        j = i - 1;
        while j > 0 && sentence[j].code == PAUSE_CODE
            invariant
                0 <= j < i,
                i < sentence@.len(),
                scan_back(sentence@, j as int) == scan_back(sentence@, i - 1),
            decreases j,
        {
            j = j - 1;
        }
    }
    (i == 0 || (j == 0 && sentence[0].code == PAUSE_CODE), j)
}

/// Byte addition modulo 256.
fn add_mod_256(x: u8, y: u8) -> (r: u8)
    ensures
        r == wrap_add(x, y as int),
{
    ((x as u16 + y as u16) % 256) as u8
}

/// Set the tone class of record `k`.
fn set_tone(v: &mut Vec<ProsodyRecord>, k: usize, t: u8)
    requires
        k < old(v)@.len(),
    ensures
        final(v)@ == old(v)@.update(k as int, with_tone(old(v)@[k as int], t)),
{
    let mut r = v[k];
    r.tone_class = t;
    v.set(k, r);
}

/// Apply [`sandhi_step`] to record `i`.
#[verifier::rlimit(40)]
fn sandhi_one(buf: &mut Vec<ProsodyRecord>, sentence: &mut Vec<ProsodyRecord>, i: usize)
    requires
        i < old(sentence)@.len(),
        step_in_bounds(old(buf)@, old(sentence)@, i as int),
    ensures
        (final(buf)@, final(sentence)@) == sandhi_step(old(buf)@, old(sentence)@, i as int),
        final(buf)@.len() == old(buf)@.len(),
        final(sentence)@.len() == old(sentence)@.len(),
        forall|k: int|
            0 <= k < final(sentence)@.len() ==> #[trigger] final(sentence)@[k].code == old(
                sentence,
            )@[k].code,
        old(buf)@.len() > 0 ==> final(buf)@[old(buf)@.len() - 1].tone_class % 10 == old(
            buf,
        )@[old(buf)@.len() - 1].tone_class % 10,
        old(buf)@.len() > 0 ==> final(buf)@[old(buf)@.len() - 1].marker == old(
            buf,
        )@[old(buf)@.len() - 1].marker,
{
    let ac = buf.len();
    if sentence[i].code == PAUSE_CODE {
        return;
    }
    let (fb, j) = previous_ref(sentence, i);
    let pt: u8 = if fb {
        buf[ac - 1].tone_class % 10
    } else {
        sentence[j].tone_class % 10
    };
    if pt == 5 {
        if fb {
            set_tone(buf, ac - 1, 5);
        } else {
            set_tone(sentence, j, 5);
        }
        let t = add_mod_256(sentence[i].tone_class, 0x1E);
        set_tone(sentence, i, t);
    } else {
        let t = add_mod_256(sentence[i].tone_class, pt * 10);
        set_tone(sentence, i, t);
    }
}

/// Append one sentence's records to `buf`, applying tone sandhi and sentence-boundary linking.
///
/// Each non-pause record adds ten times the tone of the nearest earlier non-pause record (or of
/// the buffer's last record) to its class; a previous tone of 5 instead pins that previous record
/// (in the sentence, or the buffer's last record) to class 5 and adds 30. The first record is then linked to the buffer's last record (or gets
/// level 4 when the buffer is empty).
pub fn apply_sandhi(buf: &mut Vec<ProsodyRecord>, sentence: &mut Vec<ProsodyRecord>)
    requires
        sandhi_defined(old(buf)@, old(sentence)@),
    ensures
        final(buf)@ == sandhi_result(old(buf)@, old(sentence)@),
        final(sentence)@ == sandhi_sentence(old(buf)@, old(sentence)@),
{
    let ghost b0 = buf@;
    let ghost s0 = sentence@;
    let ac = buf.len();
    let n = sentence.len();
    if n == 0 {
        return;
    }
    let first: usize = if ac == 0 {
        1
    } else {
        0
    };
    let mut i: usize = first;
    while i < n
        invariant
            ac == buf@.len(),
            n == sentence@.len(),
            n == s0.len(),
            ac == b0.len(),
            n > 0,
            first == (if ac == 0 {
                1usize
            } else {
                0usize
            }),
            first <= i <= n,
            sandhi_defined(b0, s0),
            forall|k: int| 0 <= k < n ==> #[trigger] sentence@[k].code == s0[k].code,
            ac > 0 ==> buf@[ac - 1].tone_class % 10 == b0[ac - 1].tone_class % 10,
            ac > 0 ==> buf@[ac - 1].marker == b0[ac - 1].marker,
            sandhi_from(buf@, sentence@, i as int, n as int) == sandhi_from(
                b0,
                s0,
                first as int,
                n as int,
            ),
        decreases n - i,
    {
        proof {
            let s = sentence@;
            if s[i as int].code != PAUSE_CODE && uses_buffer(s, i as int) && i > 0 {
                assert(s0[i as int].code != PAUSE_CODE);
                assert(s[0].code == s0[0].code);
            }
        }
        sandhi_one(buf, sentence, i);
        i = i + 1;
    }
    let last_tone: u8 = if ac == 0 {
        0
    } else {
        buf[ac - 1].tone_class % 10
    };
    let mut r0 = sentence[0];
    if ac == 0 {
        r0.tone_class = r0.tone_class % 10 + 0x28;
    } else {
        if buf[ac - 1].marker == MARKER_SENTENCE_END {
            r0.marker = MARKER_SPECIAL;
        }
        r0.tone_class = last_tone * 10 + r0.tone_class % 10;
    }
    sentence.set(0, r0);
    let mut k: usize = 0;
    let ghost bl = buf@;
    while k < n
        invariant
            k <= n,
            n == sentence@.len(),
            buf@ == bl + sentence@.take(k as int),
        decreases n - k,
    {
        buf.push(sentence[k]);
        k = k + 1;
        assert(buf@ =~= bl + sentence@.take(k as int));
    }
    assert(sentence@.take(n as int) =~= sentence@);
}

} // verus!
