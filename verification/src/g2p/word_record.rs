//! Word records: the readings of a word assembled into syllable codes and markers, the
//! per-word stages that turn them into phoneme codes and final markers, and the 12-byte
//! prosody records they become.
use vstd::prelude::*;
use crate::record::{init_from_marker_spec, ProsodyRecord};
use super::codec::{kps_bytes_to_codes, kps_codes_from, phoneme_code_ok, phoneme_codes_from_syllables, phoneme_spec, KpsTables};
use super::g2p_dict::{compound_at, find_compound_split, Reading, WordFinalTone, CHUNK_SYLLABLES, PROPAGATE_BACK};
use super::words::rview;
use super::exact_hooks::RawSecondRecord;
use super::linking::{
    exact_stage4_aspirate, exact_stage4_linking, exact_stage4_nasal, stage4_aspirate_spec, stage4_linking_spec,
    stage4_nasal_spec, PostprocessTables,
};

verus! {

/// One word on its way from readings to prosody records.
#[derive(Debug, Clone)]
pub struct WordRecord {
    /// The word's own spelling (KPS 9566); the finals of the spelling drive the sandhi rules.
    pub spelling: Vec<u8>,
    /// The readings' bytes, concatenated.
    pub reading_bytes: Vec<u8>,
    /// Syllable codes of the readings.
    pub syllable_codes: Vec<u16>,
    /// Marker of each reading.
    pub morph_markers: Vec<u8>,
    /// Phoneme codes (stage 1).
    pub phoneme_codes: Vec<u16>,
    /// Marker of each phoneme; bit 7 is the emphasis flag.
    pub phoneme_markers: Vec<u8>,
    /// Number of phonemes.
    pub phoneme_count: usize,
    /// Rule marker of the word.
    pub rule_marker: u8,
    /// Cross-word rule flags (joining, linking, nasal, aspirate).
    pub rule_flags: [u8; 4],
    /// Cross-word rule counts.
    pub rule_counts: [u8; 4],
    /// Linking flag.
    pub flag_link: u8,
    /// Word number.
    pub seq: u8,
    /// Accent boundary (0 or 3..=9).
    pub accent: u8,
    /// Final marker.
    pub final_marker: u8,
    /// Morpheme count the analyzer gave the word.
    pub morph_count: usize,
    /// Word type the analyzer gave the word (its morpheme count again).
    pub word_type: u32,
    /// The analyzer's record of the word, when one was supplied.
    pub raw_second_record: Option<RawSecondRecord>,
}

/// Every field of the record is empty or zero.
pub open spec fn is_blank(r: WordRecord) -> bool {
    &&& r.spelling@.len() == 0
    &&& r.reading_bytes@.len() == 0
    &&& r.syllable_codes@.len() == 0
    &&& r.morph_markers@.len() == 0
    &&& blank_after_readings(r)
    &&& r.morph_count == 0
    &&& r.word_type == 0
    &&& r.raw_second_record is None
}

/// The fields set after the readings are empty or zero.
pub open spec fn blank_after_readings(r: WordRecord) -> bool {
    &&& r.spelling@.len() == 0
    &&& r.phoneme_codes@.len() == 0
    &&& r.phoneme_count == 0
    &&& r.rule_marker == 0
    &&& r.rule_flags@ == seq![0u8, 0u8, 0u8, 0u8]
    &&& r.rule_counts@ == seq![0u8, 0u8, 0u8, 0u8]
    &&& r.flag_link == 0
    &&& r.seq == 0
    &&& r.accent == 0
    &&& r.final_marker == 0
}

impl Default for WordRecord {
    fn default() -> (r: Self)
        ensures
            is_blank(r),
            r.phoneme_markers@.len() == 0,
    {
        let r = WordRecord {
            spelling: Vec::new(),
            reading_bytes: Vec::new(),
            syllable_codes: Vec::new(),
            morph_markers: Vec::new(),
            phoneme_codes: Vec::new(),
            phoneme_markers: Vec::new(),
            phoneme_count: 0,
            rule_marker: 0,
            rule_flags: [0u8; 4],
            rule_counts: [0u8; 4],
            flag_link: 0,
            seq: 0,
            accent: 0,
            final_marker: 0,
            morph_count: 0,
            word_type: 0,
            raw_second_record: None,
        };
        assert(r.rule_flags@ =~= seq![0u8, 0u8, 0u8, 0u8]);
        assert(r.rule_counts@ =~= seq![0u8, 0u8, 0u8, 0u8]);
        r
    }
}

/// Syllable codes a reading contributes: its packed code, else the codes of its bytes (none
/// when they do not convert).
pub open spec fn reading_codes(t: KpsTables, r: (Seq<u8>, Option<u16>, u8)) -> Seq<u16> {
    match r.1 {
        Some(p) => seq![p],
        None => match kps_codes_from(t, r.0, 0) {
            Some(c) => c,
            None => Seq::empty(),
        },
    }
}

/// Syllable codes of the readings from `i` on.
pub open spec fn codes_from(t: KpsTables, rs: Seq<(Seq<u8>, Option<u16>, u8)>, i: int) -> Seq<u16>
    decreases rs.len() - i,
{
    if i < 0 || i >= rs.len() {
        Seq::empty()
    } else {
        reading_codes(t, rs[i]) + codes_from(t, rs, i + 1)
    }
}

/// Bytes of the readings from `i` on.
pub open spec fn bytes_from(rs: Seq<(Seq<u8>, Option<u16>, u8)>, i: int) -> Seq<u8>
    decreases rs.len() - i,
{
    if i < 0 || i >= rs.len() {
        Seq::empty()
    } else {
        rs[i].0 + bytes_from(rs, i + 1)
    }
}

/// Each reading's marker repeated once per syllable code it contributes, from `i` on.
pub open spec fn markers_from(t: KpsTables, rs: Seq<(Seq<u8>, Option<u16>, u8)>, i: int) -> Seq<u8>
    decreases rs.len() - i,
{
    if i < 0 || i >= rs.len() {
        Seq::empty()
    } else {
        Seq::new(reading_codes(t, rs[i]).len(), |j: int| rs[i].2) + markers_from(t, rs, i + 1)
    }
}

/// One marker per syllable code.
pub proof fn lemma_markers_len(t: KpsTables, rs: Seq<(Seq<u8>, Option<u16>, u8)>, i: int)
    ensures
        markers_from(t, rs, i).len() == codes_from(t, rs, i).len(),
    decreases rs.len() - i,
{
    if 0 <= i < rs.len() {
        lemma_markers_len(t, rs, i + 1);
    }
}

/// The readings as plain values.
pub open spec fn readings_view(rs: Seq<Reading>) -> Seq<(Seq<u8>, Option<u16>, u8)> {
    rs.map_values(|r: Reading| rview(r))
}

/// Syllable codes of one reading.
fn codes_of_reading(t: &KpsTables, r: &Reading) -> (c: Vec<u16>)
    requires
        t.wf(),
    ensures
        c@ == reading_codes(*t, rview(*r)),
{
    match r.packed {
        Some(p) => vec![p],
        None => match kps_bytes_to_codes(t, &r.bytes) {
            Some(c) => c,
            None => Vec::new(),
        },
    }
}

/// A word record of readings: their bytes concatenated, their markers, their syllable codes,
/// and each reading's marker once per syllable code; every other field empty or zero.
pub fn word_record_from_readings(t: &KpsTables, readings: &[Reading]) -> (rec: WordRecord)
    requires
        t.wf(),
    ensures
        rec.reading_bytes@ == bytes_from(readings_view(readings@), 0),
        rec.morph_markers@ == readings@.map_values(|r: Reading| r.marker),
        rec.syllable_codes@ == codes_from(*t, readings_view(readings@), 0),
        rec.phoneme_markers@ == markers_from(*t, readings_view(readings@), 0),
        blank_after_readings(rec),
{
    let ghost rs = readings_view(readings@);
    let mut rec = WordRecord::default();
    let n = readings.len();
    let mut i: usize = 0;
    while i < n
        invariant
            n == readings@.len(),
            i <= n,
            t.wf(),
            rs == readings_view(readings@),
            rec.reading_bytes@ + bytes_from(rs, i as int) == bytes_from(rs, 0),
            rec.morph_markers@ == readings@.subrange(0, i as int).map_values(|r: Reading| r.marker),
            rec.syllable_codes@ + codes_from(*t, rs, i as int) == codes_from(*t, rs, 0),
            rec.phoneme_markers@ + markers_from(*t, rs, i as int) == markers_from(*t, rs, 0),
            blank_after_readings(rec),
        decreases n - i,
    {
        let r = &readings[i];
        let ghost rv = rs[i as int];
        let ghost b0 = rec.reading_bytes@;
        let ghost c0 = rec.syllable_codes@;
        let ghost m0 = rec.phoneme_markers@;
        let mut k: usize = 0;
        while k < r.bytes.len()
            invariant
                k <= r.bytes@.len(),
                rec.reading_bytes@ == b0 + r.bytes@.subrange(0, k as int),
                rec.syllable_codes@ == c0,
                rec.phoneme_markers@ == m0,
                rec.morph_markers@ == readings@.subrange(0, i as int).map_values(|r: Reading| r.marker),
                blank_after_readings(rec),
            decreases r.bytes@.len() - k,
        {
            rec.reading_bytes.push(r.bytes[k]);
            k = k + 1;
            assert(rec.reading_bytes@ =~= b0 + r.bytes@.subrange(0, k as int));
        }
        assert(r.bytes@.subrange(0, r.bytes@.len() as int) =~= r.bytes@);
        rec.morph_markers.push(r.marker);
        assert(readings@.subrange(0, i as int + 1) =~= readings@.subrange(0, i as int).push(readings@[i as int]));
        assert(rec.morph_markers@ =~= readings@.subrange(0, i as int + 1).map_values(|r: Reading| r.marker));
        let codes = codes_of_reading(t, r);
        assert(c0 + codes@.subrange(0, 0) =~= c0);
        assert(m0 + Seq::new(0 as nat, |q: int| r.marker) =~= m0);
        let mut j: usize = 0;
        while j < codes.len()
            invariant
                j <= codes@.len(),
                rec.syllable_codes@ == c0 + codes@.subrange(0, j as int),
                rec.phoneme_markers@ == m0 + Seq::new(j as nat, |q: int| r.marker),
                rec.reading_bytes@ == b0 + r.bytes@,
                rec.morph_markers@ == readings@.subrange(0, i as int + 1).map_values(|r: Reading| r.marker),
                blank_after_readings(rec),
            decreases codes@.len() - j,
        {
            rec.syllable_codes.push(codes[j]);
            rec.phoneme_markers.push(r.marker);
            j = j + 1;
            assert(rec.syllable_codes@ =~= c0 + codes@.subrange(0, j as int));
            assert(rec.phoneme_markers@ =~= m0 + Seq::new(j as nat, |q: int| r.marker));
        }
        assert(codes@.subrange(0, codes@.len() as int) =~= codes@);
        i = i + 1;
        assert(readings@.subrange(0, i as int) =~= readings@.subrange(0, i - 1).push(readings@[i - 1]));
        assert(rv == rview(readings@[i - 1]));
        assert(rec.reading_bytes@ + bytes_from(rs, i as int) =~= b0 + bytes_from(rs, i - 1));
        assert(rec.syllable_codes@ + codes_from(*t, rs, i as int) =~= c0 + codes_from(*t, rs, i - 1));
        assert(rec.phoneme_markers@ + markers_from(*t, rs, i as int) =~= m0 + markers_from(*t, rs, i - 1));
    }
    assert(readings@.subrange(0, n as int) =~= readings@);
    assert(rec.reading_bytes@ + Seq::<u8>::empty() =~= rec.reading_bytes@);
    assert(rec.syllable_codes@ + Seq::<u16>::empty() =~= rec.syllable_codes@);
    assert(rec.phoneme_markers@ + Seq::<u8>::empty() =~= rec.phoneme_markers@);
    rec
}

/// First inner position from `q` on where a compound-split pattern starts.
pub open spec fn first_compound(codes: Seq<u16>, q: int) -> Option<int>
    decreases codes.len() - q,
{
    if q < 1 || q >= codes.len() - 1 {
        None
    } else if compound_at(codes, q) {
        Some(q)
    } else {
        first_compound(codes, q + 1)
    }
}

proof fn lemma_first_compound_skip(codes: Seq<u16>, a: int, p: int)
    requires
        1 <= a <= p,
        forall|q: int| a <= q < p ==> !compound_at(codes, q),
    ensures
        first_compound(codes, a) == first_compound(codes, p),
    decreases p - a,
{
    if a < p {
        lemma_first_compound_skip(codes, a + 1, p);
    }
}

proof fn lemma_first_compound_range(codes: Seq<u16>, q: int)
    ensures
        first_compound(codes, q) matches Some(p) ==> q <= p && 1 <= p < codes.len() - 1,
    decreases codes.len() - q,
{
    if 1 <= q < codes.len() - 1 && !compound_at(codes, q) {
        lemma_first_compound_range(codes, q + 1);
    }
}

fn compound_split(codes: &[u16]) -> (r: Option<usize>)
    ensures
        match r {
            Some(p) => first_compound(codes@, 1) == Some(p as int),
            None => first_compound(codes@, 1) is None,
        },
{
    let r = find_compound_split(codes);
    proof {
        lemma_first_compound_range(codes@, 1);
        match r {
            Some(p) => lemma_first_compound_skip(codes@, 1, p as int),
            None => if codes@.len() >= 3 {
                lemma_first_compound_skip(codes@, 1, codes@.len() - 1);
            },
        }
    }
    r
}

/// Phoneme markers of a word closed with `tone`: 0 everywhere but the tone's marker on the
/// last syllable, and the clause-end marker 7 on the syllable before a compound split.
pub open spec fn final_markers_spec(codes: Seq<u16>, tone: WordFinalTone) -> Seq<u8> {
    let total = codes.len();
    let base = Seq::new(total, |j: int| if j == total - 1 {
        tone.marker_spec()
    } else {
        0u8
    });
    match first_compound(codes, 1) {
        Some(p) => base.update(p - 1, 7u8),
        None => base,
    }
}

/// Closing markers come one per syllable code.
pub proof fn lemma_final_markers_len(codes: Seq<u16>, tone: WordFinalTone)
    ensures
        final_markers_spec(codes, tone).len() == codes.len(),
{
    lemma_first_compound_range(codes, 1);
}

/// A word record of readings (as [`word_record_from_readings`]) whose phoneme markers close
/// the word with `final_tone` (see [`final_markers_spec`]).
pub fn word_record_from_readings_final(t: &KpsTables, readings: &[Reading], final_tone: WordFinalTone) -> (rec: WordRecord)
    requires
        t.wf(),
    ensures
        rec.reading_bytes@ == bytes_from(readings_view(readings@), 0),
        rec.morph_markers@ == readings@.map_values(|r: Reading| r.marker),
        rec.syllable_codes@ == codes_from(*t, readings_view(readings@), 0),
        rec.phoneme_markers@ == final_markers_spec(codes_from(*t, readings_view(readings@), 0), final_tone),
        blank_after_readings(rec),
{
    let mut rec = word_record_from_readings(t, readings);
    let total = rec.syllable_codes.len();
    let split = compound_split(&rec.syllable_codes);
    proof {
        lemma_first_compound_range(rec.syllable_codes@, 1);
    }
    let mut markers: Vec<u8> = Vec::new();
    let mut k: usize = 0;
    while k < total
        invariant
            k <= total,
            markers@ == Seq::new(k as nat, |j: int| 0u8),
        decreases total - k,
    {
        markers.push(0);
        k = k + 1;
        assert(markers@ =~= Seq::new(k as nat, |j: int| 0u8));
    }
    if total > 0 {
        markers.set(total - 1, final_tone.marker());
    }
    if let Some(sp) = split {
        if sp > 0 {
            markers.set(sp - 1, 7);
        }
    }
    proof {
        let codes = rec.syllable_codes@;
        let base = Seq::new(codes.len(), |j: int| if j == codes.len() - 1 {
            final_tone.marker_spec()
        } else {
            0u8
        });
        if let Some(p) = split {
            assert(markers@ =~= base.update(p - 1, 7u8));
        } else {
            assert(markers@ =~= base);
        }
    }
    rec.phoneme_markers = markers;
    rec
}

/// Stage 1: phoneme codes of the syllable codes, their number, and the phoneme markers padded
/// with 0 up to that number.
pub fn stage1_phoneme_codes(t: &KpsTables, rec: &mut WordRecord)
    requires
        t.wf(),
        forall|i: int| 0 <= i < old(rec).syllable_codes@.len() ==> phoneme_code_ok(#[trigger] old(rec).syllable_codes@[i]),
    ensures
        final(rec).phoneme_codes@ == old(rec).syllable_codes@.map_values(|c: u16| phoneme_spec(*t, c)),
        final(rec).phoneme_count == old(rec).syllable_codes@.len(),
        final(rec).phoneme_markers@ == (if old(rec).phoneme_markers@.len() < old(rec).syllable_codes@.len() {
            old(rec).phoneme_markers@ + Seq::new((old(rec).syllable_codes@.len() - old(rec).phoneme_markers@.len()) as nat, |j: int| 0u8)
        } else {
            old(rec).phoneme_markers@
        }),
        *final(rec) == (WordRecord {
            phoneme_codes: final(rec).phoneme_codes,
            phoneme_count: final(rec).phoneme_count,
            phoneme_markers: final(rec).phoneme_markers,
            ..*old(rec)
        }),
{
    rec.phoneme_codes = phoneme_codes_from_syllables(t, &rec.syllable_codes);
    rec.phoneme_count = rec.phoneme_codes.len();
    let ghost m0 = rec.phoneme_markers@;
    let ghost pre = *rec;
    if rec.phoneme_markers.len() < rec.phoneme_count {
        let count = rec.phoneme_count;
        while rec.phoneme_markers.len() < count
            invariant
                count == pre.phoneme_count,
                *rec == (WordRecord { phoneme_markers: rec.phoneme_markers, ..pre }),
                m0.len() <= rec.phoneme_markers@.len() <= count,
                rec.phoneme_markers@ == m0 + Seq::new((rec.phoneme_markers@.len() - m0.len()) as nat, |j: int| 0u8),
            decreases count - rec.phoneme_markers@.len(),
        {
            let ghost before = rec.phoneme_markers@;
            rec.phoneme_markers.push(0);
            assert(rec.phoneme_markers@ =~= m0 + Seq::new((rec.phoneme_markers@.len() - m0.len()) as nat, |j: int| 0u8));
        }
    }
}

/// Prosody record of phoneme `i`: its code, flags and tone class from its marker (0 when it
/// has none); the last phoneme with a marker of 0 in its low 7 bits gets tone class 1.
pub open spec fn prosody_at(rec: WordRecord, i: int) -> ProsodyRecord {
    prosody_view(rec.phoneme_codes@, rec.phoneme_markers@, i)
}

/// [`prosody_at`] over the phoneme codes and markers.
pub open spec fn prosody_view(codes: Seq<u16>, markers: Seq<u8>, i: int) -> ProsodyRecord {
    let n = codes.len();
    let marker = if i < markers.len() {
        markers[i]
    } else {
        0u8
    };
    let p = init_from_marker_spec(
        ProsodyRecord { prev_code: 0, code: codes[i], marker: 0, flags: 0, tone_class: 0 },
        marker,
        false,
    );
    if i + 1 == n && marker % 128 == 0 {
        ProsodyRecord { tone_class: 1, ..p }
    } else {
        p
    }
}

/// One prosody record per phoneme (see [`prosody_at`]).
pub fn record_to_prosody(rec: &WordRecord) -> (r: Vec<ProsodyRecord>)
    ensures
        r@ == Seq::new(rec.phoneme_codes@.len(), |i: int| prosody_at(*rec, i)),
{
    let n = rec.phoneme_codes.len();
    let mut out: Vec<ProsodyRecord> = Vec::new();
    let mut i: usize = 0;
    while i < n
        invariant
            n == rec.phoneme_codes@.len(),
            i <= n,
            out@ == Seq::new(i as nat, |j: int| prosody_at(*rec, j)),
        decreases n - i,
    {
        let code = rec.phoneme_codes[i];
        let marker = if i < rec.phoneme_markers.len() {
            rec.phoneme_markers[i]
        } else {
            0
        };
        let mut p = ProsodyRecord::new(code);
        p.init_from_marker(marker, false);
        assert((marker & 0x7f == 0) == (marker % 128 == 0)) by (bit_vector);
        if i + 1 == n && (marker & 0x7f) == 0 {
            p.tone_class = 1;
        }
        out.push(p);
        i = i + 1;
        assert(out@ =~= Seq::new(i as nat, |j: int| prosody_at(*rec, j)));
    }
    out
}

/// Cases of the three cross-word rules (linking, nasal, aspirate) between record `k` of `s`
/// and the next one: none for the last record or one with a rule marker.
pub open spec fn pair_cases(t: PostprocessTables, s: Seq<WordRecord>, k: int) -> (u8, u8, u8) {
    if 0 <= k && k + 1 < s.len() && s[k].rule_marker == 0 {
        (
            stage4_linking_spec(t, s[k], s[k + 1]),
            stage4_nasal_spec(t, s[k], s[k + 1]),
            stage4_aspirate_spec(s[k], s[k + 1]),
        )
    } else {
        (0, 0, 0)
    }
}

/// A rule flag after a hit: kept when set, else 1.
pub open spec fn hit_flag(f: u8) -> u8 {
    if f == 0 {
        1
    } else {
        f
    }
}

/// A rule count after a hit: the flag plus one, wrapping.
pub open spec fn hit_count(f: u8) -> u8 {
    if hit_flag(f) == 255 {
        0
    } else {
        (hit_flag(f) + 1) as u8
    }
}

/// Rule flags after case `v` of the rule with entry `e`.
pub open spec fn flags_after(f: Seq<u8>, e: int, v: u8) -> Seq<u8> {
    if v == 0 {
        f
    } else {
        f.update(e, hit_flag(f[e]))
    }
}

/// Rule counts after case `v` of the rule with entry `e`, given the flags before it.
pub open spec fn counts_after(f: Seq<u8>, c: Seq<u8>, e: int, v: u8) -> Seq<u8> {
    if v == 0 {
        c
    } else {
        c.update(e, hit_count(f[e]))
    }
}

/// `out` is `r` after the rule cases `v` (linking, nasal, aspirate; entries 1 to 3): each
/// rule that hits sets its flag and makes its count the flag plus one, and linking case 8
/// sets the word's linking flag; nothing else changes.
pub open spec fn ruled_as(r: WordRecord, v: (u8, u8, u8), out: WordRecord) -> bool {
    &&& out == (WordRecord { flag_link: out.flag_link, rule_flags: out.rule_flags, rule_counts: out.rule_counts, ..r })
    &&& out.flag_link == (if v.0 == 8 { 1u8 } else { r.flag_link })
    &&& out.rule_flags@ == flags_after(flags_after(flags_after(r.rule_flags@, 1, v.0), 2, v.1), 3, v.2)
    &&& out.rule_counts@ == counts_after(
        r.rule_flags@,
        counts_after(r.rule_flags@, counts_after(r.rule_flags@, r.rule_counts@, 1, v.0), 2, v.1),
        3,
        v.2,
    )
}

/// Record one rule's case `v` in entry `e` of the flags and counts.
fn mark_rule(flags: &mut [u8; 4], counts: &mut [u8; 4], e: usize, v: u8)
    requires
        1 <= e <= 3,
    ensures
        final(flags)@ == flags_after(old(flags)@, e as int, v),
        final(counts)@ == counts_after(old(flags)@, old(counts)@, e as int, v),
{
    if v != 0 {
        let f = flags[e];
        let f1: u8 = if f == 0 { 1 } else { f };
        flags[e] = f1;
        counts[e] = f1.wrapping_add(1);
        assert(flags@ =~= flags_after(old(flags)@, e as int, v));
        assert(counts@ =~= counts_after(old(flags)@, old(counts)@, e as int, v));
    }
}

/// Stage 4: the cross-word rules for each adjacent pair whose first word has no rule marker
/// (linking, nasal and aspirate, flags and counts in entries 1 to 3, see [`ruled_as`]), then
/// rule marker 9 on the last word. The rules decide on the words' analyzer records, so words
/// without one are left as they are.
pub fn stage4_cross_word_sandhi(t: &PostprocessTables, records: &mut [WordRecord])
    ensures
        final(records)@.len() == old(records)@.len(),
        forall|k: int|
            0 <= k < old(records)@.len() - 1 ==> ruled_as(
                old(records)@[k],
                pair_cases(*t, old(records)@, k),
                #[trigger] final(records)@[k],
            ),
        old(records)@.len() > 0 ==> final(records)@[old(records)@.len() - 1] == (WordRecord {
            rule_marker: 9,
            ..old(records)@[old(records)@.len() - 1]
        }),
{
    let n = records.len();
    let ghost orig = records@;
    let pairs = n.saturating_sub(1);
    let mut i: usize = 0;
    while i < pairs
        invariant
            n == records@.len(),
            n == orig.len(),
            pairs == (if n == 0 { 0 } else { n - 1 }),
            i <= pairs,
            forall|k: int| 0 <= k < i ==> ruled_as(orig[k], pair_cases(*t, orig, k), #[trigger] records@[k]),
            forall|k: int| i <= k < n ==> #[trigger] records@[k] == orig[k],
        decreases n - i,
    {
        if records[i].rule_marker != 0 {
            assert(records@[i as int].rule_flags@ =~= orig[i as int].rule_flags@);
            i = i + 1;
            continue;
        }
        let r1 = exact_stage4_linking(t, &records[i], &records[i + 1]);
        let r2 = exact_stage4_nasal(t, &records[i], &records[i + 1]);
        let r3 = exact_stage4_aspirate(&records[i], &records[i + 1]);
        assert((r1, r2, r3) == pair_cases(*t, orig, i as int));
        let mut flags = records[i].rule_flags;
        let mut counts = records[i].rule_counts;
        mark_rule(&mut flags, &mut counts, 1, r1);
        let ghost f1 = flags@;
        mark_rule(&mut flags, &mut counts, 2, r2);
        assert(f1[3] == orig[i as int].rule_flags@[3] && f1[2] == orig[i as int].rule_flags@[2]);
        let ghost f2 = flags@;
        mark_rule(&mut flags, &mut counts, 3, r3);
        assert(f2[3] == orig[i as int].rule_flags@[3]);
        if r1 == 8 {
            records[i].flag_link = 1;
        }
        records[i].rule_flags = flags;
        records[i].rule_counts = counts;
        i = i + 1;
    }
    if n > 0 {
        records[n - 1].rule_marker = 9;
    }
}

/// Stage 8 outcome for a word reached with `cum` syllables in the current chunk: its final
/// marker, the chunk count after it, and whether its phoneme markers get the emphasis bit.
/// A chunk ends (marker 5) once it reaches [`CHUNK_SYLLABLES`]; otherwise the accent decides:
/// 0 → 1 (0 when linked), 3 → 3, 4/5 → 5, 6/7 → 2, 8 → 6 with emphasis, 9 → 7, else 0; every
/// accent but 0, 3 and the unknown ones starts a new chunk.
pub open spec fn stage8_step(r: WordRecord, cum: int) -> (u8, int, bool) {
    let c = cum + r.phoneme_count;
    if c >= CHUNK_SYLLABLES {
        (5, 0, false)
    } else if r.accent == 0 {
        (if r.flag_link == 0 { 1u8 } else { 0u8 }, c, false)
    } else if r.accent == 3 {
        (3, c, false)
    } else if r.accent == 4 || r.accent == 5 {
        (5, 0, false)
    } else if r.accent == 6 || r.accent == 7 {
        (2, 0, false)
    } else if r.accent == 8 {
        (6, 0, true)
    } else if r.accent == 9 {
        (7, 0, false)
    } else {
        (0, c, false)
    }
}

/// Syllables in the current chunk when word `i` is reached.
pub open spec fn stage8_cum(rs: Seq<WordRecord>, i: int) -> int
    decreases i,
{
    if i <= 0 {
        0
    } else {
        stage8_step(rs[i - 1], stage8_cum(rs, i - 1)).1
    }
}

/// Word `r` after stage 8, given its outcome.
pub open spec fn stage8_applied(old_r: WordRecord, new_r: WordRecord, o: (u8, int, bool)) -> bool {
    &&& new_r == (WordRecord { final_marker: o.0, phoneme_markers: new_r.phoneme_markers, ..old_r })
    &&& new_r.phoneme_markers@ == (if o.2 {
        old_r.phoneme_markers@.map_values(|m: u8| m | 0x80)
    } else {
        old_r.phoneme_markers@
    })
}

proof fn lemma_stage8_cum_small(rs: Seq<WordRecord>, i: int)
    requires
        0 <= i <= rs.len(),
    ensures
        0 <= stage8_cum(rs, i) < CHUNK_SYLLABLES,
    decreases i,
{
    if i > 0 {
        lemma_stage8_cum_small(rs, i - 1);
    }
}

/// Stage 8: final markers and chunk boundaries, word by word (see [`stage8_step`]).
pub fn stage8_final_markers(records: &mut [WordRecord])
    requires
        forall|i: int| 0 <= i < old(records)@.len() ==> #[trigger] old(records)@[i].phoneme_count <= usize::MAX - CHUNK_SYLLABLES,
    ensures
        final(records)@.len() == old(records)@.len(),
        forall|i: int| 0 <= i < old(records)@.len() ==> stage8_applied(
            old(records)@[i],
            #[trigger] final(records)@[i],
            stage8_step(old(records)@[i], stage8_cum(old(records)@, i)),
        ),
{
    let ghost orig = records@;
    let n = records.len();
    let mut cum: usize = 0;
    let mut i: usize = 0;
    while i < n
        invariant
            n == records@.len(),
            orig.len() == n,
            i <= n,
            cum == stage8_cum(orig, i as int),
            forall|k: int| 0 <= k < n ==> #[trigger] orig[k].phoneme_count <= usize::MAX - CHUNK_SYLLABLES,
            forall|k: int| i <= k < n ==> #[trigger] records@[k] == orig[k],
            forall|k: int| 0 <= k < i ==> stage8_applied(orig[k], #[trigger] records@[k], stage8_step(orig[k], stage8_cum(orig, k))),
        decreases n - i,
    {
        proof {
            lemma_stage8_cum_small(orig, i as int);
        }
        let ghost r0 = records@[i as int];
        let ghost before = records@;
        cum = cum + records[i].phoneme_count;
        if cum >= CHUNK_SYLLABLES {
            records[i].final_marker = 5;
            cum = 0;
        } else {
            let accent = records[i].accent;
            if accent == 0 {
                records[i].final_marker = if records[i].flag_link == 0 {
                    1
                } else {
                    0
                };
            } else if accent == 3 {
                records[i].final_marker = 3;
            } else if accent == 4 || accent == 5 {
                records[i].final_marker = 5;
                cum = 0;
            } else if accent == 6 || accent == 7 {
                records[i].final_marker = 2;
                cum = 0;
            } else if accent == 8 {
                records[i].final_marker = 6;
                cum = 0;
                let m = records[i].phoneme_markers.len();
                let mut j: usize = 0;
                while j < m
                    invariant
                        n == records@.len(),
                        i < n,
                        j <= m,
                        m == r0.phoneme_markers@.len(),
                        records@[i as int] == (WordRecord { final_marker: 6, phoneme_markers: records@[i as int].phoneme_markers, ..r0 }),
                        records@[i as int].phoneme_markers@.len() == m,
                        forall|q: int| 0 <= q < j ==> #[trigger] records@[i as int].phoneme_markers@[q] == r0.phoneme_markers@[q] | 0x80,
                        forall|q: int| j <= q < m ==> #[trigger] records@[i as int].phoneme_markers@[q] == r0.phoneme_markers@[q],
                        forall|k: int| 0 <= k < n && k != i ==> #[trigger] records@[k] == before[k],
                    decreases m - j,
                {
                    let v = records[i].phoneme_markers[j] | 0x80;
                    records[i].phoneme_markers.set(j, v);
                    j = j + 1;
                }
                assert(records@[i as int].phoneme_markers@ =~= r0.phoneme_markers@.map_values(|m: u8| m | 0x80));
            } else if accent == 9 {
                records[i].final_marker = 7;
                cum = 0;
            } else {
                records[i].final_marker = 0;
            }
        }
        assert(stage8_applied(orig[i as int], records@[i as int], stage8_step(orig[i as int], stage8_cum(orig, i as int))));
        i = i + 1;
    }
}

/// Stage 9, first pass: in a word whose first phoneme marker has the emphasis bit (0x80),
/// every marker without bit 0x40 gets it too.
pub open spec fn stage9_spread(ms: Seq<u8>) -> Seq<u8> {
    if ms.len() > 0 && ms[0] & 0x80 != 0 {
        ms.map_values(|m: u8| if m & 0x40 == 0 { m | 0x80 } else { m })
    } else {
        ms
    }
}

/// Index of the last word before `k` that closes a phrase (final marker other than 0 and 1),
/// or -1.
pub open spec fn last_boundary(rs: Seq<WordRecord>, k: int) -> int
    decreases k,
{
    if k <= 0 {
        -1
    } else if rs[k - 1].final_marker != 0 && rs[k - 1].final_marker != 1 {
        k - 1
    } else {
        last_boundary(rs, k - 1)
    }
}

/// First word taken when words are taken from `idx` backwards, `cum` phonemes already taken,
/// until [`PROPAGATE_BACK`] phonemes are reached or no word is left.
pub open spec fn back_start(rs: Seq<WordRecord>, idx: int, cum: int) -> int
    decreases idx,
{
    if cum < PROPAGATE_BACK && idx > 0 {
        back_start(rs, idx - 1, cum + rs[idx - 1].phoneme_count)
    } else {
        idx
    }
}

/// First word whose markers all get the emphasis bit in stage 9: the one after the last
/// phrase boundary, or, without a boundary, the first of the last words holding
/// [`PROPAGATE_BACK`] phonemes.
pub open spec fn stage9_from(rs: Seq<WordRecord>) -> int {
    let b = last_boundary(rs, rs.len() as int);
    if b >= 0 {
        b + 1
    } else {
        back_start(rs, rs.len() as int, 0)
    }
}

/// Phoneme markers of word `i` after stage 9.
pub open spec fn stage9_markers(rs: Seq<WordRecord>, i: int) -> Seq<u8> {
    let m1 = stage9_spread(rs[i].phoneme_markers@);
    if i >= stage9_from(rs) {
        m1.map_values(|m: u8| m | 0x80)
    } else {
        m1
    }
}

proof fn lemma_last_boundary(rs: Seq<WordRecord>, k: int)
    requires
        0 <= k <= rs.len(),
    ensures
        -1 <= last_boundary(rs, k) < k,
    decreases k,
{
    if k > 0 {
        lemma_last_boundary(rs, k - 1);
    }
}

proof fn lemma_back_start(rs: Seq<WordRecord>, idx: int, cum: int)
    requires
        0 <= idx <= rs.len(),
    ensures
        0 <= back_start(rs, idx, cum) <= idx,
    decreases idx,
{
    if cum < PROPAGATE_BACK && idx > 0 {
        lemma_back_start(rs, idx - 1, cum + rs[idx - 1].phoneme_count);
    }
}

/// Give the markers of word `i` the emphasis bit: all of them (`all`), or, when the first has
/// it, those without bit 0x40.
fn emphasize_markers(records: &mut [WordRecord], i: usize, all: bool)
    requires
        i < old(records)@.len(),
    ensures
        final(records)@.len() == old(records)@.len(),
        forall|k: int| 0 <= k < old(records)@.len() && k != i ==> #[trigger] final(records)@[k] == old(records)@[k],
        final(records)@[i as int] == (WordRecord { phoneme_markers: final(records)@[i as int].phoneme_markers, ..old(records)@[i as int] }),
        final(records)@[i as int].phoneme_markers@ == (if all {
            old(records)@[i as int].phoneme_markers@.map_values(|m: u8| m | 0x80)
        } else {
            stage9_spread(old(records)@[i as int].phoneme_markers@)
        }),
{
    let ghost r0 = records@[i as int];
    let ghost before = records@;
    let n = records.len();
    let m = records[i].phoneme_markers.len();
    if !all && (m == 0 || records[i].phoneme_markers[0] & 0x80 == 0) {
        return;
    }
    let mut j: usize = 0;
    while j < m
        invariant
            n == records@.len(),
            i < n,
            j <= m,
            m == r0.phoneme_markers@.len(),
            all || (m > 0 && r0.phoneme_markers@[0] & 0x80 != 0),
            records@[i as int] == (WordRecord { phoneme_markers: records@[i as int].phoneme_markers, ..r0 }),
            records@[i as int].phoneme_markers@.len() == m,
            forall|q: int| 0 <= q < j ==> #[trigger] records@[i as int].phoneme_markers@[q] == (if all || r0.phoneme_markers@[q] & 0x40 == 0 {
                r0.phoneme_markers@[q] | 0x80
            } else {
                r0.phoneme_markers@[q]
            }),
            forall|q: int| j <= q < m ==> #[trigger] records@[i as int].phoneme_markers@[q] == r0.phoneme_markers@[q],
            forall|k: int| 0 <= k < n && k != i ==> #[trigger] records@[k] == before[k],
        decreases m - j,
    {
        let v = records[i].phoneme_markers[j];
        if all || v & 0x40 == 0 {
            records[i].phoneme_markers.set(j, v | 0x80);
        }
        j = j + 1;
    }
    if all {
        assert(records@[i as int].phoneme_markers@ =~= r0.phoneme_markers@.map_values(|m: u8| m | 0x80));
    } else {
        assert(records@[i as int].phoneme_markers@ =~= stage9_spread(r0.phoneme_markers@));
    }
}

/// Stage 9: spread the emphasis bit inside words that start with it, then give it to every
/// marker of the words after the last phrase boundary, or, without one, of the last words
/// holding [`PROPAGATE_BACK`] phonemes (see [`stage9_markers`]).
pub fn stage9_post_loop_propagation(records: &mut [WordRecord])
    requires
        forall|i: int| 0 <= i < old(records)@.len() ==> #[trigger] old(records)@[i].phoneme_count <= usize::MAX - PROPAGATE_BACK,
    ensures
        final(records)@.len() == old(records)@.len(),
        forall|i: int| 0 <= i < old(records)@.len() ==> #[trigger] final(records)@[i] == (WordRecord {
            phoneme_markers: final(records)@[i].phoneme_markers,
            ..old(records)@[i]
        }),
        forall|i: int| 0 <= i < old(records)@.len() ==> #[trigger] final(records)@[i].phoneme_markers@ == stage9_markers(old(records)@, i),
{
    let ghost orig = records@;
    let n = records.len();
    let mut i: usize = 0;
    while i < n
        invariant
            n == records@.len(),
            orig.len() == n,
            i <= n,
            forall|k: int| 0 <= k < n ==> #[trigger] records@[k] == (WordRecord { phoneme_markers: records@[k].phoneme_markers, ..orig[k] }),
            forall|k: int| 0 <= k < i ==> #[trigger] records@[k].phoneme_markers@ == stage9_spread(orig[k].phoneme_markers@),
            forall|k: int| i <= k < n ==> #[trigger] records@[k].phoneme_markers@ == orig[k].phoneme_markers@,
        decreases n - i,
    {
        emphasize_markers(records, i, false);
        i = i + 1;
    }
    let mut k: usize = n;
    let mut from: usize = n;
    let mut found = false;
    while k > 0 && !found
        invariant
            n == records@.len(),
            orig.len() == n,
            k <= n,
            forall|q: int| 0 <= q < n ==> #[trigger] records@[q].final_marker == orig[q].final_marker,
            !found ==> last_boundary(orig, n as int) == last_boundary(orig, k as int),
            found ==> from == last_boundary(orig, n as int) + 1 && last_boundary(orig, n as int) >= 0,
        decreases k + (if found { 0int } else { 1int }),
    {
        let fm = records[k - 1].final_marker;
        if fm != 0 && fm != 1 {
            from = k;
            found = true;
        } else {
            k = k - 1;
        }
    }
    if !found {
        proof {
            lemma_back_start(orig, n as int, 0);
        }
        let mut cum: usize = 0;
        let mut idx: usize = n;
        while cum < PROPAGATE_BACK && idx > 0
            invariant
                n == records@.len(),
                orig.len() == n,
                idx <= n,
                forall|q: int| 0 <= q < n ==> #[trigger] records@[q].phoneme_count == orig[q].phoneme_count,
                forall|q: int| 0 <= q < n ==> #[trigger] orig[q].phoneme_count <= usize::MAX - PROPAGATE_BACK,
                back_start(orig, n as int, 0) == back_start(orig, idx as int, cum as int),
            decreases idx,
        {
            idx = idx - 1;
            cum = cum + records[idx].phoneme_count;
        }
        from = idx;
    }
    proof {
        lemma_last_boundary(orig, n as int);
        assert(from == stage9_from(orig));
    }
    let mut j: usize = from;
    while j < n
        invariant
            n == records@.len(),
            orig.len() == n,
            from <= j <= n,
            from == stage9_from(orig),
            forall|k: int| 0 <= k < n ==> #[trigger] records@[k] == (WordRecord { phoneme_markers: records@[k].phoneme_markers, ..orig[k] }),
            forall|k: int| 0 <= k < n && !(from <= k < j) ==> #[trigger] records@[k].phoneme_markers@ == stage9_spread(orig[k].phoneme_markers@),
            forall|k: int| from <= k < j ==> #[trigger] records@[k].phoneme_markers@ == stage9_spread(orig[k].phoneme_markers@).map_values(|m: u8| m | 0x80),
        decreases n - j,
    {
        emphasize_markers(records, j, true);
        j = j + 1;
    }
}

} // verus!
