//! From sentences to the units to render: the record groups of each sentence appended through
//! the tone pass, and the selected units turned into render units.
use vstd::prelude::*;
use crate::g2p::words::G2pDicts;
use crate::kps9566::{sorted_by_kps, Kps9566};
use crate::pipeline::{sentence_ok_from, sentence_records_spec, sentence_to_records};
use crate::record::ProsodyRecord;
use crate::render::{RenderUnit, UnitRecord};
use crate::segmenter::{whole_chars_from, Sentence};
use crate::text::sub_vec;
use crate::tone::{apply_sandhi, sandhi_defined, sandhi_is_defined, sandhi_result};
use crate::unit_select::{active_spec, ProcessedUnits, UnitSelection};
use crate::voice_info::VoiceInfoEntry;

verus! {

/// The buffer after appending the groups `gs[..j]` through the tone pass; `None` once a group
/// cannot be appended (see [`sandhi_defined`]).
pub open spec fn append_groups(buf: Seq<ProsodyRecord>, gs: Seq<Seq<ProsodyRecord>>, j: int) -> Option<
    Seq<ProsodyRecord>,
>
    decreases j,
{
    if j <= 0 {
        Some(buf)
    } else {
        match append_groups(buf, gs, j - 1) {
            None => None,
            Some(b) => if sandhi_defined(b, gs[j - 1]) {
                Some(sandhi_result(b, gs[j - 1]))
            } else {
                None
            },
        }
    }
}

/// Prosody records of the sentences `ss[..k]`: each sentence's record groups appended in turn.
pub open spec fn text_records_spec(d: G2pDicts, m: Seq<crate::kps9566::Mapping>, ss: Seq<Seq<u8>>, k: int) -> Option<
    Seq<ProsodyRecord>,
>
    decreases k,
{
    if k <= 0 {
        Some(Seq::empty())
    } else {
        match text_records_spec(d, m, ss, k - 1) {
            None => None,
            Some(b) => {
                let gs = sentence_records_spec(d, m, ss[k - 1]);
                append_groups(b, gs, gs.len() as int)
            },
        }
    }
}

/// Record groups as plain values.
pub open spec fn group_views(gs: Seq<Vec<ProsodyRecord>>) -> Seq<Seq<ProsodyRecord>> {
    gs.map_values(|v: Vec<ProsodyRecord>| v@)
}

/// Texts of some sentences.
pub open spec fn sentence_texts(ss: Seq<Sentence>) -> Seq<Seq<u8>> {
    ss.map_values(|s: Sentence| s.text@)
}

/// Prosody records of tokenized sentences (see [`text_records_spec`]): `None` exactly when a
/// record group cannot be appended through the tone pass.
pub fn text_records(dicts: &G2pDicts, kps: &Kps9566, sentences: &[Sentence]) -> (r: Option<Vec<ProsodyRecord>>)
    requires
        dicts.wf(),
        sorted_by_kps(kps.mappings()),
        forall|k: int|
            0 <= k < sentences@.len() ==> whole_chars_from((#[trigger] sentences@[k]).text@, 0)
                && sentence_ok_from(*dicts, kps.mappings(), sentences@[k].text@, 0),
    ensures
        match r {
            Some(v) => text_records_spec(*dicts, kps.mappings(), sentence_texts(sentences@), sentences@.len() as int)
                == Some(v@),
            None => text_records_spec(*dicts, kps.mappings(), sentence_texts(sentences@), sentences@.len() as int) is None,
        },
{
    let ghost d = *dicts;
    let ghost m = kps.mappings();
    let ghost ss = sentence_texts(sentences@);
    let mut all: Vec<ProsodyRecord> = Vec::new();
    let mut k: usize = 0;
    while k < sentences.len()
        invariant
            d == *dicts,
            m == kps.mappings(),
            ss == sentence_texts(sentences@),
            dicts.wf(),
            sorted_by_kps(kps.mappings()),
            k <= sentences@.len(),
            forall|q: int|
                0 <= q < sentences@.len() ==> whole_chars_from((#[trigger] sentences@[q]).text@, 0)
                    && sentence_ok_from(d, m, sentences@[q].text@, 0),
            text_records_spec(d, m, ss, k as int) == Some(all@),
        decreases sentences@.len() - k,
    {
        let groups = sentence_to_records(dicts, kps, &sentences[k]);
        let ghost gs = group_views(groups@);
        let ghost before = all@;
        proof {
            assert(ss[k as int] == sentences@[k as int].text@);
            assert(sentence_records_spec(d, m, ss[k as int]) == gs);
        }
        if !append_all(&mut all, &groups) {
            proof {
                lemma_text_records_stuck(d, m, ss, k as int + 1, sentences@.len() as int);
            }
            return None;
        }
        k = k + 1;
    }
    Some(all)
}

/// Append the groups in turn through the tone pass; `false` (the buffer then unspecified)
/// when one cannot be appended.
fn append_all(all: &mut Vec<ProsodyRecord>, groups: &Vec<Vec<ProsodyRecord>>) -> (r: bool)
    ensures
        r == append_groups(old(all)@, group_views(groups@), groups@.len() as int) is Some,
        r ==> append_groups(old(all)@, group_views(groups@), groups@.len() as int) == Some(final(all)@),
{
    let ghost gs = group_views(groups@);
    let ghost b0 = all@;
    let mut j: usize = 0;
    while j < groups.len()
        invariant
            gs == group_views(groups@),
            b0 == old(all)@,
            j <= groups@.len(),
            append_groups(b0, gs, j as int) == Some(all@),
        decreases groups@.len() - j,
    {
        let mut g = sub_vec(groups[j].as_slice(), 0, groups[j].len());
        assert(g@ =~= gs[j as int]);
        if !sandhi_is_defined(all, &g) {
            proof {
                assert(gs.len() == groups@.len());
                lemma_append_groups_stuck(b0, gs, j as int, gs.len() as int);
            }
            return false;
        }
        apply_sandhi(all, &mut g);
        j = j + 1;
    }
    true
}

/// Once a group cannot be appended, no later prefix of the groups can be.
proof fn lemma_append_groups_stuck(buf: Seq<ProsodyRecord>, gs: Seq<Seq<ProsodyRecord>>, j: int, e: int)
    requires
        0 <= j < e,
        append_groups(buf, gs, j) matches Some(b) && !sandhi_defined(b, gs[j]),
    ensures
        append_groups(buf, gs, e) is None,
    decreases e - j,
{
    if e > j + 1 {
        lemma_append_groups_stuck(buf, gs, j, e - 1);
    }
}

/// Once a sentence's records cannot be appended, no longer run of sentences can be.
proof fn lemma_text_records_stuck(d: G2pDicts, m: Seq<crate::kps9566::Mapping>, ss: Seq<Seq<u8>>, k: int, e: int)
    requires
        1 <= k <= e,
        text_records_spec(d, m, ss, k) is None,
    ensures
        text_records_spec(d, m, ss, e) is None,
    decreases e - k,
{
    if e > k {
        lemma_text_records_stuck(d, m, ss, k, e - 1);
    }
}

/// Waveform reference of an index entry: offset, length, pitch as a signed word, the class
/// code's low byte and the pause.
pub open spec fn unit_record_of(e: VoiceInfoEntry) -> UnitRecord {
    UnitRecord { woff: e.woff, wlen: e.wlen, pitch: e.pitch as i16, classcode: (e.classcode % 256) as u8, pause: e.pause }
}

/// Render unit of a selected unit: the unit in effect, the request's current and next codes,
/// and the extra unit.
pub open spec fn render_unit_of(u: UnitSelection) -> RenderUnit {
    RenderUnit {
        code_cur: u.request.cur,
        code_next: u.request.next,
        record: unit_record_of(active_spec(u)),
        extra: match u.extra {
            Some(e) => Some(unit_record_of(e)),
            None => None,
        },
    }
}

fn to_unit_record(e: VoiceInfoEntry) -> (r: UnitRecord)
    ensures
        r == unit_record_of(e),
{
    UnitRecord { woff: e.woff, wlen: e.wlen, pitch: e.pitch as i16, classcode: (e.classcode % 256) as u8, pause: e.pause }
}

/// Render units of the selected units, in order (see [`render_unit_of`]).
pub fn render_units_of(processed: &ProcessedUnits) -> (r: Vec<RenderUnit>)
    ensures
        r@.len() == processed.units@.len(),
        forall|i: int| 0 <= i < r@.len() ==> #[trigger] r@[i] == render_unit_of(processed.units@[i]),
{
    let mut out: Vec<RenderUnit> = Vec::new();
    let mut i: usize = 0;
    while i < processed.units.len()
        invariant
            i <= processed.units@.len(),
            out@.len() == i,
            forall|q: int| 0 <= q < i ==> #[trigger] out@[q] == render_unit_of(processed.units@[q]),
        decreases processed.units@.len() - i,
    {
        let u = &processed.units[i];
        let extra = match u.extra {
            Some(e) => Some(to_unit_record(e)),
            None => None,
        };
        out.push(RenderUnit { code_cur: u.request.cur, code_next: u.request.next, record: to_unit_record(u.active_data()), extra });
        i = i + 1;
    }
    out
}

} // verus!
