//! Input preparation and engine settings derived from the public configuration.
use vstd::prelude::*;
use vstd::string::StringSliceAdditionalSpecFns;
use vstd::utf8::{encode_utf8_valid_utf8, is_char_boundary_iff_not_is_continuation_byte};
use crate::g2p::codec::{
    decimal_codes, decimal_spec, kps_bytes_to_codes, kps_codes_from, kps_final_class,
    kps_final_class_spec, kps_phoneme_spec, phoneme_code_ok, phoneme_spec, sino_digits_ok,
    sino_integer_codes, sino_integer_kps_syllables, sino_syllables_spec, to_phoneme_code, KpsTables,
};
use crate::g2p::g2p_dict::{is_func_medial, is_func_medial_spec};
use crate::g2p::sandhi::apply_phoneme_sandhi_from;
use crate::g2p::{class_of, initial_of, medial_of, split_phoneme};
use crate::g2p::g2p_dict::{WordFinalTone, CHUNK_SYLLABLES, PROPAGATE_BACK};
use crate::g2p::sandhi::{apply_phoneme_sandhi, sandhi_view};
use crate::g2p::word_markers::{accent_word_marker, apply_accent_markers, apply_morph_boundaries, morph_boundary_spec};
use crate::g2p::word_record::{
    bytes_from, codes_from, final_markers_spec, lemma_final_markers_len, lemma_markers_len,
    markers_from, word_record_from_readings, prosody_view, readings_view, record_to_prosody,
    stage1_phoneme_codes, stage4_cross_word_sandhi, stage8_final_markers, word_record_from_readings_final,
    WordRecord,
};
use crate::g2p::linking::PostprocessTables;
use crate::g2p::words::{rviews, word_g2p, word_g2p_spec, G2pDicts};
use crate::g2p::g2p_dict::Reading;
use crate::kps9566::{decode_from, sorted_by_kps, Kps9566, Mapping};
use crate::text::{slice_to_vec, sub_vec};
use crate::record::{init_from_marker_spec, ProsodyRecord};
use crate::segmenter::{be16, is_whole_chars, next_token_class, next_token_class_spec, whole_chars_from, Sentence, KPS_FULL_STOP};
use crate::synthesizer::TtsConfig;

verus! {

/// Number of leading bytes left once trailing `\n` and `\r` bytes are removed.
pub open spec fn trim_newlines_len(b: Seq<u8>) -> int
    decreases b.len(),
{
    if b.len() > 0 && (b.last() == 0x0a || b.last() == 0x0d) {
        trim_newlines_len(b.drop_last())
    } else {
        b.len() as int
    }
}

proof fn lemma_trim_newlines_len(b: Seq<u8>)
    ensures
        0 <= trim_newlines_len(b) <= b.len(),
        trim_newlines_len(b) < b.len() ==> b[trim_newlines_len(b)] == 0x0a || b[trim_newlines_len(
            b,
        )] == 0x0d,
        trim_newlines_len(b) > 0 ==> b[trim_newlines_len(b) - 1] != 0x0a && b[trim_newlines_len(b)
            - 1] != 0x0d,
    decreases b.len(),
{
    if b.len() > 0 && (b.last() == 0x0a || b.last() == 0x0d) {
        lemma_trim_newlines_len(b.drop_last());
        let t = trim_newlines_len(b.drop_last());
        if t < b.len() - 1 {
            assert(b[t] == b.drop_last()[t]);
        }
        if t > 0 {
            assert(b[t - 1] == b.drop_last()[t - 1]);
        }
    }
}

/// The text without its trailing line breaks (`\n` and `\r`); nothing else is removed.
pub fn truncate_last_line_char(text: &str) -> (r: &str)
    ensures
        r.spec_bytes() == text.spec_bytes().subrange(0, trim_newlines_len(text.spec_bytes())),
{
    let bytes = text.as_bytes();
    let ghost b = text.spec_bytes();
    let mut k: usize = bytes.len();
    assert(b.subrange(0, k as int) =~= b);
    while k > 0 && (bytes[k - 1] == 0x0a || bytes[k - 1] == 0x0d)
        invariant
            b == bytes@,
            k <= b.len(),
            trim_newlines_len(b) == trim_newlines_len(b.subrange(0, k as int)),
        decreases k,
    {
        assert(b.subrange(0, k as int).drop_last() =~= b.subrange(0, k - 1));
        k = k - 1;
    }
    assert(trim_newlines_len(b.subrange(0, k as int)) == k);
    if k == bytes.len() {
        assert(b.subrange(0, k as int) =~= b);
        return text;
    }
    proof {
        encode_utf8_valid_utf8(text@);
        lemma_trim_newlines_len(b);
        is_char_boundary_iff_not_is_continuation_byte(b, k as int);
    }
    let (head, _) = text.split_at(k);
    head
}

/// Engine-side settings.
#[derive(Debug, Clone, Copy)]
pub struct EngineConfig {
    /// Random (expressive) rendering mode.
    pub random_mode: bool,
    /// Speed: the sample rate in units of 441 Hz.
    pub speed: u32,
}

impl Default for EngineConfig {
    fn default() -> (r: Self)
        ensures
            !r.random_mode,
            r.speed == 50,
    {
        EngineConfig { random_mode: false, speed: 50 }
    }
}

impl EngineConfig {
    /// Settings for a public configuration: speed = sample rate / 441, at least 1.
    pub fn from_public(cfg: &TtsConfig) -> (r: Self)
        ensures
            !r.random_mode,
            r.speed == (if cfg.sample_rate / 441 >= 1 {
                cfg.sample_rate / 441
            } else {
                1
            }),
    {
        let s = cfg.sample_rate / 441;
        EngineConfig { random_mode: false, speed: if s >= 1 { s } else { 1 } }
    }
}

/// The record marked as clause-final: the ones digit of its tone class becomes 4.
pub open spec fn clause_end_spec(r: ProsodyRecord) -> ProsodyRecord {
    ProsodyRecord { tone_class: ((r.tone_class / 10) * 10 + 4) as u8, ..r }
}

/// Mark a record as clause-final (see [`clause_end_spec`]).
pub fn mark_clause_end(rec: &mut ProsodyRecord)
    ensures
        *final(rec) == clause_end_spec(*old(rec)),
{
    rec.tone_class = (rec.tone_class / 10) * 10 + 4;
}

/// The records of a group, and where each of its words ends.
pub type RecordGroup = (Vec<ProsodyRecord>, Vec<usize>);

/// Whether word ends never go back.
pub open spec fn ends_sorted(ends: Seq<usize>) -> bool {
    forall|i: int, j: int| 0 <= i <= j < ends.len() ==> ends[i] <= ends[j]
}

/// End of the word before word `i` (0 for the first).
pub open spec fn prev_end(ends: Seq<usize>, i: int) -> int {
    if i <= 0 {
        0
    } else {
        ends[i - 1] as int
    }
}

/// Syllables counted into the current chunk when word `i` is reached.
pub open spec fn chunk_cum(ends: Seq<usize>, i: int) -> int
    decreases i,
{
    if i <= 0 {
        0
    } else {
        let c = chunk_cum(ends, i - 1) + ends[i - 1] - prev_end(ends, i - 1);
        if c >= CHUNK_SYLLABLES {
            0
        } else {
            c
        }
    }
}

/// Whether word `i` closes a chunk of [`CHUNK_SYLLABLES`] syllables.
pub open spec fn chunk_closed_by(ends: Seq<usize>, i: int) -> bool {
    chunk_cum(ends, i) + ends[i] - prev_end(ends, i) >= CHUNK_SYLLABLES
}

/// Whether record `k` ends a word that closes a chunk.
pub open spec fn chunk_break_at(ends: Seq<usize>, k: int) -> bool {
    exists|i: int| 0 <= i < ends.len() && #[trigger] chunk_closed_by(ends, i) && ends[i] - 1 == k
}

proof fn lemma_chunk_cum_bound(ends: Seq<usize>, i: int)
    requires
        ends_sorted(ends),
        0 <= i <= ends.len(),
    ensures
        0 <= chunk_cum(ends, i) <= prev_end(ends, i),
        chunk_cum(ends, i) < CHUNK_SYLLABLES,
    decreases i,
{
    if i > 0 {
        lemma_chunk_cum_bound(ends, i - 1);
        if i >= 2 {
            assert(ends[i - 2] <= ends[i - 1]);
        }
    }
}

/// Tone class 3 on the last record of each word that brings the current chunk to
/// [`CHUNK_SYLLABLES`] syllables, counting across word boundaries; the count restarts there.
fn chunk_breaks(recs: &mut Vec<ProsodyRecord>, ends: &Vec<usize>)
    requires
        ends_sorted(ends@),
    ensures
        final(recs)@.len() == old(recs)@.len(),
        forall|k: int| 0 <= k < old(recs)@.len() ==> #[trigger] final(recs)@[k] == (if chunk_break_at(ends@, k) {
            ProsodyRecord { tone_class: 3, ..old(recs)@[k] }
        } else {
            old(recs)@[k]
        }),
{
    let ghost orig = recs@;
    let mut cum: usize = 0;
    let mut prev: usize = 0;
    let mut i: usize = 0;
    while i < ends.len()
        invariant
            i <= ends@.len(),
            ends_sorted(ends@),
            recs@.len() == orig.len(),
            cum == chunk_cum(ends@, i as int),
            prev == prev_end(ends@, i as int),
            forall|k: int| 0 <= k < orig.len() ==> #[trigger] recs@[k] == (if (exists|j: int| 0 <= j < i && chunk_closed_by(ends@, j) && ends@[j] - 1 == k) {
                ProsodyRecord { tone_class: 3, ..orig[k] }
            } else {
                orig[k]
            }),
        decreases ends@.len() - i,
    {
        proof {
            lemma_chunk_cum_bound(ends@, i as int);
            if i > 0 {
                assert(ends@[i - 1] <= ends@[i as int]);
            }
        }
        let end = ends[i];
        let ghost before = recs@;
        cum = cum + (end - prev);
        if cum >= CHUNK_SYLLABLES {
            if end - 1 < recs.len() {
                recs[end - 1].tone_class = 3;
            }
            cum = 0;
        }
        proof {
            assert forall|k: int| 0 <= k < orig.len() implies #[trigger] recs@[k] == (if (exists|j: int| 0 <= j < i + 1 && chunk_closed_by(ends@, j) && ends@[j] - 1 == k) {
                ProsodyRecord { tone_class: 3, ..orig[k] }
            } else {
                orig[k]
            }) by {
                if chunk_closed_by(ends@, i as int) && ends@[i as int] - 1 == k {
                    assert(exists|j: int| 0 <= j < i + 1 && chunk_closed_by(ends@, j) && ends@[j] - 1 == k);
                } else if (exists|j: int| 0 <= j < i + 1 && chunk_closed_by(ends@, j) && ends@[j] - 1 == k) {
                    let j = choose|j: int| 0 <= j < i + 1 && chunk_closed_by(ends@, j) && ends@[j] - 1 == k;
                    assert(j < i);
                }
            }
        }
        prev = end;
        i = i + 1;
    }
}

/// Chunk breaks in every group (see [`chunk_breaks`]).
pub fn apply_chunk_tone_breaks(groups: &mut Vec<RecordGroup>)
    requires
        forall|g: int| 0 <= g < old(groups)@.len() ==> ends_sorted(#[trigger] old(groups)@[g].1@),
    ensures
        final(groups)@.len() == old(groups)@.len(),
        forall|g: int| 0 <= g < old(groups)@.len() ==> {
            let o = #[trigger] old(groups)@[g];
            let f = final(groups)@[g];
            &&& f.1 == o.1
            &&& f.0@.len() == o.0@.len()
            &&& forall|k: int| 0 <= k < o.0@.len() ==> #[trigger] f.0@[k] == (if chunk_break_at(o.1@, k) {
                ProsodyRecord { tone_class: 3, ..o.0@[k] }
            } else {
                o.0@[k]
            })
        },
{
    let ghost orig = groups@;
    let mut g: usize = 0;
    while g < groups.len()
        invariant
            g <= groups@.len(),
            groups@.len() == orig.len(),
            forall|h: int| 0 <= h < orig.len() ==> ends_sorted(#[trigger] orig[h].1@),
            forall|h: int| g <= h < orig.len() ==> #[trigger] groups@[h] == orig[h],
            forall|h: int| 0 <= h < g ==> {
                let o = #[trigger] orig[h];
                let f = groups@[h];
                &&& f.1 == o.1
                &&& f.0@.len() == o.0@.len()
                &&& forall|k: int| 0 <= k < o.0@.len() ==> #[trigger] f.0@[k] == (if chunk_break_at(o.1@, k) {
                    ProsodyRecord { tone_class: 3, ..o.0@[k] }
                } else {
                    o.0@[k]
                })
            },
        decreases groups@.len() - g,
    {
        let grp = &mut groups[g];
        chunk_breaks(&mut grp.0, &grp.1);
        g = g + 1;
    }
}

/// Whether word `w` is among the last words that together reach [`PROPAGATE_BACK`]
/// syllables: fewer than that many syllables follow it.
pub open spec fn flagged_word(ends: Seq<usize>, w: int) -> bool {
    ends[ends.len() - 1] - ends[w] < PROPAGATE_BACK
}

/// Whether record `k` lies in a flagged word.
pub open spec fn flag_back_at(ends: Seq<usize>, k: int) -> bool {
    exists|w: int| 0 <= w < ends.len() && #[trigger] flagged_word(ends, w) && prev_end(ends, w) <= k < ends[w]
}

/// With sorted word ends, the words from `w` on tile the records from the end of word
/// `w - 1` to the last end.
proof fn lemma_words_tile(ends: Seq<usize>, w: int, q: int)
    requires
        ends_sorted(ends),
        0 <= w < ends.len(),
        prev_end(ends, w) <= q < ends[ends.len() - 1],
    ensures
        exists|v: int| w <= v < ends.len() && #[trigger] prev_end(ends, v) <= q < ends[v],
    decreases ends.len() - w,
{
    if q < ends[w] {
        assert(prev_end(ends, w) <= q < ends[w]);
    } else {
        lemma_words_tile(ends, w + 1, q);
    }
}

/// Flags 1 on every record of the last words of the group, back from its end until
/// [`PROPAGATE_BACK`] syllables are covered.
fn flags_back(recs: &mut Vec<ProsodyRecord>, ends: &Vec<usize>)
    requires
        ends_sorted(ends@),
        forall|i: int| 0 <= i < ends@.len() ==> #[trigger] ends@[i] <= old(recs)@.len(),
    ensures
        final(recs)@.len() == old(recs)@.len(),
        forall|k: int| 0 <= k < old(recs)@.len() ==> #[trigger] final(recs)@[k] == (if flag_back_at(ends@, k) {
            ProsodyRecord { flags: 1, ..old(recs)@[k] }
        } else {
            old(recs)@[k]
        }),
{
    let ghost orig = recs@;
    let n = ends.len();
    if n == 0 {
        return;
    }
    let last = ends[n - 1];
    let mut acc: usize = 0;
    let mut w: usize = n;
    while w > 0
        invariant_except_break
            forall|v: int| w <= v < n ==> flagged_word(ends@, v),
        invariant
            w <= n,
            n == ends@.len(),
            n > 0,
            last == ends@[n - 1],
            ends_sorted(ends@),
            forall|i: int| 0 <= i < n ==> #[trigger] ends@[i] <= orig.len(),
            recs@.len() == orig.len(),
            w < n ==> acc == last - prev_end(ends@, w as int),
            w == n ==> acc == 0,
            forall|q: int| 0 <= q < orig.len() ==> #[trigger] recs@[q] == (if w < n && prev_end(ends@, w as int) <= q < last {
                ProsodyRecord { flags: 1, ..orig[q] }
            } else {
                orig[q]
            }),
        ensures
            forall|v: int| 0 <= v < w ==> !flagged_word(ends@, v),
            forall|v: int| w <= v < n ==> flagged_word(ends@, v),
        decreases w,
    {
        let wi = w - 1;
        let end = ends[wi];
        let start = if wi == 0 {
            0
        } else {
            ends[wi - 1]
        };
        proof {
            if wi > 0 {
                assert(ends@[wi - 1] <= ends@[wi as int]);
            }
            assert(ends@[wi as int] <= last);
        }
        if acc >= PROPAGATE_BACK {
            proof {
                assert forall|v: int| 0 <= v < w implies !flagged_word(ends@, v) by {
                    assert(ends@[v] <= ends@[wi as int]);
                }
            }
            break;
        }
        acc = acc + (end - start);
        let mut k = start;
        while k < end
            invariant
                start <= k <= end <= last,
                start == prev_end(ends@, wi as int),
                end == ends@[wi as int],
                w == wi + 1,
                w < n ==> ends@[w - 1] == end,
                w == n ==> end == last,
                end <= recs@.len(),
                recs@.len() == orig.len(),
                forall|q: int| 0 <= q < orig.len() ==> #[trigger] recs@[q] == (if (start <= q < k) || (w < n && end <= q < last) {
                    ProsodyRecord { flags: 1, ..orig[q] }
                } else {
                    orig[q]
                }),
            decreases end - k,
        {
            recs[k].flags = 1;
            k = k + 1;
        }
        w = wi;
    }
    proof {
        assert forall|q: int| 0 <= q < orig.len() implies (w < n && prev_end(ends@, w as int) <= q < last) == flag_back_at(ends@, q) by {
            if w < n && prev_end(ends@, w as int) <= q < last {
                lemma_words_tile(ends@, w as int, q);
                let v = choose|v: int| w <= v < n && #[trigger] prev_end(ends@, v) <= q < ends@[v];
                assert(flagged_word(ends@, v));
            }
            if flag_back_at(ends@, q) {
                let v = choose|v: int| 0 <= v < n && flagged_word(ends@, v) && prev_end(ends@, v) <= q < ends@[v];
                assert(v >= w);
                if w > 0 && v > w {
                    assert(ends@[w - 1] <= ends@[v - 1]);
                }
                assert(ends@[v] <= last);
            }
        }
    }
}

/// Flags of the last words of every group (see [`flags_back`]).
pub fn propagate_flags_back(groups: &mut Vec<RecordGroup>)
    requires
        forall|g: int| 0 <= g < old(groups)@.len() ==> ends_sorted(#[trigger] old(groups)@[g].1@),
        forall|g: int, i: int| 0 <= g < old(groups)@.len() && 0 <= i < old(groups)@[g].1@.len() ==> #[trigger] old(groups)@[g].1@[i] <= old(groups)@[g].0@.len(),
    ensures
        final(groups)@.len() == old(groups)@.len(),
        forall|g: int| 0 <= g < old(groups)@.len() ==> {
            let o = #[trigger] old(groups)@[g];
            let f = final(groups)@[g];
            &&& f.1 == o.1
            &&& f.0@.len() == o.0@.len()
            &&& forall|k: int| 0 <= k < o.0@.len() ==> #[trigger] f.0@[k] == (if flag_back_at(o.1@, k) {
                ProsodyRecord { flags: 1, ..o.0@[k] }
            } else {
                o.0@[k]
            })
        },
{
    let ghost orig = groups@;
    let mut g: usize = 0;
    while g < groups.len()
        invariant
            g <= groups@.len(),
            groups@.len() == orig.len(),
            forall|h: int| 0 <= h < orig.len() ==> ends_sorted(#[trigger] orig[h].1@),
            forall|h: int, i: int| 0 <= h < orig.len() && 0 <= i < orig[h].1@.len() ==> #[trigger] orig[h].1@[i] <= orig[h].0@.len(),
            forall|h: int| g <= h < orig.len() ==> #[trigger] groups@[h] == orig[h],
            forall|h: int| 0 <= h < g ==> {
                let o = #[trigger] orig[h];
                let f = groups@[h];
                &&& f.1 == o.1
                &&& f.0@.len() == o.0@.len()
                &&& forall|k: int| 0 <= k < o.0@.len() ==> #[trigger] f.0@[k] == (if flag_back_at(o.1@, k) {
                    ProsodyRecord { flags: 1, ..o.0@[k] }
                } else {
                    o.0@[k]
                })
            },
        decreases groups@.len() - g,
    {
        let grp = &mut groups[g];
        flags_back(&mut grp.0, &grp.1);
        g = g + 1;
    }
}

/// Bracket code that closes a word as a phrase boundary.
pub const KPS_BRACKET: u16 = 0xA1D4;

/// How the word ending just before `pos` closes, from the punctuation that follows: the end
/// of the text or `.`/KPS full stop or a class 2/3 mark closes the clause, `,` gives a comma,
/// the KPS bracket a phrase break, anything else that is no punctuation (class 0 or above 3)
/// leaves the word mid-clause; other punctuation is passed over.
pub open spec fn final_tone_from(b: Seq<u8>, pos: int) -> WordFinalTone
    decreases b.len() - pos,
{
    if pos < 0 || pos >= b.len() {
        WordFinalTone::ClauseEnd
    } else {
        let (class, len) = next_token_class_spec(b.subrange(pos, b.len() as int));
        let b0 = b[pos];
        let two = b0 >= 0xA1 && len == 2 && pos + 1 < b.len();
        if class == 0 || class > 3 {
            WordFinalTone::Mid
        } else if b0 == 0x2c {
            WordFinalTone::Comma
        } else if b0 == 0x2e || (two && be16(b0, b[pos + 1]) == KPS_FULL_STOP) {
            WordFinalTone::ClauseEnd
        } else if class == 2 || class == 3 {
            WordFinalTone::ClauseEnd
        } else if two && be16(b0, b[pos + 1]) == KPS_BRACKET {
            WordFinalTone::Bracket
        } else if len == 0 {
            WordFinalTone::Mid
        } else {
            final_tone_from(b, pos + len)
        }
    }
}

/// How the word ending just before `pos` closes (see [`final_tone_from`]).
pub fn next_word_final_tone(bytes: &[u8], pos: usize) -> (r: WordFinalTone)
    requires
        whole_chars_from(bytes@, pos as int),
    ensures
        r == final_tone_from(bytes@, pos as int),
{
    let n = bytes.len();
    let mut p = pos;
    loop
        invariant
            whole_chars_from(bytes@, p as int),
            n == bytes@.len(),
            final_tone_from(bytes@, pos as int) == final_tone_from(bytes@, p as int),
        decreases n - p,
    {
        if p >= n {
            return WordFinalTone::ClauseEnd;
        }
        let (class, len) = next_token_class(&bytes[p..n]);
        if class == 0 || class > 3 {
            return WordFinalTone::Mid;
        }
        let b0 = bytes[p];
        proof {
            if b0 >= 0x80 {
                assert(p + 1 < n);
            }
        }
        if b0 == 0x2c {
            return WordFinalTone::Comma;
        }
        if b0 == 0x2e || (b0 >= 0xA1 && len == 2 && (b0 as u16) * 256 + bytes[p + 1] as u16 == KPS_FULL_STOP) {
            return WordFinalTone::ClauseEnd;
        }
        if class == 2 || class == 3 {
            return WordFinalTone::ClauseEnd;
        }
        if b0 >= 0xA1 && len == 2 {
            let code = (b0 as u16) * 256 + bytes[p + 1] as u16;
            if code == KPS_BRACKET {
                return WordFinalTone::Bracket;
            }
        }
        p = p + len;
    }
}

/// Syllable codes of a word's readings.
#[verifier::opaque]
pub open spec fn word_syllables_spec(d: G2pDicts, word: Seq<u8>) -> Seq<u16> {
    codes_from(*d.kps, word_g2p_spec(d, word), 0)
}

/// Whether a word can go through the word stages: each syllable code converts to a phoneme
/// code, and the count of syllables leaves room for a chunk count.
#[verifier::opaque]
pub open spec fn word_ok(d: G2pDicts, m: Seq<Mapping>, word: Seq<u8>) -> bool {
    let codes = word_syllables_spec(d, word);
    &&& forall|i: int| 0 <= i < codes.len() ==> phoneme_code_ok(#[trigger] codes[i])
    &&& codes.len() <= usize::MAX - CHUNK_SYLLABLES
}

/// Phoneme markers of a word closed with `tone`: the closing markers of its syllables, then the
/// morpheme-boundary rule and the accent-word rule on its decoded spelling.
#[verifier::opaque]
pub open spec fn word_markers_spec(d: G2pDicts, m: Seq<Mapping>, word: Seq<u8>, tone: WordFinalTone) -> Seq<u8> {
    let codes = word_syllables_spec(d, word);
    let text = decode_from(m, word, 0);
    let m1 = morph_boundary_spec(text, final_markers_spec(codes, tone));
    match accent_word_marker(text) {
        Some(a) => if m1.len() > 0 {
            m1.update(m1.len() - 1, a)
        } else {
            m1
        },
        None => m1,
    }
}

/// Phoneme codes of a word: those of its syllables, after the in-word sound changes driven
/// by its spelling.
#[verifier::opaque]
pub open spec fn word_codes_spec(d: G2pDicts, m: Seq<Mapping>, word: Seq<u8>) -> Seq<u16> {
    let rs = word_g2p_spec(d, word);
    sandhi_view(
        m,
        word,
        bytes_from(rs, 0),
        codes_from(*d.kps, rs, 0).map_values(|c: u16| phoneme_spec(*d.kps, c)),
        0,
    )
}

/// The word record of one word before the cross-word stages: its readings closed with
/// `tone`, its spelling, the marker rules, stage 1 and the in-word sound changes.
fn word_record_marked(dicts: &G2pDicts, kps: &Kps9566, word: &[u8], final_tone: WordFinalTone) -> (rec: WordRecord)
    requires
        dicts.wf(),
        sorted_by_kps(kps.mappings()),
        word_ok(*dicts, kps.mappings(), word@),
    ensures
        rec.syllable_codes@ == word_syllables_spec(*dicts, word@),
        rec.reading_bytes@ == bytes_from(word_g2p_spec(*dicts, word@), 0),
        rec.spelling@ == word@,
        rec.phoneme_markers@ == word_markers_spec(*dicts, kps.mappings(), word@, final_tone),
{
    let ghost m = kps.mappings();
    let readings = word_g2p(dicts, word);
    let ghost rs = rviews(readings@);
    assert(readings_view(readings@) =~= rs);
    let mut rec = word_record_from_readings_final(dicts.kps, &readings, final_tone);
    let ghost codes = rec.syllable_codes@;
    proof {
        reveal(word_syllables_spec);
        assert(codes == word_syllables_spec(*dicts, word@));
        reveal(word_ok);
        lemma_final_markers_len(codes, final_tone);
    }
    rec.spelling = slice_to_vec(word);
    apply_morph_boundaries(kps, &mut rec);
    apply_accent_markers(kps, &mut rec);
    proof {
        reveal(word_markers_spec);
    }
    rec
}

fn word_record_for(dicts: &G2pDicts, kps: &Kps9566, word: &[u8], final_tone: WordFinalTone) -> (rec: WordRecord)
    requires
        dicts.wf(),
        sorted_by_kps(kps.mappings()),
        word_ok(*dicts, kps.mappings(), word@),
    ensures
        rec.phoneme_codes@ == word_codes_spec(*dicts, kps.mappings(), word@),
        rec.phoneme_markers@ == word_markers_spec(*dicts, kps.mappings(), word@, final_tone),
        rec.phoneme_count == word_syllables_spec(*dicts, word@).len(),
        rec.phoneme_count <= usize::MAX - CHUNK_SYLLABLES,
{
    let mut rec = word_record_marked(dicts, kps, word, final_tone);
    let ghost codes = rec.syllable_codes@;
    let ghost markers = rec.phoneme_markers@;
    proof {
        reveal(word_ok);
        reveal(word_markers_spec);
        lemma_final_markers_len(codes, final_tone);
        assert(markers.len() == codes.len());
    }
    stage1_phoneme_codes(dicts.kps, &mut rec);
    assert(rec.phoneme_markers@ =~= markers);
    apply_phoneme_sandhi(kps, &mut rec);
    proof {
        reveal(word_codes_spec);
        reveal(word_syllables_spec);
    }
    rec
}

/// The cross-word stages on a word alone (rule marker 9, accent 9, its final marker) and its
/// prosody records, which only its phoneme codes and markers decide.
fn finish_word(rec: WordRecord) -> (r: Vec<ProsodyRecord>)
    requires
        rec.phoneme_count <= usize::MAX - CHUNK_SYLLABLES,
    ensures
        r@ == Seq::new(rec.phoneme_codes@.len(), |i: int| prosody_view(rec.phoneme_codes@, rec.phoneme_markers@, i)),
{
    let ghost codes = rec.phoneme_codes@;
    let ghost markers = rec.phoneme_markers@;
    let mut v: Vec<WordRecord> = Vec::new();
    v.push(rec);
    // A word alone has no neighbour: no cross-word rule compares any string.
    let none = PostprocessTables {
        linking_ending: Vec::new(),
        stem_ending: Vec::new(),
        tail_endings: Vec::new(),
        excluded_endings: Vec::new(),
        final_ending: Vec::new(),
        nasal_ending: Vec::new(),
        nasal_exclusions: Vec::new(),
    };
    stage4_cross_word_sandhi(&none, v.as_mut_slice());
    assert(v@.len() == 1);
    let r9 = v[0].rule_marker;
    v[0].accent = r9;
    stage8_final_markers(v.as_mut_slice());
    assert(v@.len() == 1);
    let last = v.pop().unwrap();
    assert(last.phoneme_codes@ == codes);
    assert(last.phoneme_markers@ == markers);
    record_to_prosody(&last)
}

/// Prosody records of one word (see [`word_codes_spec`] and [`word_markers_spec`]): its
/// readings, the word record closed with `final_tone`, the marker rules on its spelling, the
/// word stages (for a single word the prosody smoothing leaves only its accent, which takes
/// the rule marker), and one record per phoneme.
pub fn word_to_records(dicts: &G2pDicts, kps: &Kps9566, word: &[u8], final_tone: WordFinalTone) -> (r: Vec<ProsodyRecord>)
    requires
        dicts.wf(),
        sorted_by_kps(kps.mappings()),
        word_ok(*dicts, kps.mappings(), word@),
    ensures
        r@ == Seq::new(
            word_codes_spec(*dicts, kps.mappings(), word@).len(),
            |i: int| prosody_view(word_codes_spec(*dicts, kps.mappings(), word@), word_markers_spec(*dicts, kps.mappings(), word@, final_tone), i),
        ),
{
    let rec = word_record_for(dicts, kps, word, final_tone);
    finish_word(rec)
}

/// Class of the token at `p` and its length.
pub open spec fn token_at(b: Seq<u8>, p: int) -> (u8, usize) {
    next_token_class_spec(b.subrange(p, b.len() as int))
}

/// A digit or syllable token is whole: it takes one or two bytes that are there.
proof fn lemma_token_fits(b: Seq<u8>, p: int)
    requires
        0 <= p < b.len(),
    ensures
        (token_at(b, p).0 == 4 || token_at(b, p).0 == 0x19) ==> 1 <= token_at(b, p).1 && p
            + token_at(b, p).1 <= b.len(),
        token_at(b, p).0 != 0 ==> token_at(b, p).1 >= 1,
{
    let t = b.subrange(p, b.len() as int);
    assert(t.len() == b.len() - p);
    if t.len() == 1 && t[0] >= 0xA1 {
        assert(be16(t[0], 0) % 256 == 0);
    }
}

/// End of the run of tokens of class `c` from `p`.
pub open spec fn class_run_end(b: Seq<u8>, p: int, c: u8) -> int
    decreases b.len() - p,
{
    if p < 0 || p >= b.len() {
        p
    } else {
        let (cc, l) = token_at(b, p);
        if cc != c || l == 0 || p + l > b.len() {
            p
        } else {
            class_run_end(b, p + l, c)
        }
    }
}

proof fn lemma_run_end(b: Seq<u8>, p: int, c: u8)
    requires
        0 <= p <= b.len(),
    ensures
        p <= class_run_end(b, p, c) <= b.len(),
        whole_chars_from(b, p) ==> whole_chars_from(b, class_run_end(b, p, c)),
    decreases b.len() - p,
{
    if p < b.len() {
        lemma_token_fits(b, p);
        lemma_whole_step(b, p);
        let (cc, l) = token_at(b, p);
        if cc == c && l != 0 && p + l <= b.len() {
            lemma_run_end(b, p + l, c);
        }
    }
}

/// In whole characters a token takes the bytes of its character, and whole characters follow.
proof fn lemma_whole_step(b: Seq<u8>, p: int)
    requires
        0 <= p < b.len(),
    ensures
        whole_chars_from(b, p) && token_at(b, p).0 != 0 ==> p + token_at(b, p).1 <= b.len()
            && whole_chars_from(b, p + token_at(b, p).1),
        whole_chars_from(b, p) ==> p + (if b[p] < 0x80 { 1int } else { 2int }) <= b.len()
            && whole_chars_from(b, p + (if b[p] < 0x80 { 1int } else { 2int })),
        token_at(b, p).0 != 0 ==> token_at(b, p).1 == (if b[p] < 0x80 { 1usize } else { 2usize }),
{
    let t = b.subrange(p, b.len() as int);
    assert(t.len() == b.len() - p);
    assert(t[0] == b[p]);
}

fn run_end(bytes: &[u8], p: usize, c: u8) -> (r: usize)
    requires
        p <= bytes@.len(),
    ensures
        r == class_run_end(bytes@, p as int, c),
        p <= r <= bytes@.len(),
{
    let n = bytes.len();
    let mut q = p;
    proof {
        lemma_run_end(bytes@, p as int, c);
    }
    while q < n
        invariant
            p <= q <= n,
            n == bytes@.len(),
            class_run_end(bytes@, p as int, c) == class_run_end(bytes@, q as int, c),
        ensures
            p <= q <= n,
            class_run_end(bytes@, p as int, c) == q,
        decreases n - q,
    {
        let (cc, l) = next_token_class(&bytes[q..n]);
        proof {
            lemma_token_fits(bytes@, q as int);
        }
        if cc != c || l == 0 || l > n - q {
            break;
        }
        q = q + l;
    }
    q
}

/// Digit values of ASCII digit bytes.
pub open spec fn digit_values(b: Seq<u8>) -> Seq<u8> {
    b.map_values(|x: u8| (x - 0x30) as u8)
}

/// Whether every byte is an ASCII digit.
pub open spec fn ascii_digits(b: Seq<u8>) -> bool {
    forall|i: int| 0 <= i < b.len() ==> 0x30 <= #[trigger] b[i] <= 0x39
}

/// The parts of a number token at `start`: end of the whole part, its digit bytes, and the
/// fraction's digit bytes and end (no fraction without a digit after the `.`).
pub open spec fn number_parts(b: Seq<u8>, start: int) -> (int, Seq<u8>, Seq<u8>, int) {
    let pos = class_run_end(b, start, 4);
    let ip = b.subrange(start, pos);
    if pos < b.len() && b[pos] == 0x2e {
        let fe = class_run_end(b, pos + 1, 4);
        let fp = b.subrange(pos + 1, fe);
        if fp.len() > 0 {
            (pos, ip, fp, fe)
        } else {
            (pos, ip, fp, pos)
        }
    } else {
        (pos, ip, Seq::empty(), pos)
    }
}

/// KPS 9566 bytes of two-byte codes.
pub open spec fn code_bytes(s: Seq<u16>) -> Seq<u8>
    decreases s.len(),
{
    if s.len() == 0 {
        Seq::empty()
    } else {
        code_bytes(s.drop_last()) + seq![(s.last() / 256) as u8, (s.last() % 256) as u8]
    }
}

/// Whether a class is that of final ㄱ, ㄷ or ㅂ.
pub open spec fn stop_final(c: u8) -> bool {
    c == 0 || c == 5 || c == 15
}

/// Phoneme codes of a number token's digits: the whole number read the Sino-Korean way, or
/// digit by digit around 쩜 when it has a fraction.
pub open spec fn number_base_codes(t: KpsTables, ip: Seq<u8>, fp: Seq<u8>) -> Seq<u16> {
    if fp.len() == 0 {
        sino_syllables_spec(t, digit_values(ip)).map_values(|k: u16| kps_phoneme_spec(t, k))
    } else {
        decimal_spec(t, digit_values(ip), digit_values(fp))
    }
}

/// The word that reads on from a whole number (its bytes and end): after a number whose last
/// syllable ends in ㄱ, ㄷ or ㅂ, a syllable run whose first syllable is an open ㅇ syllable of a
/// function vowel; `None` when there is none.
#[verifier::opaque]
pub open spec fn merge_word(d: G2pDicts, b: Seq<u8>, start: int) -> Option<(Seq<u8>, int)> {
    let t = *d.kps;
    let (pos, ip, fp, fe) = number_parts(b, start);
    let syl = sino_syllables_spec(t, digit_values(ip));
    if fp.len() == 0 && stop_final(kps_final_class_spec(t, syl.last())) && token_at(b, pos).0 == 0x19 {
        let wpos = class_run_end(b, pos, 0x19);
        let word = b.subrange(pos, wpos);
        match kps_codes_from(t, word, 0) {
            Some(wc) => if wc.len() > 0 && initial_of(phoneme_spec(t, wc[0])) == 18 && class_of(
                phoneme_spec(t, wc[0]),
            ) == 27 && is_func_medial_spec(medial_of(phoneme_spec(t, wc[0]))) {
                Some((word, wpos))
            } else {
                None
            },
            None => None,
        }
    } else {
        None
    }
}

/// The base codes followed by the phoneme codes of `word`, after the in-word sound changes on
/// the spelled-out number and the word from the number's last syllable on.
#[verifier::opaque]
pub open spec fn merged_codes_spec(d: G2pDicts, m: Seq<Mapping>, codes0: Seq<u16>, syl: Seq<u16>, word: Seq<u8>) -> Seq<u16> {
    let rs = word_g2p_spec(d, word);
    let pc = codes_from(*d.kps, rs, 0).map_values(|c: u16| phoneme_spec(*d.kps, c));
    sandhi_view(m, code_bytes(syl) + word, bytes_from(rs, 0), codes0 + pc, codes0.len() - 1)
}

/// Phoneme codes of a number token at `start`, the end of the input it takes, and whether a
/// following word was read on with it: the base codes (see [`number_base_codes`]); when a word
/// reads on (see [`merge_word`]), the base codes followed by the word's phoneme codes, after the
/// in-word sound changes on the spelled-out number and the word, from the number's last
/// syllable on.
#[verifier::opaque]
pub open spec fn number_token_spec(d: G2pDicts, m: Seq<Mapping>, b: Seq<u8>, start: int) -> (Seq<u16>, int, bool) {
    let t = *d.kps;
    let (pos, ip, fp, fe) = number_parts(b, start);
    let codes0 = number_base_codes(t, ip, fp);
    match merge_word(d, b, start) {
        None => (codes0, fe, false),
        Some((word, wpos)) => (
            merged_codes_spec(d, m, codes0, sino_syllables_spec(t, digit_values(ip)), word),
            wpos,
            true,
        ),
    }
}

/// Whether a number token can be read: its digits are ASCII digits, a whole number fits the
/// table's units, and the codes of a word read on with it convert to phoneme codes.
#[verifier::opaque]
pub open spec fn number_token_ok(d: G2pDicts, b: Seq<u8>, start: int) -> bool {
    let t = *d.kps;
    let (pos, ip, fp, fe) = number_parts(b, start);
    &&& ascii_digits(ip)
    &&& ascii_digits(fp)
    &&& (fp.len() == 0 ==> sino_digits_ok(t, digit_values(ip)))
    &&& (fp.len() == 0 && stop_final(kps_final_class_spec(t, sino_syllables_spec(t, digit_values(ip)).last())) && token_at(b, pos).0 == 0x19 ==> {
        let word = b.subrange(pos, class_run_end(b, pos, 0x19));
        kps_codes_from(t, word, 0) matches Some(wc) ==> (wc.len() > 0 ==> phoneme_code_ok(wc[0]))
    })
    &&& (merge_word(d, b, start) is Some ==> readings_convert(d, (merge_word(d, b, start)->0).0))
}

/// Whether every syllable code of a word's readings converts to a phoneme code.
pub open spec fn readings_convert(d: G2pDicts, word: Seq<u8>) -> bool {
    let codes = codes_from(*d.kps, word_g2p_spec(d, word), 0);
    forall|i: int| 0 <= i < codes.len() ==> phoneme_code_ok(#[trigger] codes[i])
}

proof fn lemma_ascii_run_tokens(b: Seq<u8>, p: int, e: int)
    requires
        0 <= p <= e <= b.len(),
        e == class_run_end(b, p, 4),
        ascii_digits(b.subrange(p, e)),
    ensures
        forall|q: int| p <= q < e ==> token_at(b, q).0 == 4 && token_at(b, q).1 == 1,
    decreases e - p,
{
    if p < e {
        lemma_token_fits(b, p);
        let (cc, l) = token_at(b, p);
        assert(b.subrange(p, e)[0] == b[p]);
        assert(b.subrange(p, b.len() as int)[0] == b[p]);
        assert(b.subrange(p + 1, e) =~= b.subrange(p, e).subrange(1, e - p));
        lemma_ascii_run_tokens(b, p + 1, e);
    }
}

/// The digit values of the run of ASCII digit tokens from `p` to `e`, one per token.
fn digit_run(bytes: &[u8], p: usize, e: usize) -> (r: Vec<u8>)
    requires
        p <= e <= bytes@.len(),
        e == class_run_end(bytes@, p as int, 4),
        ascii_digits(bytes@.subrange(p as int, e as int)),
    ensures
        r@ == digit_values(bytes@.subrange(p as int, e as int)),
{
    proof {
        lemma_ascii_run_tokens(bytes@, p as int, e as int);
    }
    let n = bytes.len();
    let mut out: Vec<u8> = Vec::new();
    let mut q = p;
    while q < n
        invariant
            p <= q <= e,
            e <= n,
            n == bytes@.len(),
            e == class_run_end(bytes@, p as int, 4),
            class_run_end(bytes@, q as int, 4) == e,
            ascii_digits(bytes@.subrange(p as int, e as int)),
            forall|k: int| p <= k < e ==> token_at(bytes@, k).0 == 4 && token_at(bytes@, k).1 == 1,
            out@ == digit_values(bytes@.subrange(p as int, q as int)),
        ensures
            q == e,
            out@ == digit_values(bytes@.subrange(p as int, e as int)),
        decreases n - q,
    {
        let (c, l) = next_token_class(&bytes[q..n]);
        if c != 4 {
            break;
        }
        proof {
            lemma_token_fits(bytes@, q as int);
            lemma_run_end(bytes@, q + l, 4);
        }
        assert(q < e);
        assert(bytes@.subrange(p as int, e as int)[q - p] == bytes@[q as int]);
        out.push(bytes[q] - 0x30);
        q = q + l;
        assert(out@ =~= digit_values(bytes@.subrange(p as int, q as int)));
    }
    out
}

/// The syllable codes of a word read on from a number, as KPS 9566 bytes of the number's
/// syllables followed by the word.
fn spelled_number(syl: &Vec<u16>, word: &Vec<u8>) -> (r: Vec<u8>)
    ensures
        r@ == code_bytes(syl@) + word@,
{
    let mut out: Vec<u8> = Vec::new();
    let mut i: usize = 0;
    while i < syl.len()
        invariant
            i <= syl@.len(),
            out@ == code_bytes(syl@.subrange(0, i as int)),
        decreases syl@.len() - i,
    {
        let k = syl[i];
        assert((k >> 8) == k / 256 && (k & 0xff) == k % 256) by (bit_vector);
        out.push((k >> 8) as u8);
        out.push((k & 0xff) as u8);
        i = i + 1;
        assert(syl@.subrange(0, i as int).drop_last() =~= syl@.subrange(0, i - 1));
        assert(out@ =~= code_bytes(syl@.subrange(0, i as int)));
    }
    assert(syl@.subrange(0, syl@.len() as int) =~= syl@);
    let mut j: usize = 0;
    let ghost head = out@;
    while j < word.len()
        invariant
            j <= word@.len(),
            out@ == head + word@.subrange(0, j as int),
        decreases word@.len() - j,
    {
        out.push(word[j]);
        j = j + 1;
        assert(out@ =~= head + word@.subrange(0, j as int));
    }
    assert(word@.subrange(0, word@.len() as int) =~= word@);
    out
}

/// The parts of a number token (see [`number_parts`]) as digit values.
fn number_parts_exec(bytes: &[u8], start: usize) -> (r: (usize, Vec<u8>, Vec<u8>, usize))
    requires
        start <= bytes@.len(),
        ascii_digits(number_parts(bytes@, start as int).1),
        ascii_digits(number_parts(bytes@, start as int).2),
    ensures
        r.0 as int == number_parts(bytes@, start as int).0,
        r.1@ == digit_values(number_parts(bytes@, start as int).1),
        r.2@ == digit_values(number_parts(bytes@, start as int).2),
        r.2@.len() == number_parts(bytes@, start as int).2.len(),
        r.3 as int == number_parts(bytes@, start as int).3,
        r.0 <= bytes@.len(),
{
    let n = bytes.len();
    let pos = run_end(bytes, start, 4);
    let digits = digit_run(bytes, start, pos);
    let mut frac_end = pos;
    let mut frac: Vec<u8> = Vec::new();
    if pos < n && bytes[pos] == 0x2e {
        let fe = run_end(bytes, pos + 1, 4);
        frac = digit_run(bytes, pos + 1, fe);
        if frac.len() > 0 {
            frac_end = fe;
        }
    } else {
        assert(frac@ =~= digit_values(Seq::<u8>::empty()));
    }
    (pos, digits, frac, frac_end)
}

/// The word read on from a whole number with digits `digits` ending at `pos` (see
/// [`merge_word`]).
fn find_merge_word(dicts: &G2pDicts, bytes: &[u8], start: usize, pos: usize, digits: &Vec<u8>, syl: &Vec<u16>) -> (r: Option<(Vec<u8>, usize)>)
    requires
        dicts.wf(),
        start <= bytes@.len(),
        pos as int == number_parts(bytes@, start as int).0,
        pos <= bytes@.len(),
        number_parts(bytes@, start as int).2.len() == 0,
        digits@ == digit_values(number_parts(bytes@, start as int).1),
        syl@ == sino_syllables_spec(*dicts.kps, digits@),
        syl@.len() > 0,
        number_token_ok(*dicts, bytes@, start as int),
    ensures
        match r {
            Some((w, e)) => merge_word(*dicts, bytes@, start as int) == Some((w@, e as int)),
            None => merge_word(*dicts, bytes@, start as int) is None,
        },
{
    proof {
        reveal(merge_word);
        reveal(number_token_ok);
    }
    let n = bytes.len();
    let last_kps = syl[syl.len() - 1];
    let lcls = kps_final_class(dicts.kps, last_kps);
    if !(lcls == 0 || lcls == 5 || lcls == 15) {
        return None;
    }
    let (nc, _nl) = next_token_class(&bytes[pos..n]);
    if nc != 0x19 {
        return None;
    }
    let wpos = run_end(bytes, pos, 0x19);
    let word = sub_vec(bytes, pos, wpos);
    let wcodes = match kps_bytes_to_codes(dicts.kps, &word) {
        Some(c) => c,
        None => return None,
    };
    if wcodes.len() == 0 {
        return None;
    }
    let fc = to_phoneme_code(dicts.kps, wcodes[0]);
    let (fcls, fmed, finit) = split_phoneme(fc);
    if finit == 18 && fcls == 27 && is_func_medial(fmed) {
        Some((word, wpos))
    } else {
        None
    }
}

proof fn lemma_number_ok_parts(d: G2pDicts, b: Seq<u8>, start: int)
    requires
        number_token_ok(d, b, start),
    ensures
        ascii_digits(number_parts(b, start).1),
        ascii_digits(number_parts(b, start).2),
        number_parts(b, start).2.len() == 0 ==> sino_digits_ok(*d.kps, digit_values(number_parts(b, start).1)),
{
    reveal(number_token_ok);
}

proof fn lemma_number_ok_merge(d: G2pDicts, b: Seq<u8>, start: int, word: Seq<u8>, wpos: int)
    requires
        number_token_ok(d, b, start),
        merge_word(d, b, start) == Some((word, wpos)),
    ensures
        readings_convert(d, word),
{
    reveal(number_token_ok);
}

/// Codes of a number token at `start`, the end of the input it takes, and whether a word was
/// read on with it (see [`number_token_spec`]).
pub fn number_token_codes(dicts: &G2pDicts, kps: &Kps9566, bytes: &[u8], start: usize) -> (r: (Vec<u16>, usize, bool))
    requires
        dicts.wf(),
        sorted_by_kps(kps.mappings()),
        start <= bytes@.len(),
        number_token_ok(*dicts, bytes@, start as int),
    ensures
        (r.0@, r.1 as int, r.2) == number_token_spec(*dicts, kps.mappings(), bytes@, start as int),
{
    let ghost parts = number_parts(bytes@, start as int);
    proof {
        lemma_number_ok_parts(*dicts, bytes@, start as int);
    }
    let (pos, digits, frac, frac_end) = number_parts_exec(bytes, start);
    let codes = if frac.len() == 0 {
        sino_integer_codes(dicts.kps, &digits)
    } else {
        decimal_codes(dicts.kps, &digits, &frac)
    };
    assert(codes@ == number_base_codes(*dicts.kps, parts.1, parts.2));
    if frac.len() == 0 && codes.len() > 0 {
        let syl = sino_integer_kps_syllables(dicts.kps, &digits);
        if let Some((word, wpos)) = find_merge_word(dicts, bytes, start, pos, &digits, &syl) {
            proof {
                lemma_number_ok_merge(*dicts, bytes@, start as int, word@, wpos as int);
            }
            let merged = merge_number_word(dicts, kps, &codes, &syl, &word);
            proof {
                reveal(number_token_spec);
            }
            return (merged, wpos, true);
        }
    } else {
        proof {
            reveal(merge_word);
            if frac.len() == 0 {
                assert(codes@.len() > 0);
            }
        }
    }
    proof {
        reveal(number_token_spec);
    }
    (codes, frac_end, false)
}

/// The base codes of a number followed by the phoneme codes of the word read on with it,
/// after the in-word sound changes on the spelled-out number and the word from the number's
/// last syllable on.
fn merge_number_word(dicts: &G2pDicts, kps: &Kps9566, codes: &Vec<u16>, syl: &Vec<u16>, word: &Vec<u8>) -> (r: Vec<u16>)
    requires
        dicts.wf(),
        sorted_by_kps(kps.mappings()),
        codes@.len() > 0,
        readings_convert(*dicts, word@),
    ensures
        r@ == merged_codes_spec(*dicts, kps.mappings(), codes@, syl@, word@),
{
    let readings = word_g2p(dicts, word);
    assert(readings_view(readings@) =~= rviews(readings@));
    let mut rec = word_record_from_readings(dicts.kps, &readings);
    proof {
        lemma_markers_len(*dicts.kps, rviews(readings@), 0);
    }
    stage1_phoneme_codes(dicts.kps, &mut rec);
    let ghost pc = rec.phoneme_codes@;
    let mut all = slice_to_vec(codes.as_slice());
    let mut k: usize = 0;
    while k < rec.phoneme_codes.len()
        invariant
            k <= rec.phoneme_codes@.len(),
            rec.phoneme_codes@ == pc,
            all@ == codes@ + pc.subrange(0, k as int),
        decreases rec.phoneme_codes@.len() - k,
    {
        all.push(rec.phoneme_codes[k]);
        k = k + 1;
        assert(all@ =~= codes@ + pc.subrange(0, k as int));
    }
    assert(pc.subrange(0, pc.len() as int) =~= pc);
    rec.phoneme_codes = all;
    let mut markers: Vec<u8> = Vec::new();
    let mut j: usize = 0;
    while j < codes.len()
        invariant
            j <= codes@.len(),
        decreases codes@.len() - j,
    {
        markers.push(1);
        j = j + 1;
    }
    let mut q: usize = 0;
    while q < rec.phoneme_markers.len()
        invariant
            q <= rec.phoneme_markers@.len(),
        decreases rec.phoneme_markers@.len() - q,
    {
        markers.push(rec.phoneme_markers[q]);
        q = q + 1;
    }
    rec.phoneme_markers = markers;
    rec.phoneme_count = rec.phoneme_codes.len();
    let ghost reading = rec.reading_bytes@;
    rec.spelling = spelled_number(syl, word);
    apply_phoneme_sandhi_from(kps, &mut rec, codes.len() - 1);
    proof {
        reveal(merged_codes_spec);
    }
    rec.phoneme_codes
}

/// Groups of a sentence as plain values.
pub type GroupsView = Seq<(Seq<ProsodyRecord>, Seq<usize>)>;

/// The groups as plain values.
pub open spec fn groups_view(g: Seq<RecordGroup>) -> GroupsView {
    g.map_values(|x: RecordGroup| (x.0@, x.1@))
}

/// Whether the last group holds a record.
pub open spec fn last_nonempty(g: GroupsView) -> bool {
    g.len() > 0 && g.last().0.len() > 0
}

/// The groups with the last record of the last group marked clause-final (when there is one).
pub open spec fn mark_last(g: GroupsView) -> GroupsView {
    if last_nonempty(g) {
        let (r, e) = g.last();
        g.update(g.len() - 1, (r.update(r.len() - 1, clause_end_spec(r.last())), e))
    } else {
        g
    }
}

/// The groups with `rs` appended to the last group's records.
pub open spec fn append_records(g: GroupsView, rs: Seq<ProsodyRecord>) -> GroupsView {
    let (r, e) = g.last();
    g.update(g.len() - 1, (r + rs, e))
}

/// The groups with a word end after the last group's current records.
pub open spec fn push_end(g: GroupsView) -> GroupsView {
    let (r, e) = g.last();
    g.update(g.len() - 1, (r, e.push(r.len() as usize)))
}

/// Record of a number code: its markers set from 1 for the last code of a number read on with
/// a word, else from 0.
pub open spec fn number_record(code: u16, last_merged: bool) -> ProsodyRecord {
    init_from_marker_spec(
        ProsodyRecord { prev_code: 0, code, marker: 0, flags: 0, tone_class: 0 },
        if last_merged { 1 } else { 0 },
        false,
    )
}

/// Records of a word (see [`word_to_records`]).
pub open spec fn word_records_spec(d: G2pDicts, m: Seq<Mapping>, word: Seq<u8>, tone: WordFinalTone) -> Seq<ProsodyRecord> {
    let codes = word_codes_spec(d, m, word);
    Seq::new(codes.len(), |i: int| prosody_view(codes, word_markers_spec(d, m, word, tone), i))
}

/// One step of reading a sentence at `pos`: the next position and the groups after the token
/// there. A line break marks the clause end and starts a new group; a period (not a decimal
/// point) marks the clause end; other punctuation is passed over; a number adds its records
/// (and a word end unless a syllable word follows that was not read on); a run of tokens of one
/// class is a word whose records are added with a word end.
pub open spec fn sentence_step(d: G2pDicts, m: Seq<Mapping>, b: Seq<u8>, pos: int, g: GroupsView) -> (int, GroupsView) {
    let (class, len) = token_at(b, pos);
    let b0 = b[pos];
    if class == 0 {
        let g1 = if b0 == 0x0a || b0 == 0x0d {
            let gm = mark_last(g);
            if last_nonempty(gm) {
                gm.push((Seq::empty(), Seq::empty()))
            } else {
                gm
            }
        } else {
            g
        };
        (pos + (if b0 < 0x80 { 1int } else { 2int }), g1)
    } else if class <= 3 {
        let is_period = b0 == 0x2e || (b0 >= 0xA1 && len == 2 && pos + 1 < b.len() && be16(b0, b[pos + 1]) == KPS_FULL_STOP);
        let g1 = if is_period && last_nonempty(g) && !(b0 == 0x2e && token_at(b, pos + len).0 == 4) {
            mark_last(g)
        } else {
            g
        };
        (pos + len, g1)
    } else if class == 4 {
        let (codes, fe, merged) = number_token_spec(d, m, b, pos);
        let rs = Seq::new(codes.len(), |i: int| number_record(codes[i], merged && i + 1 == codes.len()));
        let g1 = append_records(g, rs);
        (fe, if merged || token_at(b, fe).0 != 0x19 { push_end(g1) } else { g1 })
    } else {
        let e = class_run_end(b, pos, class);
        let word = b.subrange(pos, e);
        if word.len() == 0 {
            (e, g)
        } else {
            (e, push_end(append_records(g, word_records_spec(d, m, word, final_tone_from(b, e)))))
        }
    }
}

/// The groups after reading the sentence from `pos` on.
pub open spec fn groups_from(d: G2pDicts, m: Seq<Mapping>, b: Seq<u8>, pos: int, g: GroupsView) -> GroupsView
    decreases b.len() - pos,
{
    if pos < 0 || pos >= b.len() {
        g
    } else {
        let (next, g1) = sentence_step(d, m, b, pos, g);
        if next <= pos || next >= b.len() {
            g1
        } else {
            groups_from(d, m, b, next, g1)
        }
    }
}

/// Whether every token of the sentence from `pos` on can be read: numbers as
/// [`number_token_ok`], words as [`word_ok`].
pub open spec fn sentence_ok_from(d: G2pDicts, m: Seq<Mapping>, b: Seq<u8>, pos: int) -> bool
    decreases b.len() - pos,
{
    if pos < 0 || pos >= b.len() {
        true
    } else {
        let (class, len) = token_at(b, pos);
        let here = if class == 4 {
            number_token_ok(d, b, pos)
        } else if class > 4 {
            word_ok(d, m, b.subrange(pos, class_run_end(b, pos, class)))
        } else {
            true
        };
        let next = sentence_step(d, m, b, pos, seq![(Seq::empty(), Seq::empty())]).0;
        here && (next <= pos || next >= b.len() || sentence_ok_from(d, m, b, next))
    }
}

/// A group's records after the chunk breaks.
pub open spec fn chunk_breaks_spec(r: Seq<ProsodyRecord>, e: Seq<usize>) -> Seq<ProsodyRecord> {
    Seq::new(r.len(), |k: int| if chunk_break_at(e, k) { ProsodyRecord { tone_class: 3, ..r[k] } } else { r[k] })
}

/// A group's records after the flags of its last words.
pub open spec fn flags_back_spec(r: Seq<ProsodyRecord>, e: Seq<usize>) -> Seq<ProsodyRecord> {
    Seq::new(r.len(), |k: int| if flag_back_at(e, k) { ProsodyRecord { flags: 1, ..r[k] } } else { r[k] })
}

/// Records of the groups from `i` on that hold any.
pub open spec fn nonempty_records(g: GroupsView, i: int) -> Seq<Seq<ProsodyRecord>>
    decreases g.len() - i,
{
    if i < 0 || i >= g.len() {
        Seq::empty()
    } else if g[i].0.len() == 0 {
        nonempty_records(g, i + 1)
    } else {
        seq![g[i].0] + nonempty_records(g, i + 1)
    }
}

/// Record groups of a sentence: the groups read from it, each with its chunk breaks and the
/// flags of its last words, the last record marked clause-final, and the empty groups left out.
pub open spec fn sentence_records_spec(d: G2pDicts, m: Seq<Mapping>, b: Seq<u8>) -> Seq<Seq<ProsodyRecord>> {
    let g = groups_from(d, m, b, 0, seq![(Seq::empty(), Seq::empty())]);
    let g2 = g.map_values(|x: (Seq<ProsodyRecord>, Seq<usize>)| (flags_back_spec(chunk_breaks_spec(x.0, x.1), x.1), x.1));
    nonempty_records(mark_last(g2), 0)
}

/// Whether every group's word ends are sorted and within its records.
pub open spec fn groups_wf(g: GroupsView) -> bool {
    &&& g.len() > 0
    &&& forall|i: int| 0 <= i < g.len() ==> ends_sorted(#[trigger] g[i].1)
    &&& forall|i: int, j: int| 0 <= i < g.len() && 0 <= j < g[i].1.len() ==> #[trigger] g[i].1[j] <= g[i].0.len()
}

/// A number token ends after its start, within whole characters.
proof fn lemma_number_end(d: G2pDicts, m: Seq<Mapping>, b: Seq<u8>, start: int)
    requires
        0 <= start < b.len(),
        token_at(b, start).0 == 4,
        whole_chars_from(b, start),
    ensures
        start < number_token_spec(d, m, b, start).1 <= b.len(),
        whole_chars_from(b, number_token_spec(d, m, b, start).1),
{
    reveal(number_token_spec);
    reveal(merge_word);
    lemma_whole_step(b, start);
    let l = token_at(b, start).1;
    lemma_run_end(b, start + l, 4);
    let pos = class_run_end(b, start, 4);
    assert(pos == class_run_end(b, start + l, 4));
    if pos < b.len() && b[pos] == 0x2e {
        lemma_whole_step(b, pos);
        lemma_run_end(b, pos + 1, 4);
    }
    lemma_run_end(b, pos, 0x19);
}

fn mark_last_exec(groups: &mut Vec<RecordGroup>)
    requires
        old(groups)@.len() > 0,
    ensures
        groups_view(final(groups)@) == mark_last(groups_view(old(groups)@)),
{
    let gl = groups.len() - 1;
    let rl = groups[gl].0.len();
    let ghost g0 = groups_view(groups@);
    if rl > 0 {
        let last = groups[gl].0[rl - 1];
        let mut rec = last;
        mark_clause_end(&mut rec);
        groups[gl].0.set(rl - 1, rec);
        assert(groups_view(groups@) =~= mark_last(g0));
    } else {
        assert(groups_view(groups@) =~= mark_last(g0));
    }
}

fn append_exec(groups: &mut Vec<RecordGroup>, rs: &Vec<ProsodyRecord>)
    requires
        old(groups)@.len() > 0,
    ensures
        groups_view(final(groups)@) == append_records(groups_view(old(groups)@), rs@),
        final(groups)@.len() == old(groups)@.len(),
{
    let gl = groups.len() - 1;
    let ghost g0 = groups_view(groups@);
    let ghost r0 = groups@[gl as int].0@;
    let mut i: usize = 0;
    while i < rs.len()
        invariant
            i <= rs@.len(),
            gl + 1 == groups@.len(),
            g0.len() == groups@.len(),
            groups_view(groups@) == g0.update(gl as int, (r0 + rs@.subrange(0, i as int), g0[gl as int].1)),
        decreases rs@.len() - i,
    {
        let ghost before = groups@;
        let x = rs[i];
        groups[gl].0.push(x);
        i = i + 1;
        proof {
            assert(groups@.len() == before.len());
            assert(groups@[gl as int].0@ == before[gl as int].0@.push(x));
            assert(groups@[gl as int].1@ == before[gl as int].1@);
            assert(forall|j: int| 0 <= j < groups@.len() && j != gl ==> groups@[j] == before[j]);
            assert(r0 + rs@.subrange(0, i as int) =~= (r0 + rs@.subrange(0, i - 1)).push(x));
            assert(groups_view(before)[gl as int] == (before[gl as int].0@, before[gl as int].1@));
            let goal = g0.update(gl as int, (r0 + rs@.subrange(0, i as int), g0[gl as int].1));
            assert forall|j: int| 0 <= j < groups@.len() implies #[trigger] groups_view(groups@)[j] == goal[j] by {
                assert(groups_view(groups@)[j] == (groups@[j].0@, groups@[j].1@));
                if j != gl {
                    assert(groups_view(before)[j] == (before[j].0@, before[j].1@));
                    assert(groups@[j] == before[j]);
                } else {
                    assert(before[gl as int].0@ == r0 + rs@.subrange(0, i - 1));
                    assert(goal[j] == (r0 + rs@.subrange(0, i as int), g0[gl as int].1));
                }
            }
            assert(groups_view(groups@) =~= goal);
        }
    }
    assert(rs@.subrange(0, rs@.len() as int) =~= rs@);
    assert(groups_view(groups@) =~= append_records(g0, rs@));
}

fn push_end_exec(groups: &mut Vec<RecordGroup>)
    requires
        old(groups)@.len() > 0,
    ensures
        groups_view(final(groups)@) == push_end(groups_view(old(groups)@)),
        final(groups)@.len() == old(groups)@.len(),
{
    let gl = groups.len() - 1;
    let ghost g0 = groups_view(groups@);
    let rl = groups[gl].0.len();
    groups[gl].1.push(rl);
    assert(groups_view(groups@) =~= push_end(g0));
}

proof fn lemma_wf_append(g: GroupsView, rs: Seq<ProsodyRecord>)
    requires
        groups_wf(g),
    ensures
        groups_wf(append_records(g, rs)),
{
    let g2 = append_records(g, rs);
    assert forall|i: int, j: int| 0 <= i < g2.len() && 0 <= j < g2[i].1.len() implies #[trigger] g2[i].1[j] <= g2[i].0.len() by {
        assert(g[i].1[j] <= g[i].0.len());
    }
}

proof fn lemma_wf_push_end(g: GroupsView)
    requires
        groups_wf(g),
        g.last().0.len() <= usize::MAX,
    ensures
        groups_wf(push_end(g)),
{
    let g2 = push_end(g);
    let k = g.len() - 1;
    assert forall|i: int| 0 <= i < g2.len() implies ends_sorted(#[trigger] g2[i].1) by {
        if i == k {
            let e = g[k].1;
            assert forall|a: int, c: int| 0 <= a <= c < g2[i].1.len() implies g2[i].1[a] <= g2[i].1[c] by {
                assert(g2[i].1 == e.push(g[k].0.len() as usize));
                if c == e.len() {
                    if a < e.len() {
                        assert(e[a] <= g[k].0.len());
                    }
                } else {
                    assert(ends_sorted(g[k].1));
                }
            }
        }
    }
    assert forall|i: int, j: int| 0 <= i < g2.len() && 0 <= j < g2[i].1.len() implies #[trigger] g2[i].1[j] <= g2[i].0.len() by {
        if i == k && j < g[k].1.len() {
            assert(g[k].1[j] <= g[k].0.len());
        } else if i != k {
            assert(g[i].1[j] <= g[i].0.len());
        }
    }
}

proof fn lemma_wf_mark(g: GroupsView)
    requires
        groups_wf(g),
    ensures
        groups_wf(mark_last(g)),
        mark_last(g).len() == g.len(),
        last_nonempty(mark_last(g)) == last_nonempty(g),
{
    let g2 = mark_last(g);
    assert forall|i: int, j: int| 0 <= i < g2.len() && 0 <= j < g2[i].1.len() implies #[trigger] g2[i].1[j] <= g2[i].0.len() by {
        assert(g[i].1[j] <= g[i].0.len());
    }
}

fn newline_step(groups: &mut Vec<RecordGroup>)
    requires
        groups_wf(groups_view(old(groups)@)),
    ensures
        groups_view(final(groups)@) == ({
            let gm = mark_last(groups_view(old(groups)@));
            if last_nonempty(gm) {
                gm.push((Seq::<ProsodyRecord>::empty(), Seq::<usize>::empty()))
            } else {
                gm
            }
        }),
        groups_wf(groups_view(final(groups)@)),
{
    proof {
        lemma_wf_mark(groups_view(groups@));
    }
    mark_last_exec(groups);
    let gl = groups.len() - 1;
    if groups[gl].0.len() > 0 {
        let ghost g0 = groups_view(groups@);
        groups.push((Vec::new(), Vec::new()));
        proof {
            let g1 = groups_view(groups@);
            assert(g1 =~= g0.push((Seq::<ProsodyRecord>::empty(), Seq::<usize>::empty())));
            assert forall|i: int, j: int| 0 <= i < g1.len() && 0 <= j < g1[i].1.len() implies #[trigger] g1[i].1[j] <= g1[i].0.len() by {
                assert(g0[i].1[j] <= g0[i].0.len());
            }
        }
    }
}

/// Records of a number's codes (see [`number_record`]).
fn number_records(codes: &Vec<u16>, is_merged: bool) -> (r: Vec<ProsodyRecord>)
    ensures
        r@ == Seq::new(codes@.len(), |i: int| number_record(codes@[i], is_merged && i + 1 == codes@.len())),
{
    let n = codes.len();
    let mut out: Vec<ProsodyRecord> = Vec::new();
    let mut i: usize = 0;
    while i < n
        invariant
            n == codes@.len(),
            i <= n,
            out@ == Seq::new(i as nat, |k: int| number_record(codes@[k], is_merged && k + 1 == codes@.len())),
        decreases n - i,
    {
        let mut rec = ProsodyRecord::new(codes[i]);
        rec.init_from_marker(if is_merged && i + 1 == n { 1 } else { 0 }, false);
        out.push(rec);
        i = i + 1;
        assert(out@ =~= Seq::new(i as nat, |k: int| number_record(codes@[k], is_merged && k + 1 == codes@.len())));
    }
    out
}

/// The next position of a step lies after `pos` and within whole characters.
proof fn lemma_step_advances(d: G2pDicts, m: Seq<Mapping>, b: Seq<u8>, pos: int, g: GroupsView)
    requires
        0 <= pos < b.len(),
        whole_chars_from(b, pos),
    ensures
        pos < sentence_step(d, m, b, pos, g).0 <= b.len(),
        whole_chars_from(b, sentence_step(d, m, b, pos, g).0),
        sentence_step(d, m, b, pos, g).0 == sentence_step(d, m, b, pos, seq![(Seq::<ProsodyRecord>::empty(), Seq::<usize>::empty())]).0,
{
    lemma_whole_step(b, pos);
    lemma_token_fits(b, pos);
    let (class, len) = token_at(b, pos);
    if class == 4 {
        lemma_number_end(d, m, b, pos);
    } else if class > 4 {
        lemma_run_end(b, pos + len, class);
        assert(class_run_end(b, pos, class) == class_run_end(b, pos + len, class));
    }
}

fn step_punct(groups: &mut Vec<RecordGroup>, bytes: &[u8], pos: usize, len: usize)
    requires
        groups_wf(groups_view(old(groups)@)),
        pos < bytes@.len(),
        whole_chars_from(bytes@, pos as int),
        (1 <= token_at(bytes@, pos as int).0 <= 3),
        len == token_at(bytes@, pos as int).1,
    ensures
        groups_view(final(groups)@) == ({
            let g = groups_view(old(groups)@);
            let b = bytes@;
            let b0 = b[pos as int];
            let is_period = b0 == 0x2e || (b0 >= 0xA1 && len == 2 && pos + 1 < b.len() && be16(b0, b[pos + 1]) == KPS_FULL_STOP);
            if is_period && last_nonempty(g) && !(b0 == 0x2e && token_at(b, pos + len).0 == 4) {
                mark_last(g)
            } else {
                g
            }
        }),
        groups_wf(groups_view(final(groups)@)),
{
    proof {
        lemma_whole_step(bytes@, pos as int);
        lemma_wf_mark(groups_view(groups@));
    }
    let n = bytes.len();
    let b0 = bytes[pos];
    let is_period = b0 == 0x2e || (b0 >= 0xA1 && len == 2 && (b0 as u16) * 256 + bytes[pos + 1] as u16 == KPS_FULL_STOP);
    let gl = groups.len() - 1;
    if is_period && groups[gl].0.len() > 0 {
        let is_decimal_point = b0 == 0x2e && next_token_class(&bytes[pos + len..n]).0 == 4;
        if !is_decimal_point {
            mark_last_exec(groups);
        }
    }
}

fn step_number(groups: &mut Vec<RecordGroup>, dicts: &G2pDicts, kps: &Kps9566, bytes: &[u8], pos: usize) -> (next: usize)
    requires
        dicts.wf(),
        sorted_by_kps(kps.mappings()),
        groups_wf(groups_view(old(groups)@)),
        pos < bytes@.len(),
        whole_chars_from(bytes@, pos as int),
        token_at(bytes@, pos as int).0 == 4,
        number_token_ok(*dicts, bytes@, pos as int),
    ensures
        (next as int, groups_view(final(groups)@)) == sentence_step(*dicts, kps.mappings(), bytes@, pos as int, groups_view(old(groups)@)),
        groups_wf(groups_view(final(groups)@)),
{
    let n = bytes.len();
    proof {
        lemma_number_end(*dicts, kps.mappings(), bytes@, pos as int);
    }
    let (codes, frac_end, is_merged) = number_token_codes(dicts, kps, bytes, pos);
    let rs = number_records(&codes, is_merged);
    proof {
        lemma_wf_append(groups_view(groups@), rs@);
    }
    append_exec(groups, &rs);
    let (nc, _nl) = next_token_class(&bytes[frac_end..n]);
    if is_merged || nc != 0x19 {
        let gl = groups.len() - 1;
        let _rl = groups[gl].0.len();
        proof {
            let gl = groups@.len() - 1;
            assert(groups_view(groups@)[gl as int] == (groups@[gl as int].0@, groups@[gl as int].1@));
            lemma_wf_push_end(groups_view(groups@));
        }
        push_end_exec(groups);
    }
    frac_end
}

fn step_word(groups: &mut Vec<RecordGroup>, dicts: &G2pDicts, kps: &Kps9566, bytes: &[u8], pos: usize, class: u8) -> (next: usize)
    requires
        dicts.wf(),
        sorted_by_kps(kps.mappings()),
        groups_wf(groups_view(old(groups)@)),
        pos < bytes@.len(),
        whole_chars_from(bytes@, pos as int),
        class == token_at(bytes@, pos as int).0,
        class > 4,
        word_ok(*dicts, kps.mappings(), bytes@.subrange(pos as int, class_run_end(bytes@, pos as int, class))),
    ensures
        (next as int, groups_view(final(groups)@)) == sentence_step(*dicts, kps.mappings(), bytes@, pos as int, groups_view(old(groups)@)),
        groups_wf(groups_view(final(groups)@)),
{
    let e = run_end(bytes, pos, class);
    proof {
        lemma_run_end(bytes@, pos as int, class);
    }
    let token = sub_vec(bytes, pos, e);
    if token.len() == 0 {
        return e;
    }
    let final_tone = next_word_final_tone(bytes, e);
    let word_records = word_to_records(dicts, kps, &token, final_tone);
    proof {
        lemma_wf_append(groups_view(groups@), word_records@);
    }
    append_exec(groups, &word_records);
    let gl = groups.len() - 1;
    let _rl = groups[gl].0.len();
    proof {
        assert(groups_view(groups@)[gl as int] == (groups@[gl as int].0@, groups@[gl as int].1@));
        lemma_wf_push_end(groups_view(groups@));
    }
    push_end_exec(groups);
    e
}

/// Record groups of a sentence (see [`sentence_records_spec`]).
pub fn sentence_to_records(dicts: &G2pDicts, kps: &Kps9566, sent: &Sentence) -> (r: Vec<Vec<ProsodyRecord>>)
    requires
        dicts.wf(),
        sorted_by_kps(kps.mappings()),
        whole_chars_from(sent.text@, 0),
        sentence_ok_from(*dicts, kps.mappings(), sent.text@, 0),
    ensures
        r@.map_values(|v: Vec<ProsodyRecord>| v@) == sentence_records_spec(*dicts, kps.mappings(), sent.text@),
{
    let ghost m = kps.mappings();
    let bytes = sent.text.as_slice();
    let ghost b = bytes@;
    let n = bytes.len();
    let mut groups: Vec<RecordGroup> = Vec::new();
    groups.push((Vec::new(), Vec::new()));
    let ghost init = groups_view(groups@);
    assert(init =~= seq![(Seq::<ProsodyRecord>::empty(), Seq::<usize>::empty())]);
    let mut pos: usize = 0;
    while pos < n
        invariant
            n == b.len(),
            b == sent.text@,
            bytes@ == b,
            pos <= n,
            dicts.wf(),
            sorted_by_kps(kps.mappings()),
            m == kps.mappings(),
            whole_chars_from(b, pos as int),
            sentence_ok_from(*dicts, m, b, pos as int),
            groups_wf(groups_view(groups@)),
            groups_from(*dicts, m, b, 0, init) == groups_from(*dicts, m, b, pos as int, groups_view(groups@)),
        decreases n - pos,
    {
        let ghost g0 = groups_view(groups@);
        let ghost p0 = pos as int;
        proof {
            lemma_step_advances(*dicts, m, b, p0, g0);
            lemma_whole_step(b, p0);
            lemma_token_fits(b, p0);
        }
        let (class, len) = next_token_class(&bytes[pos..n]);
        if class == 0 {
            let b0 = bytes[pos];
            if b0 == 0x0a || b0 == 0x0d {
                newline_step(&mut groups);
            }
            pos = pos + if b0 < 0x80 {
                1
            } else {
                2
            };
        } else if class <= 3 {
            step_punct(&mut groups, bytes, pos, len);
            pos = pos + len;
        } else if class == 4 {
            pos = step_number(&mut groups, dicts, kps, bytes, pos);
        } else {
            pos = step_word(&mut groups, dicts, kps, bytes, pos, class);
        }
        assert((pos as int, groups_view(groups@)) == sentence_step(*dicts, m, b, p0, g0));
    }
    let ghost gfin = groups_view(groups@);
    assert(groups_from(*dicts, m, b, 0, init) == gfin);
    proof {
        assert forall|g: int| 0 <= g < groups@.len() implies ends_sorted(#[trigger] groups@[g].1@) by {
            assert(gfin[g] == (groups@[g].0@, groups@[g].1@));
            assert(ends_sorted(gfin[g].1));
        }
    }
    let ghost gpre = groups@;
    apply_chunk_tone_breaks(&mut groups);
    proof {
        assert forall|g: int| 0 <= g < groups@.len() implies ends_sorted(#[trigger] groups@[g].1@) by {
            assert(gfin[g] == (gpre[g].0@, gpre[g].1@));
            assert(groups@[g].1 == gpre[g].1);
            assert(ends_sorted(gfin[g].1));
        }
        assert forall|g: int, i: int| 0 <= g < groups@.len() && 0 <= i < groups@[g].1@.len() implies #[trigger] groups@[g].1@[i] <= groups@[g].0@.len() by {
            assert(gfin[g] == (gpre[g].0@, gpre[g].1@));
            assert(groups@[g].1 == gpre[g].1);
            assert(gfin[g].1[i] <= gfin[g].0.len());
        }
    }
    let ghost gc = groups@;
    propagate_flags_back(&mut groups);
    let ghost g2 = groups_view(groups@);
    proof {
        let goal = gfin.map_values(|x: (Seq<ProsodyRecord>, Seq<usize>)| (flags_back_spec(chunk_breaks_spec(x.0, x.1), x.1), x.1));
        assert forall|g: int| 0 <= g < g2.len() implies #[trigger] g2[g] == goal[g] by {
            assert(g2[g] == (groups@[g].0@, groups@[g].1@));
            assert(gfin[g] == (gpre[g].0@, gpre[g].1@));
            assert(groups@[g].1 == gc[g].1 && gc[g].1 == gpre[g].1);
            assert(gc[g].0@ =~= chunk_breaks_spec(gfin[g].0, gfin[g].1));
            assert(groups@[g].0@ =~= flags_back_spec(gc[g].0@, gc[g].1@));
        }
        assert(g2 =~= goal);
    }
    mark_last_exec(&mut groups);
    let ghost g3 = groups_view(groups@);
    let mut out: Vec<Vec<ProsodyRecord>> = Vec::new();
    let mut k: usize = 0;
    while k < groups.len()
        invariant
            k <= groups@.len(),
            g3 == groups_view(groups@),
            out@.map_values(|v: Vec<ProsodyRecord>| v@) + nonempty_records(g3, k as int) == nonempty_records(g3, 0),
        decreases groups@.len() - k,
    {
        let ghost before = out@.map_values(|v: Vec<ProsodyRecord>| v@);
        assert(g3[k as int] == (groups@[k as int].0@, groups@[k as int].1@));
        if groups[k].0.len() > 0 {
            out.push(slice_to_vec(groups[k].0.as_slice()));
            assert(out@.map_values(|v: Vec<ProsodyRecord>| v@) =~= before.push(g3[k as int].0));
        }
        k = k + 1;
        assert(out@.map_values(|v: Vec<ProsodyRecord>| v@) + nonempty_records(g3, k as int) =~= nonempty_records(g3, 0));
    }
    assert(out@.map_values(|v: Vec<ProsodyRecord>| v@) =~= nonempty_records(g3, 0));
    out
}

/// Whether every code converts to a phoneme code.
fn codes_convert(codes: &[u16]) -> (r: bool)
    ensures
        r == forall|i: int| 0 <= i < codes@.len() ==> phoneme_code_ok(#[trigger] codes@[i]),
{
    let mut k: usize = 0;
    while k < codes.len()
        invariant
            k <= codes@.len(),
            forall|i: int| 0 <= i < k ==> phoneme_code_ok(#[trigger] codes@[i]),
        decreases codes@.len() - k,
    {
        let s = codes[k];
        let init = (s / 1024) % 32;
        let med = (s / 32) % 32;
        if !(init == 0 || med == 0 || (init <= 19 && med <= 21)) {
            assert(!phoneme_code_ok(codes@[k as int]));
            return false;
        }
        k = k + 1;
    }
    true
}

/// Syllable codes of a word's readings.
fn word_syllables(dicts: &G2pDicts, word: &[u8]) -> (r: Vec<u16>)
    requires
        dicts.wf(),
    ensures
        r@ == codes_from(*dicts.kps, word_g2p_spec(*dicts, word@), 0),
{
    let readings = word_g2p(dicts, word);
    assert(readings_view(readings@) =~= rviews(readings@));
    let rec = word_record_from_readings(dicts.kps, &readings);
    rec.syllable_codes
}

/// Whether a word can go through the word stages (see [`word_ok`]).
pub fn word_ok_check(dicts: &G2pDicts, kps: &Kps9566, word: &[u8]) -> (r: bool)
    requires
        dicts.wf(),
    ensures
        r == word_ok(*dicts, kps.mappings(), word@),
{
    proof {
        reveal(word_ok);
        reveal(word_syllables_spec);
    }
    let codes = word_syllables(dicts, word);
    codes_convert(codes.as_slice()) && codes.len() <= usize::MAX - CHUNK_SYLLABLES
}

/// Whether the bytes from `a` to `e` are ASCII digits.
fn ascii_digit_run(bytes: &[u8], a: usize, e: usize) -> (r: bool)
    requires
        a <= e <= bytes@.len(),
    ensures
        r == ascii_digits(bytes@.subrange(a as int, e as int)),
{
    let ghost s = bytes@.subrange(a as int, e as int);
    let mut k = a;
    while k < e
        invariant
            a <= k <= e <= bytes@.len(),
            s == bytes@.subrange(a as int, e as int),
            forall|i: int| 0 <= i < k - a ==> 0x30 <= #[trigger] s[i] <= 0x39,
        decreases e - k,
    {
        if !(0x30 <= bytes[k] && bytes[k] <= 0x39) {
            assert(s[k - a] == bytes@[k as int]);
            return false;
        }
        assert(s[k - a] == bytes@[k as int]);
        k = k + 1;
    }
    true
}

/// Whether a whole number's digits fit the table's units (see [`sino_digits_ok`]).
fn sino_digits_check(t: &KpsTables, ds: &[u8]) -> (r: bool)
    ensures
        r == sino_digits_ok(*t, ds@),
{
    let n = ds.len();
    let mut i: usize = 0;
    while i < n
        invariant
            n == ds@.len(),
            i <= n,
            forall|j: int| 0 <= j < i ==> {
                let pos = ds@.len() - 1 - j;
                &&& #[trigger] ds@[j] <= 9
                &&& (ds@[j] != 0 && pos % 4 == 0 && pos / 4 >= 1 ==> 2 + pos / 4 < t.sino_units@.len())
            },
        decreases n - i,
    {
        let pos = n - 1 - i;
        if ds[i] > 9 {
            return false;
        }
        if ds[i] != 0 && pos % 4 == 0 && pos / 4 >= 1 && !(pos / 4 < t.sino_units.len() && 2 + pos / 4 < t.sino_units.len()) {
            return false;
        }
        i = i + 1;
    }
    true
}

/// Whether a number token at `start` can be read (see [`number_token_ok`]).
pub fn number_ok_check(dicts: &G2pDicts, bytes: &[u8], start: usize) -> (r: bool)
    requires
        dicts.wf(),
        start <= bytes@.len(),
    ensures
        r == number_token_ok(*dicts, bytes@, start as int),
{
    proof {
        reveal(number_token_ok);
        reveal(merge_word);
    }
    let ghost b = bytes@;
    let ghost parts = number_parts(b, start as int);
    let n = bytes.len();
    let pos = run_end(bytes, start, 4);
    if !ascii_digit_run(bytes, start, pos) {
        return false;
    }
    if pos < n && bytes[pos] == 0x2e {
        let fe = run_end(bytes, pos + 1, 4);
        if !ascii_digit_run(bytes, pos + 1, fe) {
            return false;
        }
    }
    assert(ascii_digits(parts.2)) by {
        if !(pos < n && bytes@[pos as int] == 0x2e) {
            assert(parts.2 =~= Seq::<u8>::empty());
        }
    }
    let (p2, digits, frac, _fe) = number_parts_exec(bytes, start);
    if frac.len() > 0 {
        return true;
    }
    if !sino_digits_check(dicts.kps, digits.as_slice()) {
        return false;
    }
    let syl = sino_integer_kps_syllables(dicts.kps, &digits);
    let last = syl[syl.len() - 1];
    let lcls = kps_final_class(dicts.kps, last);
    if !(lcls == 0 || lcls == 5 || lcls == 15) {
        return true;
    }
    let (nc, _nl) = next_token_class(&bytes[pos..n]);
    assert(bytes@.subrange(pos as int, n as int) =~= bytes@.subrange(pos as int, bytes@.len() as int));
    if nc != 0x19 {
        return true;
    }
    let wpos = run_end(bytes, pos, 0x19);
    let word = sub_vec(bytes, pos, wpos);
    let wcodes = match kps_bytes_to_codes(dicts.kps, &word) {
        Some(c) => c,
        None => {
            return true;
        },
    };
    if wcodes.len() == 0 {
        return true;
    }
    let first = wcodes[0];
    let init = (first / 1024) % 32;
    let med = (first / 32) % 32;
    if !(init == 0 || med == 0 || (init <= 19 && med <= 21)) {
        return false;
    }
    let fc = to_phoneme_code(dicts.kps, first);
    let (fcls, fmed, finit) = split_phoneme(fc);
    if finit == 18 && fcls == 27 && is_func_medial(fmed) {
        let codes = word_syllables(dicts, word.as_slice());
        codes_convert(codes.as_slice())
    } else {
        true
    }
}

/// Whether a sentence's text is whole characters and every token of it can be read (see
/// [`whole_chars_from`] and [`sentence_ok_from`]): what [`sentence_to_records`] needs of it.
pub fn sentence_ok(dicts: &G2pDicts, kps: &Kps9566, text: &[u8]) -> (r: bool)
    requires
        dicts.wf(),
        sorted_by_kps(kps.mappings()),
    ensures
        r == (whole_chars_from(text@, 0) && sentence_ok_from(*dicts, kps.mappings(), text@, 0)),
{
    if !is_whole_chars(text) {
        return false;
    }
    let ghost m = kps.mappings();
    let ghost b = text@;
    let n = text.len();
    let mut pos: usize = 0;
    while pos < n
        invariant
            n == b.len(),
            b == text@,
            pos <= n,
            dicts.wf(),
            sorted_by_kps(kps.mappings()),
            m == kps.mappings(),
            whole_chars_from(b, pos as int),
            sentence_ok_from(*dicts, m, b, 0) == sentence_ok_from(*dicts, m, b, pos as int),
        decreases n - pos,
    {
        let ghost p0 = pos as int;
        let ghost g0 = seq![(Seq::<ProsodyRecord>::empty(), Seq::<usize>::empty())];
        proof {
            lemma_step_advances(*dicts, m, b, p0, g0);
            lemma_whole_step(b, p0);
            lemma_token_fits(b, p0);
        }
        let (class, len) = next_token_class(&text[pos..n]);
        assert(text@.subrange(pos as int, n as int) =~= b.subrange(p0, b.len() as int));
        let b0 = text[pos];
        let next: usize;
        if class == 0 {
            next = pos + if b0 < 0x80 {
                1
            } else {
                2
            };
        } else if class <= 3 {
            next = pos + len;
        } else if class == 4 {
            if !number_ok_check(dicts, text, pos) {
                return false;
            }
            let (_codes, fe, _merged) = number_token_codes(dicts, kps, text, pos);
            next = fe;
        } else {
            let e = run_end(text, pos, class);
            let word = sub_vec(text, pos, e);
            if !word_ok_check(dicts, kps, word.as_slice()) {
                return false;
            }
            next = e;
        }
        assert(next as int == sentence_step(*dicts, m, b, p0, g0).0);
        pos = next;
    }
    true
}

} // verus!
