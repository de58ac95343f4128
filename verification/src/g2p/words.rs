//! Word readings from the dictionaries: the longest dictionary match at each position,
//! irregular forms found by reversed-key prefix search, and connection checks between
//! morphemes.
use vstd::prelude::*;
use crate::connect::ConnectMatrix;
use crate::dict::{key_from_syllables, key_spec, reverse_key, Dict, SubARecord};
use crate::alphabet::{dispatch_from, letter_reading_dispatch, readings_view};
use crate::text::{bytes_eq, slice_to_vec, sub_vec};
use super::data::{exception_outcome, first_exception_from, lookup_exception, opt_bytes_view, ExceptionOutcome, HardReading, OutcomeView};
use super::codec::{codes_to_kps_bytes, kps_bytes_from, kps_bytes_to_codes, kps_codes_from, KpsTables};
use super::g2p_dict::{
    classify_candidate, classify_spec, context_check_skeleton, key_codes_from, key_str_to_codes,
    merge_finals, merge_finals_spec, morph_code_spec, morph_type_code, split_finals,
    split_finals_spec, Reading, MARKER_FALLBACK, MAX_CANDIDATES, PACKED_DIGITS, PACKED_SYMBOLS,
};

verus! {

/// The loaded dictionaries and tables a word reading needs.
#[derive(Debug, Clone, Copy)]
pub struct G2pDicts<'a> {
    /// Main dictionary.
    pub colligation: &'a Dict,
    /// User dictionary, consulted after the main one.
    pub user: &'a Dict,
    /// Irregular forms, stored under reversed keys.
    pub nonreg: &'a Dict,
    /// Morpheme connection classes.
    pub conjects: &'a Dict,
    /// Connection matrix between morpheme classes.
    pub connect: &'a ConnectMatrix,
    /// KPS 9566 syllable layout.
    pub kps: &'a KpsTables,
}

impl<'a> G2pDicts<'a> {
    /// Every dictionary can be searched, the matrix is square and the layout is consistent.
    pub open spec fn wf(&self) -> bool {
        &&& self.colligation.searchable()
        &&& self.user.searchable()
        &&& self.nonreg.searchable()
        &&& self.conjects.searchable()
        &&& self.connect.wf()
        &&& self.kps.wf()
    }
}

/// A reading as plain values: (bytes, packed code, marker).
pub open spec fn rview(r: Reading) -> (Seq<u8>, Option<u16>, u8) {
    (r.bytes@, r.packed, r.marker)
}

/// Readings as plain values.
pub open spec fn rviews(s: Seq<Reading>) -> Seq<(Seq<u8>, Option<u16>, u8)> {
    s.map_values(|r: Reading| rview(r))
}

/// Reading of a dictionary hit: the candidate with its finals merged back, in KPS 9566, marked
/// with the kind of the first record (1 when there is none).
pub open spec fn hit_reading(t: KpsTables, cand: Seq<u16>, recs: Seq<SubARecord>) -> Option<
    (Seq<u8>, Option<u16>, u8),
> {
    match kps_bytes_from(t, merge_finals_spec(cand), 0) {
        Some(b) => Some((b, None, if recs.len() > 0 {
            recs[0].kind
        } else {
            1u8
        })),
        None => None,
    }
}

pub(crate) fn reading_from_hit(t: &KpsTables, candidate: &[u16], records: &[SubARecord]) -> (r: Option<Reading>)
    requires
        t.wf(),
    ensures
        match r {
            Some(rd) => hit_reading(*t, candidate@, records@) == Some(rview(rd)),
            None => hit_reading(*t, candidate@, records@) is None,
        },
{
    let merged = merge_finals(candidate);
    let bytes = match codes_to_kps_bytes(t, &merged) {
        Some(b) => b,
        None => return None,
    };
    let marker = if records.len() > 0 {
        records[0].kind
    } else {
        0x01
    };
    Some(Reading { bytes, packed: None, marker })
}

/// Packed reading of an all-digit or all-symbol candidate starting at `i`.
pub open spec fn packed_reading(base: u16, i: int) -> (Seq<u8>, Option<u16>, u8) {
    (Seq::empty(), Some((base | ((i as u16) & 0xc000)) as u16), 1u8)
}

/// Reading found at position `i` trying candidate lengths `len` down to 1: a digit or symbol
/// run gives its packed reading; a syllable run found in the main dictionary (else the user
/// dictionary) with records gives its hit reading, or nothing when that has no KPS 9566
/// spelling; other candidates are passed over.
pub open spec fn best_at(d: G2pDicts, s: Seq<u16>, i: int, len: int) -> Option<(int, (Seq<u8>, Option<u16>, u8))>
    decreases len,
{
    if len < 1 {
        None
    } else {
        let cand = s.subrange(i, i + len);
        let c = classify_spec(cand);
        if c == 1 {
            Some((len, packed_reading(PACKED_DIGITS, i)))
        } else if c == 2 {
            Some((len, packed_reading(PACKED_SYMBOLS, i)))
        } else if c == 0x10 {
            match key_spec(cand) {
                None => best_at(d, s, i, len - 1),
                Some(key) => {
                    let coll = d.colligation.records_of(key);
                    let user = d.user.records_of(key);
                    if coll is Some && coll->0.len() > 0 {
                        match hit_reading(*d.kps, cand, coll->0) {
                            Some(r) => Some((len, r)),
                            None => None,
                        }
                    } else if user is Some && user->0.len() > 0 {
                        match hit_reading(*d.kps, cand, user->0) {
                            Some(r) => Some((len, r)),
                            None => None,
                        }
                    } else {
                        best_at(d, s, i, len - 1)
                    }
                },
            }
        } else {
            best_at(d, s, i, len - 1)
        }
    }
}

/// A reading found covers between 1 and `len` codes.
pub proof fn lemma_best_at_len(d: G2pDicts, s: Seq<u16>, i: int, len: int)
    ensures
        best_at(d, s, i, len) matches Some((l, _)) ==> 1 <= l <= len,
    decreases len,
{
    if len >= 1 {
        lemma_best_at_len(d, s, i, len - 1);
    }
}

/// Readings of the codes from `i` on, and whether any came from a dictionary or a packed
/// run: at each position the best reading, else the single code read as itself (when it has
/// a KPS 9566 spelling) with the fallback marker.
pub open spec fn readings_from(d: G2pDicts, s: Seq<u16>, i: int) -> (Seq<(Seq<u8>, Option<u16>, u8)>, bool)
    decreases s.len() - i,
{
    if i < 0 || i >= s.len() {
        (Seq::empty(), false)
    } else {
        proof {
            lemma_best_at_len(d, s, i, s.len() - i);
        }
        match best_at(d, s, i, s.len() - i) {
            Some((l, r)) => {
                let rest = readings_from(d, s, i + l);
                (seq![r] + rest.0, true)
            },
            None => {
                let rest = readings_from(d, s, i + 1);
                match kps_bytes_from(*d.kps, merge_finals_spec(s.subrange(i, i + 1)), 0) {
                    Some(b) => (seq![(b, None::<u16>, MARKER_FALLBACK)] + rest.0, rest.1),
                    None => rest,
                }
            },
        }
    }
}

/// Readings of a word given as codes: the readings of its codes with finals split off, unless
/// none came from a dictionary or a packed run, in which case the word's own bytes with the
/// fallback marker.
pub open spec fn word_readings_spec(d: G2pDicts, codes: Seq<u16>, orig: Seq<u8>) -> Seq<(Seq<u8>, Option<u16>, u8)> {
    let (out, any) = readings_from(d, split_finals_spec(codes), 0);
    if out.len() == 0 || !any {
        seq![(orig, None, MARKER_FALLBACK)]
    } else {
        out
    }
}

fn best_reading_at(d: &G2pDicts, s: &[u16], i: usize) -> (r: Option<(usize, Reading)>)
    requires
        d.wf(),
        i < s@.len(),
    ensures
        match r {
            Some((l, rd)) => best_at(*d, s@, i as int, s@.len() - i) == Some((l as int, rview(rd))),
            None => best_at(*d, s@, i as int, s@.len() - i) is None,
        },
{
    let n = s.len();
    let mut len = n - i;
    while len >= 1
        invariant
            n == s@.len(),
            i < n,
            len <= n - i,
            d.wf(),
            best_at(*d, s@, i as int, n - i) == best_at(*d, s@, i as int, len as int),
        decreases len,
    {
        let cand = sub_vec(s, i, i + len);
        let c = classify_candidate(&cand);
        if c == 1 {
            return Some((len, Reading { bytes: Vec::new(), packed: Some(PACKED_DIGITS | ((i as u16) & 0xc000)), marker: 1 }));
        }
        if c == 2 {
            return Some((len, Reading { bytes: Vec::new(), packed: Some(PACKED_SYMBOLS | ((i as u16) & 0xc000)), marker: 1 }));
        }
        if c == 0x10 {
            if let Some(key) = key_from_syllables(&cand) {
                proof {
                    d.colligation.lemma_searchable(key@);
                    d.user.lemma_searchable(key@);
                }
                if let Some(recs) = d.colligation.lookup_records(&key) {
                    if recs.len() > 0 {
                        return match reading_from_hit(d.kps, &cand, &recs) {
                            Some(rd) => Some((len, rd)),
                            None => None,
                        };
                    }
                }
                if let Some(recs) = d.user.lookup_records(&key) {
                    if recs.len() > 0 {
                        return match reading_from_hit(d.kps, &cand, &recs) {
                            Some(rd) => Some((len, rd)),
                            None => None,
                        };
                    }
                }
            }
        }
        len = len - 1;
    }
    None
}

/// Readings of a word given as dictionary codes (see [`word_readings_spec`]); `orig_bytes` is
/// the word's spelling, returned with the fallback marker when no dictionary entry or packed
/// run covers any part of it.
pub fn word_to_readings_codes(dicts: &G2pDicts, codes: &[u16], orig_bytes: &[u8]) -> (r: Vec<Reading>)
    requires
        dicts.wf(),
    ensures
        rviews(r@) == word_readings_spec(*dicts, codes@, orig_bytes@),
{
    let split = split_finals(codes);
    let ghost s = split@;
    let n = split.len();
    let mut out: Vec<Reading> = Vec::new();
    let mut i: usize = 0;
    let mut any_hit = false;
    while i < n
        invariant
            n == split@.len(),
            s == split@,
            i <= n,
            dicts.wf(),
            readings_from(*dicts, s, 0).0 == rviews(out@) + readings_from(*dicts, s, i as int).0,
            readings_from(*dicts, s, 0).1 == (any_hit || readings_from(*dicts, s, i as int).1),
        decreases n - i,
    {
        let ghost before = out@;
        let ghost gi = i as int;
        proof {
            lemma_best_at_len(*dicts, s, gi, n - gi);
        }
        match best_reading_at(dicts, &split, i) {
            Some((len, rd)) => {
                out.push(rd);
                i = i + len;
                any_hit = true;
            },
            None => {
                let one = sub_vec(&split, i, i + 1);
                let merged = merge_finals(&one);
                if let Some(b) = codes_to_kps_bytes(dicts.kps, &merged) {
                    out.push(Reading { bytes: b, packed: None, marker: MARKER_FALLBACK });
                }
                i = i + 1;
            },
        }
        assert(rviews(out@) == rviews(before) + rviews(out@).subrange(before.len() as int, out@.len() as int));
        assert(rviews(before).len() == before.len());
        assert(rviews(out@) =~= rviews(before) + rviews(out@).subrange(before.len() as int, out@.len() as int));
    }
    assert(rviews(out@) + Seq::<(Seq<u8>, Option<u16>, u8)>::empty() =~= rviews(out@));
    if out.len() == 0 || !any_hit {
        let v = vec![Reading::fallback(orig_bytes)];
        assert(rviews(v@) =~= seq![(orig_bytes@, None::<u16>, MARKER_FALLBACK)]);
        v
    } else {
        out
    }
}

/// Readings of a word in KPS 9566 bytes: those of its codes, or the word itself with the
/// fallback marker when its bytes do not convert.
pub open spec fn word_to_readings_spec(d: G2pDicts, word: Seq<u8>) -> Seq<(Seq<u8>, Option<u16>, u8)> {
    match kps_codes_from(*d.kps, word, 0) {
        Some(codes) => word_readings_spec(d, codes, word),
        None => seq![(word, None, MARKER_FALLBACK)],
    }
}

/// Readings of a word in KPS 9566 bytes (see [`word_to_readings_spec`]).
pub fn word_to_readings(dicts: &G2pDicts, word: &[u8]) -> (r: Vec<Reading>)
    requires
        dicts.wf(),
    ensures
        rviews(r@) == word_to_readings_spec(*dicts, word@),
{
    match kps_bytes_to_codes(dicts.kps, word) {
        Some(codes) => word_to_readings_codes(dicts, &codes, word),
        None => {
            let v = vec![Reading::fallback(word)];
            assert(rviews(v@) =~= seq![(word@, None::<u16>, MARKER_FALLBACK)]);
            v
        },
    }
}

/// An irregular form found in the reversed-key dictionary.
#[derive(Debug, Clone)]
pub struct NonRegHit {
    /// The entry's key read back as KPS 9566 bytes.
    pub reading: Vec<u8>,
    /// Kind of the first record.
    pub marker: u8,
    /// The entry's records.
    pub records: Vec<SubARecord>,
    /// Key bytes the entry matched.
    pub matched: usize,
}

/// Irregular-form hit of a word as plain values (reading, marker, records, matched): the
/// word's key reversed is prefix-searched; a match of at least one byte with records gives the
/// matched part turned back into a key, its codes and their KPS 9566 bytes.
pub open spec fn nonreg_spec(d: G2pDicts, word: Seq<u8>) -> Option<(Seq<u8>, u8, Seq<SubARecord>, int)> {
    match kps_codes_from(*d.kps, word, 0) {
        None => None,
        Some(codes) => match key_spec(codes) {
            None => None,
            Some(key) => {
                let rev = key.reverse();
                match d.nonreg.prefix_records_of(rev) {
                    None => None,
                    Some((m, recs)) => if m == 0 || recs.len() == 0 {
                        None
                    } else {
                        match key_codes_from(rev.take(m).reverse(), 0) {
                            None => None,
                            Some(ec) => match kps_bytes_from(*d.kps, ec, 0) {
                                None => None,
                                Some(reading) => Some((reading, recs[0].kind, recs, m)),
                            },
                        }
                    },
                }
            },
        },
    }
}

/// Look a word up among the irregular forms (see [`nonreg_spec`]).
pub fn nonreg_lookup(dicts: &G2pDicts, word: &[u8]) -> (r: Option<NonRegHit>)
    requires
        dicts.wf(),
    ensures
        match r {
            Some(h) => nonreg_spec(*dicts, word@) == Some((h.reading@, h.marker, h.records@, h.matched as int)),
            None => nonreg_spec(*dicts, word@) is None,
        },
{
    let codes = match kps_bytes_to_codes(dicts.kps, word) {
        Some(c) => c,
        None => return None,
    };
    let key = match key_from_syllables(&codes) {
        Some(k) => k,
        None => return None,
    };
    let rev = reverse_key(&key);
    proof {
        dicts.nonreg.lemma_searchable(rev@);
    }
    let (pm, records) = match dicts.nonreg.lookup_prefix_records(&rev) {
        Some(x) => x,
        None => return None,
    };
    let m = pm.matched;
    if m == 0 || records.len() == 0 {
        return None;
    }
    let prefix = sub_vec(&rev, 0, m);
    let entry_key = reverse_key(&prefix);
    assert(prefix@ =~= rev@.take(m as int));
    let entry_codes = match key_str_to_codes(&entry_key) {
        Some(c) => c,
        None => return None,
    };
    let reading = match codes_to_kps_bytes(dicts.kps, &entry_codes) {
        Some(b) => b,
        None => return None,
    };
    let marker = records[0].kind;
    Some(NonRegHit { reading, marker, records, matched: m })
}

/// Whether two adjacent morphemes may connect: each, with the connection code of its type
/// appended, has an entry in the connection dictionary, and the matrix cell of the two
/// entries' classes is non-zero.
pub open spec fn conjects_spec(d: G2pDicts, left: Seq<u16>, left_type: u8, right: Seq<u16>, right_type: u8) -> bool {
    match (morph_code_spec(left_type), morph_code_spec(right_type)) {
        (Some(lc), Some(rc)) => match (key_spec(left.push(lc)), key_spec(right.push(rc))) {
            (Some(lk), Some(rk)) => match (d.conjects.entry_of(lk), d.conjects.entry_of(rk)) {
                (Some(le), Some(re)) => le.x < d.connect.n && re.x < d.connect.n
                    && d.connect.matrix@[le.x * d.connect.n + re.x] != 0,
                _ => false,
            },
            _ => false,
        },
        _ => false,
    }
}

/// Whether two adjacent morphemes of the given types may connect (see [`conjects_spec`]).
pub fn conjects_verify(dicts: &G2pDicts, left: &[u16], left_type: u8, right: &[u16], right_type: u8) -> (r: bool)
    requires
        dicts.wf(),
    ensures
        r == conjects_spec(*dicts, left@, left_type, right@, right_type),
{
    let lc = match morph_type_code(left_type) {
        Some(c) => c,
        None => return false,
    };
    let rc = match morph_type_code(right_type) {
        Some(c) => c,
        None => return false,
    };
    let mut lk = sub_vec(left, 0, left.len());
    lk.push(lc);
    let mut rk = sub_vec(right, 0, right.len());
    rk.push(rc);
    assert(lk@ =~= left@.push(lc));
    assert(rk@ =~= right@.push(rc));
    let lkey = match key_from_syllables(&lk) {
        Some(k) => k,
        None => return false,
    };
    let rkey = match key_from_syllables(&rk) {
        Some(k) => k,
        None => return false,
    };
    proof {
        dicts.conjects.lemma_searchable(lkey@);
        dicts.conjects.lemma_searchable(rkey@);
    }
    let le = match dicts.conjects.lookup(&lkey) {
        Some(e) => e,
        None => return false,
    };
    let re = match dicts.conjects.lookup(&rkey) {
        Some(e) => e,
        None => return false,
    };
    let xl = le.x as usize;
    let xr = re.x as usize;
    let row = match dicts.connect.row(xl) {
        Some(row) => row,
        None => return false,
    };
    let v = if xr < row.len() {
        row[xr]
    } else {
        0
    };
    proof {
        let nn = dicts.connect.n as int;
        let xi = xl as int;
        assert((xi + 1) * nn - xi * nn == nn) by (nonlinear_arith);
        assert(0 <= xi * nn <= (xi + 1) * nn <= nn * nn) by (nonlinear_arith)
            requires
                0 <= xi < nn,
        ;
        assert(dicts.connect.matrix@.len() == nn * nn);
        assert(row@.len() == nn);
        if xr < nn {
            assert(row@[xr as int] == dicts.connect.matrix@[xl * nn + xr]);
        }
    }
    v != 0
}

/// Readings from morphology: the input is taken as a single word, so no neighbouring segment
/// is checked; `None` when that word gives no reading.
pub open spec fn morphology_spec(d: G2pDicts, codes: Seq<u16>, orig: Seq<u8>) -> Option<Seq<(Seq<u8>, Option<u16>, u8)>> {
    let rs = word_readings_spec(d, codes, orig);
    if rs.len() == 0 {
        None
    } else {
        Some(rs)
    }
}

/// Readings from morphology (see [`morphology_spec`]).
pub fn morphology_skeleton(dicts: &G2pDicts, codes: &[u16], orig_bytes: &[u8]) -> (r: Option<Vec<Reading>>)
    requires
        dicts.wf(),
    ensures
        match r {
            Some(v) => morphology_spec(*dicts, codes@, orig_bytes@) == Some(rviews(v@)),
            None => morphology_spec(*dicts, codes@, orig_bytes@) is None,
        },
        r matches Some(v) ==> v@.len() > 0,
{
    let readings = word_to_readings_codes(dicts, codes, orig_bytes);
    if readings.len() == 0 {
        None
    } else {
        Some(readings)
    }
}

/// Whether readings are just `part` read as itself with the fallback marker.
pub open spec fn is_pure_fallback(rs: Seq<(Seq<u8>, Option<u16>, u8)>, part: Seq<u8>) -> bool {
    rs.len() == 1 && rs[0].2 == MARKER_FALLBACK && rs[0].0 == part
}

/// Readings of an exception word whose rule names another form to read: an identity rule
/// reads the form as itself; otherwise the form's morphology readings (else its irregular
/// form, else its direct readings unless they are just the form itself), and the word itself
/// when the form's bytes do not convert.
pub open spec fn exception_form_readings(d: G2pDicts, word: Seq<u8>, form: Seq<u8>) -> Seq<(Seq<u8>, Option<u16>, u8)> {
    if form == word {
        seq![(form, None::<u16>, MARKER_FALLBACK)]
    } else {
        match kps_codes_from(*d.kps, form, 0) {
            None => seq![(word, None::<u16>, MARKER_FALLBACK)],
            Some(codes) => match morphology_spec(d, codes, form) {
                Some(rs) => rs,
                None => match nonreg_spec(d, form) {
                    Some(h) => seq![(h.0, None::<u16>, h.1)],
                    None => {
                        let direct = word_readings_spec(d, codes, form);
                        if !is_pure_fallback(direct, form) {
                            direct
                        } else {
                            seq![(form, None::<u16>, MARKER_FALLBACK)]
                        }
                    },
                },
            },
        }
    }
}

/// Readings of one fragment of a hard-coded exception reading, carrying the rule's marker:
/// nothing for an empty fragment; the fragment itself when its bytes do not convert or it only
/// reads as itself; otherwise its readings with the first one's marker replaced.
pub open spec fn hard_part_readings(d: G2pDicts, part: Seq<u8>, marker: u8) -> Seq<(Seq<u8>, Option<u16>, u8)> {
    if part.len() == 0 {
        Seq::empty()
    } else {
        match kps_codes_from(*d.kps, part, 0) {
            None => seq![(part, None::<u16>, marker)],
            Some(codes) => {
                let r = word_readings_spec(d, codes, part);
                if is_pure_fallback(r, part) {
                    seq![(part, None::<u16>, marker)]
                } else if r.len() > 0 {
                    r.update(0, (r[0].0, r[0].1, marker))
                } else {
                    r
                }
            },
        }
    }
}

/// Readings of an exception word with a hard-coded reading: those of its main part, suffix
/// and second suffix in turn, or the word itself when all are empty.
pub open spec fn hard_readings(d: G2pDicts, word: Seq<u8>, main: Seq<u8>, sub: Seq<u8>, sub2: Option<Seq<u8>>, marker: u8) -> Seq<(Seq<u8>, Option<u16>, u8)> {
    let out = hard_part_readings(d, main, marker) + hard_part_readings(d, sub, marker) + match sub2 {
        Some(p) => hard_part_readings(d, p, marker),
        None => Seq::empty(),
    };
    if out.len() == 0 {
        seq![(word, None::<u16>, MARKER_FALLBACK)]
    } else {
        out
    }
}

/// Readings of a word in KPS 9566 bytes: an exception word by its rule; otherwise its bytes
/// as codes through morphology, then the irregular forms, then (for a word of one or two bytes)
/// its letter readings when they differ from the word, and the word itself with the fallback
/// marker when nothing applies.
#[verifier::opaque]
pub open spec fn word_g2p_spec(d: G2pDicts, word: Seq<u8>) -> Seq<(Seq<u8>, Option<u16>, u8)> {
    let fb = seq![(word, None::<u16>, MARKER_FALLBACK)];
    match (if word.len() > 0 { first_exception_from(word, 0) } else { None }) {
        Some(i) => match exception_outcome(i as u8) {
            OutcomeView::Lookup(form) => exception_form_readings(d, word, form),
            OutcomeView::Hard(main, sub, sub2, marker, _, _, _) => hard_readings(d, word, main, sub, sub2, marker),
        },
        None => match kps_codes_from(*d.kps, word, 0) {
            None => fb,
            Some(codes) => match morphology_spec(d, codes, word) {
                Some(rs) => rs,
                None => match nonreg_spec(d, word) {
                    Some(h) => seq![(h.0, None::<u16>, h.1)],
                    None => {
                        let letters = dispatch_from(word, 0);
                        if (word.len() == 1 || word.len() == 2) && letters.len() > 0 && exists|k: int|
                            0 <= k < letters.len() && (#[trigger] letters[k]).0 != word {
                            letters
                        } else {
                            fb
                        }
                    },
                },
            },
        },
    }
}

/// Whether readings are just `part` read as itself (see [`is_pure_fallback`]).
fn pure_fallback(rs: &Vec<Reading>, part: &[u8]) -> (r: bool)
    ensures
        r == is_pure_fallback(rviews(rs@), part@),
{
    rs.len() == 1 && rs[0].marker == MARKER_FALLBACK && bytes_eq(rs[0].bytes.as_slice(), part)
}

/// Readings of an exception word read through another form (see [`exception_form_readings`]).
fn read_exception_form(dicts: &G2pDicts, word: &[u8], form: &[u8]) -> (r: Vec<Reading>)
    requires
        dicts.wf(),
    ensures
        rviews(r@) == exception_form_readings(*dicts, word@, form@),
        r@.len() > 0,
{
    if bytes_eq(form, word) {
        let v = vec![Reading { bytes: slice_to_vec(form), packed: None, marker: MARKER_FALLBACK }];
        assert(rviews(v@) =~= seq![(form@, None::<u16>, MARKER_FALLBACK)]);
        return v;
    }
    let codes = match kps_bytes_to_codes(dicts.kps, form) {
        Some(c) => c,
        None => {
            let v = vec![Reading::fallback(word)];
            assert(rviews(v@) =~= seq![(word@, None::<u16>, MARKER_FALLBACK)]);
            return v;
        },
    };
    if context_check_skeleton(&codes) {
        if let Some(r) = morphology_skeleton(dicts, &codes, form) {
            return r;
        }
    }
    if let Some(hit) = nonreg_lookup(dicts, form) {
        let v = vec![Reading { bytes: hit.reading, packed: None, marker: hit.marker }];
        assert(rviews(v@) =~= seq![(hit.reading@, None::<u16>, hit.marker)]);
        return v;
    }
    let direct = word_to_readings_codes(dicts, &codes, form);
    if !pure_fallback(&direct, form) {
        return direct;
    }
    let v = vec![Reading { bytes: slice_to_vec(form), packed: None, marker: MARKER_FALLBACK }];
    assert(rviews(v@) =~= seq![(form@, None::<u16>, MARKER_FALLBACK)]);
    v
}

/// Append the readings of one hard-coded fragment (see [`hard_part_readings`]).
fn push_hard_part(dicts: &G2pDicts, out: &mut Vec<Reading>, part: &[u8], marker: u8)
    requires
        dicts.wf(),
    ensures
        rviews(final(out)@) == rviews(old(out)@) + hard_part_readings(*dicts, part@, marker),
{
    let ghost before = rviews(out@);
    if part.len() == 0 {
        assert(rviews(out@) =~= before + Seq::<(Seq<u8>, Option<u16>, u8)>::empty());
        return;
    }
    let mut piece: Vec<Reading> = match kps_bytes_to_codes(dicts.kps, part) {
        None => vec![Reading { bytes: slice_to_vec(part), packed: None, marker }],
        Some(codes) => {
            let mut r = word_to_readings_codes(dicts, &codes, part);
            if pure_fallback(&r, part) {
                vec![Reading { bytes: slice_to_vec(part), packed: None, marker }]
            } else {
                if r.len() > 0 {
                    let ghost r0 = rviews(r@);
                    let first = r[0].with_marker(marker);
                    r.set(0, first);
                    assert(rviews(r@) =~= r0.update(0, (r0[0].0, r0[0].1, marker)));
                }
                r
            }
        },
    };
    assert(rviews(piece@) == hard_part_readings(*dicts, part@, marker)) by {
        if kps_codes_from(*dicts.kps, part@, 0) is None {
            assert(rviews(piece@) =~= seq![(part@, None::<u16>, marker)]);
        }
    }
    let ghost pv = rviews(piece@);
    out.append(&mut piece);
    assert(rviews(out@) =~= before + pv);
}

/// Readings of an exception word with a hard-coded reading (see [`hard_readings`]).
fn read_hard(dicts: &G2pDicts, word: &[u8], h: &HardReading) -> (r: Vec<Reading>)
    requires
        dicts.wf(),
    ensures
        rviews(r@) == hard_readings(*dicts, word@, h.main@, h.sub@, opt_bytes_view(h.sub2), h.marker),
        r@.len() > 0,
{
    let mut out: Vec<Reading> = Vec::new();
    assert(rviews(out@) =~= Seq::<(Seq<u8>, Option<u16>, u8)>::empty());
    push_hard_part(dicts, &mut out, h.main.as_slice(), h.marker);
    push_hard_part(dicts, &mut out, h.sub.as_slice(), h.marker);
    match &h.sub2 {
        Some(p) => push_hard_part(dicts, &mut out, p.as_slice(), h.marker),
        None => {},
    }
    assert(rviews(out@) =~= hard_part_readings(*dicts, h.main@, h.marker) + hard_part_readings(*dicts, h.sub@, h.marker) + match opt_bytes_view(h.sub2) {
        Some(p) => hard_part_readings(*dicts, p, h.marker),
        None => Seq::empty(),
    });
    if out.len() == 0 {
        let v = vec![Reading::fallback(word)];
        assert(rviews(v@) =~= seq![(word@, None::<u16>, MARKER_FALLBACK)]);
        return v;
    }
    out
}

/// Readings of a word in KPS 9566 bytes (see [`word_g2p_spec`]). There is always at least
/// one reading; a word that no exception rule names and that does not convert to syllable
/// codes, or whose exception rule names the word itself, reads as itself.
pub fn word_g2p(dicts: &G2pDicts, word: &[u8]) -> (r: Vec<Reading>)
    requires
        dicts.wf(),
    ensures
        rviews(r@) == word_g2p_spec(*dicts, word@),
        r@.len() > 0,
        (word@.len() == 0 || first_exception_from(word@, 0) is None) && kps_codes_from(
            *dicts.kps,
            word@,
            0,
        ) is None ==> rviews(r@) == seq![(word@, None::<u16>, MARKER_FALLBACK)],
        word@.len() > 0 ==> (first_exception_from(word@, 0) matches Some(i) && exception_outcome(
            i as u8,
        ) == OutcomeView::Lookup(word@) ==> rviews(r@) == seq![(word@, None::<u16>, MARKER_FALLBACK)]),
{
    let ghost fb = seq![(word@, None::<u16>, MARKER_FALLBACK)];
    proof {
        reveal(word_g2p_spec);
    }
    if let Some(rule) = lookup_exception(word) {
        return match rule.out {
            ExceptionOutcome::Lookup(form) => read_exception_form(dicts, word, form.as_slice()),
            ExceptionOutcome::Hard(h) => read_hard(dicts, word, &h),
        };
    }
    let codes = match kps_bytes_to_codes(dicts.kps, word) {
        Some(c) => c,
        None => {
            let v = vec![Reading::fallback(word)];
            assert(rviews(v@) =~= fb);
            return v;
        },
    };
    if !context_check_skeleton(&codes) {
        let v = vec![Reading::fallback(word)];
        assert(rviews(v@) =~= fb);
        return v;
    }
    if let Some(readings) = morphology_skeleton(dicts, &codes, word) {
        return readings;
    }
    if let Some(hit) = nonreg_lookup(dicts, word) {
        let v = vec![Reading { bytes: hit.reading, packed: None, marker: hit.marker }];
        assert(rviews(v@) =~= seq![(hit.reading@, None::<u16>, hit.marker)]);
        return v;
    }
    if word.len() == 1 || word.len() == 2 {
        let letters = letter_reading_dispatch(word);
        assert(rviews(letters@) =~= readings_view(letters@));
        let mut differs = false;
        let mut k: usize = 0;
        while k < letters.len()
            invariant
                k <= letters@.len(),
                differs == exists|q: int| 0 <= q < k && (#[trigger] letters@[q]).bytes@ != word@,
            decreases letters@.len() - k,
        {
            if !bytes_eq(letters[k].bytes.as_slice(), word) {
                differs = true;
            }
            k = k + 1;
        }
        proof {
            let lv = rviews(letters@);
            if differs {
                let q = choose|q: int| 0 <= q < letters@.len() && (#[trigger] letters@[q]).bytes@ != word@;
                assert(lv[q].0 != word@);
            } else {
                assert forall|q: int| 0 <= q < lv.len() implies (#[trigger] lv[q]).0 == word@ by {
                    assert(letters@[q].bytes@ == word@);
                }
            }
        }
        if letters.len() > 0 && differs {
            return letters;
        }
    }
    let v = vec![Reading::fallback(word)];
    assert(rviews(v@) =~= fb);
    v
}

/// Candidates starting at `start` of lengths `len` and up.
pub open spec fn cands_of_start(s: Seq<u16>, start: int, len: int) -> Seq<Seq<u16>>
    decreases s.len() + 1 - start - len,
{
    if len < 1 || start < 0 || start + len > s.len() {
        Seq::empty()
    } else {
        seq![s.subrange(start, start + len)] + cands_of_start(s, start, len + 1)
    }
}

/// Every substring starting at `start` or later, by start, then by length.
pub open spec fn all_cands(s: Seq<u16>, start: int) -> Seq<Seq<u16>>
    decreases s.len() - start,
{
    if start < 0 || start >= s.len() {
        Seq::empty()
    } else {
        cands_of_start(s, start, 1) + all_cands(s, start + 1)
    }
}

/// Every substring of the codes, by start, then by length, keeping the first
/// [`MAX_CANDIDATES`].
pub fn candidate_substrings(codes: &[u16]) -> (r: Vec<Vec<u16>>)
    ensures
        r@.map_values(|v: Vec<u16>| v@) == all_cands(codes@, 0).take(
            if all_cands(codes@, 0).len() < MAX_CANDIDATES { all_cands(codes@, 0).len() as int } else { MAX_CANDIDATES as int },
        ),
{
    let ghost all = all_cands(codes@, 0);
    let n = codes.len();
    let mut out: Vec<Vec<u16>> = Vec::new();
    let mut start: usize = 0;
    let mut len: usize = 1;
    while start < n && out.len() < MAX_CANDIDATES
        invariant
            n == codes@.len(),
            start <= n,
            1 <= len,
            start < n ==> len <= n - start,
            out@.len() <= MAX_CANDIDATES,
            all == all_cands(codes@, 0),
            all == out@.map_values(|v: Vec<u16>| v@) + cands_of_start(codes@, start as int, len as int)
                + all_cands(codes@, start as int + 1),
        decreases n - start, n - start - len,
    {
        let ghost before = out@.map_values(|v: Vec<u16>| v@);
        let ghost gs = start as int;
        let ghost gl = len as int;
        let c = sub_vec(codes, start, start + len);
        out.push(c);
        assert(out@.map_values(|v: Vec<u16>| v@) =~= before.push(c@));
        if len == n - start {
            start = start + 1;
            len = 1;
            assert(cands_of_start(codes@, gs, gl + 1) =~= Seq::<Seq<u16>>::empty());
            assert(all =~= out@.map_values(|v: Vec<u16>| v@) + cands_of_start(codes@, start as int, len as int)
                + all_cands(codes@, start as int + 1));
        } else {
            len = len + 1;
            assert(all =~= out@.map_values(|v: Vec<u16>| v@) + cands_of_start(codes@, start as int, len as int)
                + all_cands(codes@, start as int + 1));
        }
    }
    proof {
        let ov = out@.map_values(|v: Vec<u16>| v@);
        if out@.len() < MAX_CANDIDATES {
            assert(start == n);
            assert(cands_of_start(codes@, start as int, len as int) =~= Seq::<Seq<u16>>::empty());
            assert(all =~= ov);
        } else {
            assert(all.take(MAX_CANDIDATES as int) =~= ov);
        }
    }
    out
}

} // verus!
