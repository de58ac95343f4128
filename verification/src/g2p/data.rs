//! Fixed reading tables: exception words, unit names and counted-noun words, with their lookups.
use vstd::prelude::*;
use crate::text::{bytes_eq, find_bytes, find_bytes_spec};

verus! {

/// Hard-coded reading of an exception word: main part, suffix part(s) and analyzer fields.
#[derive(Debug, Clone, PartialEq, Eq)]
pub struct HardReading {
    /// Main reading (KPS 9566 bytes).
    pub main: Vec<u8>,
    /// Suffix reading.
    pub sub: Vec<u8>,
    /// Second suffix (three-morpheme words only).
    pub sub2: Option<Vec<u8>>,
    /// Morphology marker.
    pub marker: u8,
    /// Number of morphemes.
    pub morphemes: u8,
    /// First analyzer field.
    pub f1389: u8,
    /// Second analyzer field.
    pub f1400: u8,
}

/// How an exception word is read.
#[derive(Debug, Clone, PartialEq, Eq)]
pub enum ExceptionOutcome {
    /// Look up this normalized form instead.
    Lookup(Vec<u8>),
    /// Emit these fragments directly.
    Hard(HardReading),
}

/// One exception word and its reading rule.
#[derive(Debug, Clone, PartialEq, Eq)]
pub struct ExceptionRule {
    /// The word (KPS 9566 bytes).
    pub input: Vec<u8>,
    /// Its reading rule.
    pub out: ExceptionOutcome,
}

/// Number of exception words.
pub const EXCEPTION_COUNT: usize = 60;

/// A reading rule as plain values.
pub enum OutcomeView {
    Lookup(Seq<u8>),
    Hard(Seq<u8>, Seq<u8>, Option<Seq<u8>>, u8, u8, u8, u8),
}

/// The plain values of an optional byte vector.
pub open spec fn opt_bytes_view(o: Option<Vec<u8>>) -> Option<Seq<u8>> {
    match o {
        Some(v) => Some(v@),
        None => None,
    }
}

/// The plain values of a reading rule.
pub open spec fn outcome_view(o: ExceptionOutcome) -> OutcomeView {
    match o {
        ExceptionOutcome::Lookup(v) => OutcomeView::Lookup(v@),
        ExceptionOutcome::Hard(h) => OutcomeView::Hard(
            h.main@,
            h.sub@,
            opt_bytes_view(h.sub2),
            h.marker,
            h.morphemes,
            h.f1389,
            h.f1400,
        ),
    }
}

/// The plain values of an exception rule.
pub open spec fn rule_view(r: ExceptionRule) -> (Seq<u8>, OutcomeView) {
    (r.input@, outcome_view(r.out))
}

/// Word of exception rule `i` (in table order).
pub open spec fn exception_input(i: u8) -> Seq<u8> {
    match i {
        0 => seq![0xb1u8, 0xfdu8, 0xb0u8, 0xa1u8], // 나가 → 나가아
        1 => seq![0xb4u8, 0xddu8, 0xb0u8, 0xd6u8], // 대고 → 대이고
        2 => seq![0xc3u8, 0xcdu8, 0xbau8, 0xb7u8], // 해서 → 하여서
        3 => seq![0xcbu8, 0xceu8, 0xb8u8, 0xc9u8, 0xc3u8, 0xf9u8, 0xc3u8, 0xcdu8, 0xbau8, 0xb7u8], // 일반화해서 → 일반화하여서
        4 => seq![0xbdu8, 0xdbu8, 0xbcu8, 0xbfu8, 0xc3u8, 0xcdu8], // 창조해 → 창조하여
        5 => seq![0xbcu8, 0xadu8, 0xc3u8, 0xcdu8], // 전해 → 전하여 (전해질 より先)
        6 => seq![0xbcu8, 0xadu8, 0xc3u8, 0xcdu8, 0xbcu8, 0xecu8], // 전해질 → 전하여질
        7 => seq![0xb6u8, 0xedu8, 0xb1u8, 0xfdu8], // 만나 → 만나아
        8 => seq![0xb9u8, 0xbeu8, 0xc3u8, 0xcdu8], // 비해 → 비하여
        9 => seq![0xb9u8, 0xbeu8, 0xc2u8, 0xd7u8, 0xcau8, 0xdeu8], // 비하여 (恒等)
        10 => seq![0xb4u8, 0xddu8, 0xc3u8, 0xcdu8, 0xbau8, 0xb7u8, 0xb4u8, 0xc7u8, 0xbcu8, 0xe8u8], // 대해서든지 → 대하여서든지
        11 => seq![0xb4u8, 0xddu8, 0xc3u8, 0xcdu8], // 대해 → 대하여
        12 => seq![0xb4u8, 0xddu8, 0xc3u8, 0xcdu8, 0xbau8, 0xb7u8], // 대해서 → 대하여서
        13 => seq![0xb8u8, 0xf5u8, 0xbcu8, 0xacu8, 0xcbu8, 0xcbu8], // 본적이 → 보는적이
        14 => seq![0xb1u8, 0xfdu8, 0xccu8, 0xaeu8], // 나와 → 나오아
        15 => seq![0xb4u8, 0xaeu8, 0xb5u8, 0xd8u8, 0xcau8, 0xbfu8], // 돌려야 → 돌리여야
        16 => seq![0xc0u8, 0xb2u8], // 탄 → 타는
        17 => seq![0xcau8, 0xf1u8], // 온 → 오는
        18 => seq![0xc3u8, 0xcdu8, 0xcau8, 0xbfu8], // 해야 → 하여야
        19 => seq![0xc3u8, 0xcdu8, 0xb4u8, 0xaau8], // 해도 → 하여도
        20 => seq![0xb4u8, 0xddu8, 0xc3u8, 0xcdu8, 0xcau8, 0xbfu8], // 대해야 → 대하여야
        21 => seq![0xccu8, 0xaeu8, 0xbau8, 0xb7u8], // 와서 → 오아서
        22 => seq![0xccu8, 0xaeu8, 0xb4u8, 0xaau8], // 와도 → 오아도
        23 => seq![0xc2u8, 0xd7u8, 0xcau8, 0xdeu8, 0xcau8, 0xbfu8], // 하여야 (恒等)
        24 => seq![0xb4u8, 0xddu8, 0xc2u8, 0xd7u8, 0xcau8, 0xdeu8, 0xcau8, 0xbfu8], // 대하여야 (恒等)
        25 => seq![0xb4u8, 0xddu8, 0xc2u8, 0xd7u8, 0xcau8, 0xdeu8, 0xbau8, 0xb7u8], // 대하여서 (恒等)
        26 => seq![0xcau8, 0xefu8, 0xcau8, 0xadu8, 0xb4u8, 0xaau8], // 오아도 (恒等)
        27 => seq![0xbbu8, 0xf4u8, 0xb4u8, 0xaau8], // 자도 → 자+도
        28 => seq![0xb0u8, 0xa1u8, 0xbcu8, 0xeau8], // 가진 → 가지+는
        29 => seq![0xb0u8, 0xa1u8, 0xbcu8, 0xe8u8, 0xb2u8, 0xf7u8], // 가지는 → 가지+는
        30 => seq![0xb3u8, 0xadu8, 0xb6u8, 0xb0u8], // 내린 → 내리+ㄴ
        31 => seq![0xb0u8, 0xa1u8, 0xb7u8, 0xb2u8], // 가면 → 가+면
        32 => seq![0xbcu8, 0xc2u8, 0xb5u8, 0xb9u8], // 졸라 → 졸+라
        33 => seq![0xb0u8, 0xa1u8, 0xb7u8, 0xb2u8, 0xbau8, 0xb7u8], // 가면서 → 가+면서
        34 => seq![0xb0u8, 0xa1u8, 0xb4u8, 0xaau8], // 가도 → 가+도
        35 => seq![0xcbu8, 0xcbu8, 0xb5u8, 0xcfu8], // 이런 → 이렇+ㄴ
        36 => seq![0xc2u8, 0xd9u8, 0xb4u8, 0xe7u8], // 한데 → 하+ㄴ데
        37 => seq![0xc2u8, 0xd7u8, 0xcau8, 0xdeu8], // 하여 → 하+여
        38 => seq![0xb8u8, 0xf6u8], // 볼 → 보+ㄹ
        39 => seq![0xb0u8, 0xa5u8], // 갈 → 가+ㄹ
        40 => seq![0xb2u8, 0xa4u8], // 날 → 나+ㄹ
        41 => seq![0xbdu8, 0xd5u8], // 찬 → 차+ㄴ
        42 => seq![0xb8u8, 0xf3u8, 0xbbu8, 0xa6u8], // 보신 → 보시+ㄴ
        43 => seq![0xb0u8, 0xa1u8, 0xbcu8, 0xe8u8], // 가지 → 가+지
        44 => seq![0xb3u8, 0xadu8, 0xb0u8, 0xa1u8], // 내가 → 내+가
        45 => seq![0xb4u8, 0xddu8, 0xbcu8, 0xe8u8, 0xb6u8, 0xa6u8], // 대지를 → 대지+를
        46 => seq![0xbau8, 0xa8u8, 0xb1u8, 0xe1u8], // 삶과 → 삶+과
        47 => seq![0xb0u8, 0xfbu8, 0xb6u8, 0xa6u8], // 그를 → 그+를
        48 => seq![0xb4u8, 0xddu8, 0xc3u8, 0xcdu8, 0xbau8, 0xb7u8, 0xb2u8, 0xf7u8], // 대해서는 → 대하+여서+는
        49 => seq![0xcau8, 0xefu8, 0xb2u8, 0xf7u8], // 오는
        50 => seq![0xc0u8, 0xb0u8, 0xb2u8, 0xf7u8], // 타는
        51 => seq![0xcbu8, 0xfbu8, 0xb1u8, 0xe2u8, 0xb8u8, 0xf5u8, 0xb6u8, 0xf3u8], // 그렇지만
        52 => seq![0xb9u8, 0xddu8, 0xb5u8, 0xfbu8, 0xbdu8, 0xc3u8], // 반드시
        53 => seq![0xb1u8, 0xd7u8, 0xb7u8, 0xe1u8, 0xcau8, 0xbfu8], // 그래야
        54 => seq![0xb1u8, 0xd7u8, 0xb7u8, 0xe1u8, 0xb8u8, 0xf2u8], // 그러면
        55 => seq![0xbcu8, 0xd6u8, 0xb7u8, 0xceu8], // 주로
        56 => seq![0xb6u8, 0xf0u8], // 뒤
        57 => seq![0xb0u8, 0xbdu8, 0xbfu8, 0xecu8], // 경우
        58 => seq![0xb0u8, 0xdbu8, 0xb0u8, 0xfau8], // 결과
        59 => seq![0xb4u8, 0xf5u8, 0xb6u8, 0xe7u8, 0xbeu8, 0xe0u8], // 더불어
        _ => Seq::empty(),
    }
}

/// Reading rule of exception rule `i`.
pub open spec fn exception_outcome(i: u8) -> OutcomeView {
    match i {
        0 => OutcomeView::Lookup(seq![0xb1u8, 0xfdu8, 0xb0u8, 0xa1u8, 0xcau8, 0xadu8]),
        1 => OutcomeView::Lookup(seq![0xb4u8, 0xddu8, 0xcbu8, 0xcbu8, 0xb0u8, 0xd6u8]),
        2 => OutcomeView::Lookup(seq![0xc2u8, 0xd7u8, 0xcau8, 0xdeu8, 0xbau8, 0xb7u8]),
        3 => OutcomeView::Lookup(seq![0xcbu8, 0xceu8, 0xb8u8, 0xc9u8, 0xc3u8, 0xf9u8, 0xc2u8, 0xd7u8, 0xcau8, 0xdeu8, 0xbau8, 0xb7u8]),
        4 => OutcomeView::Lookup(seq![0xbdu8, 0xdbu8, 0xbcu8, 0xbfu8, 0xc2u8, 0xd7u8, 0xcau8, 0xdeu8]),
        5 => OutcomeView::Lookup(seq![0xbcu8, 0xadu8, 0xc2u8, 0xd7u8, 0xcau8, 0xdeu8]),
        6 => OutcomeView::Lookup(seq![0xbcu8, 0xadu8, 0xc2u8, 0xd7u8, 0xcau8, 0xdeu8, 0xbcu8, 0xecu8]),
        7 => OutcomeView::Lookup(seq![0xb6u8, 0xedu8, 0xb1u8, 0xfdu8, 0xcau8, 0xadu8]),
        8 => OutcomeView::Lookup(seq![0xb9u8, 0xbeu8, 0xc2u8, 0xd7u8, 0xcau8, 0xdeu8]),
        9 => OutcomeView::Lookup(seq![0xb9u8, 0xbeu8, 0xc2u8, 0xd7u8, 0xcau8, 0xdeu8]),
        10 => OutcomeView::Lookup(seq![0xb4u8, 0xddu8, 0xc2u8, 0xd7u8, 0xcau8, 0xdeu8, 0xbau8, 0xb7u8, 0xb4u8, 0xc7u8, 0xbcu8, 0xe8u8]),
        11 => OutcomeView::Lookup(seq![0xb4u8, 0xddu8, 0xc2u8, 0xd7u8, 0xcau8, 0xdeu8]),
        12 => OutcomeView::Lookup(seq![0xb4u8, 0xddu8, 0xc2u8, 0xd7u8, 0xcau8, 0xdeu8, 0xbau8, 0xb7u8]),
        13 => OutcomeView::Lookup(seq![0xb8u8, 0xf3u8, 0xb2u8, 0xf7u8, 0xbcu8, 0xacu8, 0xcbu8, 0xcbu8]),
        14 => OutcomeView::Lookup(seq![0xb1u8, 0xfdu8, 0xcau8, 0xefu8, 0xcau8, 0xadu8]),
        15 => OutcomeView::Lookup(seq![0xb4u8, 0xaeu8, 0xb6u8, 0xaeu8, 0xcau8, 0xdeu8, 0xcau8, 0xbfu8]),
        16 => OutcomeView::Lookup(seq![0xc0u8, 0xb0u8, 0xb2u8, 0xf7u8]),
        17 => OutcomeView::Lookup(seq![0xcau8, 0xefu8, 0xb2u8, 0xf7u8]),
        18 => OutcomeView::Lookup(seq![0xc2u8, 0xd7u8, 0xcau8, 0xdeu8, 0xcau8, 0xbfu8]),
        19 => OutcomeView::Lookup(seq![0xc2u8, 0xd7u8, 0xcau8, 0xdeu8, 0xb4u8, 0xaau8]),
        20 => OutcomeView::Lookup(seq![0xb4u8, 0xddu8, 0xc2u8, 0xd7u8, 0xcau8, 0xdeu8, 0xcau8, 0xbfu8]),
        21 => OutcomeView::Lookup(seq![0xcau8, 0xefu8, 0xcau8, 0xadu8, 0xbau8, 0xb7u8]),
        22 => OutcomeView::Lookup(seq![0xcau8, 0xefu8, 0xcau8, 0xadu8, 0xb4u8, 0xaau8]),
        23 => OutcomeView::Lookup(seq![0xc2u8, 0xd7u8, 0xcau8, 0xdeu8, 0xcau8, 0xbfu8]),
        24 => OutcomeView::Lookup(seq![0xb4u8, 0xddu8, 0xc2u8, 0xd7u8, 0xcau8, 0xdeu8, 0xcau8, 0xbfu8]),
        25 => OutcomeView::Lookup(seq![0xb4u8, 0xddu8, 0xc2u8, 0xd7u8, 0xcau8, 0xdeu8, 0xbau8, 0xb7u8]),
        26 => OutcomeView::Lookup(seq![0xcau8, 0xefu8, 0xcau8, 0xadu8, 0xb4u8, 0xaau8]),
        27 => OutcomeView::Hard(seq![0xbbu8, 0xf4u8], seq![0xb4u8, 0xaau8], None, 4, 2, 0x0, 0x0),
        28 => OutcomeView::Hard(seq![0xb0u8, 0xa1u8, 0xbcu8, 0xe8u8], seq![0xb2u8, 0xf7u8], None, 4, 2, 0x0, 0x0),
        29 => OutcomeView::Hard(seq![0xb0u8, 0xa1u8, 0xbcu8, 0xe8u8], seq![0xb2u8, 0xf7u8], None, 4, 2, 0x0, 0x0),
        30 => OutcomeView::Hard(seq![0xb3u8, 0xadu8, 0xb6u8, 0xaeu8], seq![0xa4u8, 0xa2u8], None, 4, 2, 0x0, 0x0),
        31 => OutcomeView::Hard(seq![0xb0u8, 0xa1u8], seq![0xb7u8, 0xb2u8], None, 4, 2, 0x0, 0x0),
        32 => OutcomeView::Hard(seq![0xbcu8, 0xc2u8], seq![0xb5u8, 0xb9u8], None, 4, 2, 0x0, 0x0),
        33 => OutcomeView::Hard(seq![0xb0u8, 0xa1u8], seq![0xb7u8, 0xb2u8, 0xbau8, 0xb7u8], None, 4, 2, 0x0, 0x0),
        34 => OutcomeView::Hard(seq![0xb0u8, 0xa1u8], seq![0xb4u8, 0xaau8], None, 4, 2, 0x0, 0x0),
        35 => OutcomeView::Hard(seq![0xcbu8, 0xcbu8, 0xb5u8, 0xd6u8], seq![0xa4u8, 0xa2u8], None, 5, 2, 0x0, 0x0),
        36 => OutcomeView::Hard(seq![0xc2u8, 0xd7u8], seq![0xa4u8, 0xa2u8, 0xb4u8, 0xe7u8], None, 4, 2, 0x0, 0x0),
        37 => OutcomeView::Hard(seq![0xc2u8, 0xd7u8], seq![0xcau8, 0xdeu8], None, 4, 2, 0x0, 0x0),
        38 => OutcomeView::Hard(seq![0xb8u8, 0xf3u8], seq![0xa4u8, 0xa4u8], None, 4, 2, 0x0, 0x0),
        39 => OutcomeView::Hard(seq![0xb0u8, 0xa1u8], seq![0xa4u8, 0xa4u8], None, 4, 2, 0x0, 0x0),
        40 => OutcomeView::Hard(seq![0xb1u8, 0xfdu8], seq![0xa4u8, 0xa4u8], None, 4, 2, 0x0, 0x0),
        41 => OutcomeView::Hard(seq![0xbdu8, 0xd3u8], seq![0xa4u8, 0xa2u8], None, 4, 2, 0x0, 0x0),
        42 => OutcomeView::Hard(seq![0xb8u8, 0xf3u8, 0xbbu8, 0xa4u8], seq![0xa4u8, 0xa2u8], None, 4, 2, 0x0, 0x0),
        43 => OutcomeView::Hard(seq![0xb0u8, 0xa1u8], seq![0xbcu8, 0xe8u8], None, 4, 2, 0x0, 0x0),
        44 => OutcomeView::Hard(seq![0xb3u8, 0xadu8], seq![0xb0u8, 0xa1u8], None, 2, 2, 0x0, 0x0),
        45 => OutcomeView::Hard(seq![0xb4u8, 0xddu8, 0xbcu8, 0xe8u8], seq![0xb6u8, 0xa6u8], None, 1, 2, 0x0, 0x0),
        46 => OutcomeView::Hard(seq![0xbau8, 0xa8u8], seq![0xb1u8, 0xe1u8], None, 1, 2, 0x0, 0x0),
        47 => OutcomeView::Hard(seq![0xb0u8, 0xfbu8], seq![0xb6u8, 0xa6u8], None, 2, 2, 0x0, 0x0),
        48 => OutcomeView::Hard(seq![0xb4u8, 0xddu8, 0xc2u8, 0xd7u8], seq![0xcau8, 0xdeu8, 0xbau8, 0xb7u8], Some(seq![0xb2u8, 0xf7u8]), 4, 3, 0x15, 0x91),
        49 => OutcomeView::Hard(seq![0xcau8, 0xefu8, 0xb2u8, 0xf7u8], Seq::<u8>::empty(), None, 0, 1, 0x0, 0x0),
        50 => OutcomeView::Hard(seq![0xc0u8, 0xb0u8, 0xb2u8, 0xf7u8], Seq::<u8>::empty(), None, 0, 1, 0x0, 0x0),
        51 => OutcomeView::Hard(seq![0xcbu8, 0xfbu8, 0xb1u8, 0xe2u8, 0xb8u8, 0xf5u8, 0xb6u8, 0xf3u8], Seq::<u8>::empty(), None, 0, 1, 0x0, 0x0),
        52 => OutcomeView::Hard(seq![0xb9u8, 0xddu8, 0xb5u8, 0xfbu8, 0xbdu8, 0xc3u8], Seq::<u8>::empty(), None, 0, 1, 0x0, 0x0),
        53 => OutcomeView::Hard(seq![0xb1u8, 0xd7u8, 0xb7u8, 0xe1u8, 0xcau8, 0xbfu8], Seq::<u8>::empty(), None, 0, 1, 0x0, 0x0),
        54 => OutcomeView::Hard(seq![0xb1u8, 0xd7u8, 0xb7u8, 0xe1u8, 0xb8u8, 0xf2u8], Seq::<u8>::empty(), None, 0, 1, 0x0, 0x0),
        55 => OutcomeView::Hard(seq![0xbcu8, 0xd6u8, 0xb7u8, 0xceu8], Seq::<u8>::empty(), None, 0, 1, 0x0, 0x0),
        56 => OutcomeView::Hard(seq![0xb6u8, 0xf0u8], Seq::<u8>::empty(), None, 0, 1, 0x0, 0x0),
        57 => OutcomeView::Hard(seq![0xb0u8, 0xbdu8, 0xbfu8, 0xecu8], Seq::<u8>::empty(), None, 0, 1, 0x0, 0x0),
        58 => OutcomeView::Hard(seq![0xb0u8, 0xdbu8, 0xb0u8, 0xfau8], Seq::<u8>::empty(), None, 0, 1, 0x0, 0x0),
        59 => OutcomeView::Hard(seq![0xb4u8, 0xf5u8, 0xb6u8, 0xe7u8, 0xbeu8, 0xe0u8], Seq::<u8>::empty(), None, 0, 1, 0x0, 0x0),
        _ => OutcomeView::Lookup(Seq::empty()),
    }
}

fn hard(main: Vec<u8>, sub: Vec<u8>, sub2: Option<Vec<u8>>, marker: u8, morphemes: u8, f1389: u8, f1400: u8) -> (r: ExceptionOutcome)
    ensures
        outcome_view(r) == OutcomeView::Hard(main@, sub@, opt_bytes_view(sub2), marker, morphemes, f1389, f1400),
{
    ExceptionOutcome::Hard(HardReading { main, sub, sub2, marker, morphemes, f1389, f1400 })
}

/// Exception rule `i` of the table.
#[verifier::rlimit(40)]
pub fn exception_rule(i: u8) -> (r: ExceptionRule)
    requires
        i < EXCEPTION_COUNT,
    ensures
        rule_view(r) == (exception_input(i), exception_outcome(i)),
{
    match i {
        0 => ExceptionRule { input: vec![0xb1u8, 0xfdu8, 0xb0u8, 0xa1u8], out: ExceptionOutcome::Lookup(vec![0xb1u8, 0xfdu8, 0xb0u8, 0xa1u8, 0xcau8, 0xadu8]) },
        1 => ExceptionRule { input: vec![0xb4u8, 0xddu8, 0xb0u8, 0xd6u8], out: ExceptionOutcome::Lookup(vec![0xb4u8, 0xddu8, 0xcbu8, 0xcbu8, 0xb0u8, 0xd6u8]) },
        2 => ExceptionRule { input: vec![0xc3u8, 0xcdu8, 0xbau8, 0xb7u8], out: ExceptionOutcome::Lookup(vec![0xc2u8, 0xd7u8, 0xcau8, 0xdeu8, 0xbau8, 0xb7u8]) },
        3 => ExceptionRule { input: vec![0xcbu8, 0xceu8, 0xb8u8, 0xc9u8, 0xc3u8, 0xf9u8, 0xc3u8, 0xcdu8, 0xbau8, 0xb7u8], out: ExceptionOutcome::Lookup(vec![0xcbu8, 0xceu8, 0xb8u8, 0xc9u8, 0xc3u8, 0xf9u8, 0xc2u8, 0xd7u8, 0xcau8, 0xdeu8, 0xbau8, 0xb7u8]) },
        4 => ExceptionRule { input: vec![0xbdu8, 0xdbu8, 0xbcu8, 0xbfu8, 0xc3u8, 0xcdu8], out: ExceptionOutcome::Lookup(vec![0xbdu8, 0xdbu8, 0xbcu8, 0xbfu8, 0xc2u8, 0xd7u8, 0xcau8, 0xdeu8]) },
        5 => ExceptionRule { input: vec![0xbcu8, 0xadu8, 0xc3u8, 0xcdu8], out: ExceptionOutcome::Lookup(vec![0xbcu8, 0xadu8, 0xc2u8, 0xd7u8, 0xcau8, 0xdeu8]) },
        6 => ExceptionRule { input: vec![0xbcu8, 0xadu8, 0xc3u8, 0xcdu8, 0xbcu8, 0xecu8], out: ExceptionOutcome::Lookup(vec![0xbcu8, 0xadu8, 0xc2u8, 0xd7u8, 0xcau8, 0xdeu8, 0xbcu8, 0xecu8]) },
        7 => ExceptionRule { input: vec![0xb6u8, 0xedu8, 0xb1u8, 0xfdu8], out: ExceptionOutcome::Lookup(vec![0xb6u8, 0xedu8, 0xb1u8, 0xfdu8, 0xcau8, 0xadu8]) },
        8 => ExceptionRule { input: vec![0xb9u8, 0xbeu8, 0xc3u8, 0xcdu8], out: ExceptionOutcome::Lookup(vec![0xb9u8, 0xbeu8, 0xc2u8, 0xd7u8, 0xcau8, 0xdeu8]) },
        9 => ExceptionRule { input: vec![0xb9u8, 0xbeu8, 0xc2u8, 0xd7u8, 0xcau8, 0xdeu8], out: ExceptionOutcome::Lookup(vec![0xb9u8, 0xbeu8, 0xc2u8, 0xd7u8, 0xcau8, 0xdeu8]) },
        10 => ExceptionRule { input: vec![0xb4u8, 0xddu8, 0xc3u8, 0xcdu8, 0xbau8, 0xb7u8, 0xb4u8, 0xc7u8, 0xbcu8, 0xe8u8], out: ExceptionOutcome::Lookup(vec![0xb4u8, 0xddu8, 0xc2u8, 0xd7u8, 0xcau8, 0xdeu8, 0xbau8, 0xb7u8, 0xb4u8, 0xc7u8, 0xbcu8, 0xe8u8]) },
        11 => ExceptionRule { input: vec![0xb4u8, 0xddu8, 0xc3u8, 0xcdu8], out: ExceptionOutcome::Lookup(vec![0xb4u8, 0xddu8, 0xc2u8, 0xd7u8, 0xcau8, 0xdeu8]) },
        12 => ExceptionRule { input: vec![0xb4u8, 0xddu8, 0xc3u8, 0xcdu8, 0xbau8, 0xb7u8], out: ExceptionOutcome::Lookup(vec![0xb4u8, 0xddu8, 0xc2u8, 0xd7u8, 0xcau8, 0xdeu8, 0xbau8, 0xb7u8]) },
        13 => ExceptionRule { input: vec![0xb8u8, 0xf5u8, 0xbcu8, 0xacu8, 0xcbu8, 0xcbu8], out: ExceptionOutcome::Lookup(vec![0xb8u8, 0xf3u8, 0xb2u8, 0xf7u8, 0xbcu8, 0xacu8, 0xcbu8, 0xcbu8]) },
        14 => ExceptionRule { input: vec![0xb1u8, 0xfdu8, 0xccu8, 0xaeu8], out: ExceptionOutcome::Lookup(vec![0xb1u8, 0xfdu8, 0xcau8, 0xefu8, 0xcau8, 0xadu8]) },
        15 => ExceptionRule { input: vec![0xb4u8, 0xaeu8, 0xb5u8, 0xd8u8, 0xcau8, 0xbfu8], out: ExceptionOutcome::Lookup(vec![0xb4u8, 0xaeu8, 0xb6u8, 0xaeu8, 0xcau8, 0xdeu8, 0xcau8, 0xbfu8]) },
        16 => ExceptionRule { input: vec![0xc0u8, 0xb2u8], out: ExceptionOutcome::Lookup(vec![0xc0u8, 0xb0u8, 0xb2u8, 0xf7u8]) },
        17 => ExceptionRule { input: vec![0xcau8, 0xf1u8], out: ExceptionOutcome::Lookup(vec![0xcau8, 0xefu8, 0xb2u8, 0xf7u8]) },
        18 => ExceptionRule { input: vec![0xc3u8, 0xcdu8, 0xcau8, 0xbfu8], out: ExceptionOutcome::Lookup(vec![0xc2u8, 0xd7u8, 0xcau8, 0xdeu8, 0xcau8, 0xbfu8]) },
        19 => ExceptionRule { input: vec![0xc3u8, 0xcdu8, 0xb4u8, 0xaau8], out: ExceptionOutcome::Lookup(vec![0xc2u8, 0xd7u8, 0xcau8, 0xdeu8, 0xb4u8, 0xaau8]) },
        20 => ExceptionRule { input: vec![0xb4u8, 0xddu8, 0xc3u8, 0xcdu8, 0xcau8, 0xbfu8], out: ExceptionOutcome::Lookup(vec![0xb4u8, 0xddu8, 0xc2u8, 0xd7u8, 0xcau8, 0xdeu8, 0xcau8, 0xbfu8]) },
        21 => ExceptionRule { input: vec![0xccu8, 0xaeu8, 0xbau8, 0xb7u8], out: ExceptionOutcome::Lookup(vec![0xcau8, 0xefu8, 0xcau8, 0xadu8, 0xbau8, 0xb7u8]) },
        22 => ExceptionRule { input: vec![0xccu8, 0xaeu8, 0xb4u8, 0xaau8], out: ExceptionOutcome::Lookup(vec![0xcau8, 0xefu8, 0xcau8, 0xadu8, 0xb4u8, 0xaau8]) },
        23 => ExceptionRule { input: vec![0xc2u8, 0xd7u8, 0xcau8, 0xdeu8, 0xcau8, 0xbfu8], out: ExceptionOutcome::Lookup(vec![0xc2u8, 0xd7u8, 0xcau8, 0xdeu8, 0xcau8, 0xbfu8]) },
        24 => ExceptionRule { input: vec![0xb4u8, 0xddu8, 0xc2u8, 0xd7u8, 0xcau8, 0xdeu8, 0xcau8, 0xbfu8], out: ExceptionOutcome::Lookup(vec![0xb4u8, 0xddu8, 0xc2u8, 0xd7u8, 0xcau8, 0xdeu8, 0xcau8, 0xbfu8]) },
        25 => ExceptionRule { input: vec![0xb4u8, 0xddu8, 0xc2u8, 0xd7u8, 0xcau8, 0xdeu8, 0xbau8, 0xb7u8], out: ExceptionOutcome::Lookup(vec![0xb4u8, 0xddu8, 0xc2u8, 0xd7u8, 0xcau8, 0xdeu8, 0xbau8, 0xb7u8]) },
        26 => ExceptionRule { input: vec![0xcau8, 0xefu8, 0xcau8, 0xadu8, 0xb4u8, 0xaau8], out: ExceptionOutcome::Lookup(vec![0xcau8, 0xefu8, 0xcau8, 0xadu8, 0xb4u8, 0xaau8]) },
        27 => ExceptionRule { input: vec![0xbbu8, 0xf4u8, 0xb4u8, 0xaau8], out: hard(vec![0xbbu8, 0xf4u8], vec![0xb4u8, 0xaau8], None, 4, 2, 0x0, 0x0) },
        28 => ExceptionRule { input: vec![0xb0u8, 0xa1u8, 0xbcu8, 0xeau8], out: hard(vec![0xb0u8, 0xa1u8, 0xbcu8, 0xe8u8], vec![0xb2u8, 0xf7u8], None, 4, 2, 0x0, 0x0) },
        29 => ExceptionRule { input: vec![0xb0u8, 0xa1u8, 0xbcu8, 0xe8u8, 0xb2u8, 0xf7u8], out: hard(vec![0xb0u8, 0xa1u8, 0xbcu8, 0xe8u8], vec![0xb2u8, 0xf7u8], None, 4, 2, 0x0, 0x0) },
        30 => ExceptionRule { input: vec![0xb3u8, 0xadu8, 0xb6u8, 0xb0u8], out: hard(vec![0xb3u8, 0xadu8, 0xb6u8, 0xaeu8], vec![0xa4u8, 0xa2u8], None, 4, 2, 0x0, 0x0) },
        31 => ExceptionRule { input: vec![0xb0u8, 0xa1u8, 0xb7u8, 0xb2u8], out: hard(vec![0xb0u8, 0xa1u8], vec![0xb7u8, 0xb2u8], None, 4, 2, 0x0, 0x0) },
        32 => ExceptionRule { input: vec![0xbcu8, 0xc2u8, 0xb5u8, 0xb9u8], out: hard(vec![0xbcu8, 0xc2u8], vec![0xb5u8, 0xb9u8], None, 4, 2, 0x0, 0x0) },
        33 => ExceptionRule { input: vec![0xb0u8, 0xa1u8, 0xb7u8, 0xb2u8, 0xbau8, 0xb7u8], out: hard(vec![0xb0u8, 0xa1u8], vec![0xb7u8, 0xb2u8, 0xbau8, 0xb7u8], None, 4, 2, 0x0, 0x0) },
        34 => ExceptionRule { input: vec![0xb0u8, 0xa1u8, 0xb4u8, 0xaau8], out: hard(vec![0xb0u8, 0xa1u8], vec![0xb4u8, 0xaau8], None, 4, 2, 0x0, 0x0) },
        35 => ExceptionRule { input: vec![0xcbu8, 0xcbu8, 0xb5u8, 0xcfu8], out: hard(vec![0xcbu8, 0xcbu8, 0xb5u8, 0xd6u8], vec![0xa4u8, 0xa2u8], None, 5, 2, 0x0, 0x0) },
        36 => ExceptionRule { input: vec![0xc2u8, 0xd9u8, 0xb4u8, 0xe7u8], out: hard(vec![0xc2u8, 0xd7u8], vec![0xa4u8, 0xa2u8, 0xb4u8, 0xe7u8], None, 4, 2, 0x0, 0x0) },
        37 => ExceptionRule { input: vec![0xc2u8, 0xd7u8, 0xcau8, 0xdeu8], out: hard(vec![0xc2u8, 0xd7u8], vec![0xcau8, 0xdeu8], None, 4, 2, 0x0, 0x0) },
        38 => ExceptionRule { input: vec![0xb8u8, 0xf6u8], out: hard(vec![0xb8u8, 0xf3u8], vec![0xa4u8, 0xa4u8], None, 4, 2, 0x0, 0x0) },
        39 => ExceptionRule { input: vec![0xb0u8, 0xa5u8], out: hard(vec![0xb0u8, 0xa1u8], vec![0xa4u8, 0xa4u8], None, 4, 2, 0x0, 0x0) },
        40 => ExceptionRule { input: vec![0xb2u8, 0xa4u8], out: hard(vec![0xb1u8, 0xfdu8], vec![0xa4u8, 0xa4u8], None, 4, 2, 0x0, 0x0) },
        41 => ExceptionRule { input: vec![0xbdu8, 0xd5u8], out: hard(vec![0xbdu8, 0xd3u8], vec![0xa4u8, 0xa2u8], None, 4, 2, 0x0, 0x0) },
        42 => ExceptionRule { input: vec![0xb8u8, 0xf3u8, 0xbbu8, 0xa6u8], out: hard(vec![0xb8u8, 0xf3u8, 0xbbu8, 0xa4u8], vec![0xa4u8, 0xa2u8], None, 4, 2, 0x0, 0x0) },
        43 => ExceptionRule { input: vec![0xb0u8, 0xa1u8, 0xbcu8, 0xe8u8], out: hard(vec![0xb0u8, 0xa1u8], vec![0xbcu8, 0xe8u8], None, 4, 2, 0x0, 0x0) },
        44 => ExceptionRule { input: vec![0xb3u8, 0xadu8, 0xb0u8, 0xa1u8], out: hard(vec![0xb3u8, 0xadu8], vec![0xb0u8, 0xa1u8], None, 2, 2, 0x0, 0x0) },
        45 => ExceptionRule { input: vec![0xb4u8, 0xddu8, 0xbcu8, 0xe8u8, 0xb6u8, 0xa6u8], out: hard(vec![0xb4u8, 0xddu8, 0xbcu8, 0xe8u8], vec![0xb6u8, 0xa6u8], None, 1, 2, 0x0, 0x0) },
        46 => ExceptionRule { input: vec![0xbau8, 0xa8u8, 0xb1u8, 0xe1u8], out: hard(vec![0xbau8, 0xa8u8], vec![0xb1u8, 0xe1u8], None, 1, 2, 0x0, 0x0) },
        47 => ExceptionRule { input: vec![0xb0u8, 0xfbu8, 0xb6u8, 0xa6u8], out: hard(vec![0xb0u8, 0xfbu8], vec![0xb6u8, 0xa6u8], None, 2, 2, 0x0, 0x0) },
        48 => ExceptionRule { input: vec![0xb4u8, 0xddu8, 0xc3u8, 0xcdu8, 0xbau8, 0xb7u8, 0xb2u8, 0xf7u8], out: hard(vec![0xb4u8, 0xddu8, 0xc2u8, 0xd7u8], vec![0xcau8, 0xdeu8, 0xbau8, 0xb7u8], Some(vec![0xb2u8, 0xf7u8]), 4, 3, 0x15, 0x91) },
        49 => ExceptionRule { input: vec![0xcau8, 0xefu8, 0xb2u8, 0xf7u8], out: hard(vec![0xcau8, 0xefu8, 0xb2u8, 0xf7u8], Vec::<u8>::new(), None, 0, 1, 0x0, 0x0) },
        50 => ExceptionRule { input: vec![0xc0u8, 0xb0u8, 0xb2u8, 0xf7u8], out: hard(vec![0xc0u8, 0xb0u8, 0xb2u8, 0xf7u8], Vec::<u8>::new(), None, 0, 1, 0x0, 0x0) },
        51 => ExceptionRule { input: vec![0xcbu8, 0xfbu8, 0xb1u8, 0xe2u8, 0xb8u8, 0xf5u8, 0xb6u8, 0xf3u8], out: hard(vec![0xcbu8, 0xfbu8, 0xb1u8, 0xe2u8, 0xb8u8, 0xf5u8, 0xb6u8, 0xf3u8], Vec::<u8>::new(), None, 0, 1, 0x0, 0x0) },
        52 => ExceptionRule { input: vec![0xb9u8, 0xddu8, 0xb5u8, 0xfbu8, 0xbdu8, 0xc3u8], out: hard(vec![0xb9u8, 0xddu8, 0xb5u8, 0xfbu8, 0xbdu8, 0xc3u8], Vec::<u8>::new(), None, 0, 1, 0x0, 0x0) },
        53 => ExceptionRule { input: vec![0xb1u8, 0xd7u8, 0xb7u8, 0xe1u8, 0xcau8, 0xbfu8], out: hard(vec![0xb1u8, 0xd7u8, 0xb7u8, 0xe1u8, 0xcau8, 0xbfu8], Vec::<u8>::new(), None, 0, 1, 0x0, 0x0) },
        54 => ExceptionRule { input: vec![0xb1u8, 0xd7u8, 0xb7u8, 0xe1u8, 0xb8u8, 0xf2u8], out: hard(vec![0xb1u8, 0xd7u8, 0xb7u8, 0xe1u8, 0xb8u8, 0xf2u8], Vec::<u8>::new(), None, 0, 1, 0x0, 0x0) },
        55 => ExceptionRule { input: vec![0xbcu8, 0xd6u8, 0xb7u8, 0xceu8], out: hard(vec![0xbcu8, 0xd6u8, 0xb7u8, 0xceu8], Vec::<u8>::new(), None, 0, 1, 0x0, 0x0) },
        56 => ExceptionRule { input: vec![0xb6u8, 0xf0u8], out: hard(vec![0xb6u8, 0xf0u8], Vec::<u8>::new(), None, 0, 1, 0x0, 0x0) },
        57 => ExceptionRule { input: vec![0xb0u8, 0xbdu8, 0xbfu8, 0xecu8], out: hard(vec![0xb0u8, 0xbdu8, 0xbfu8, 0xecu8], Vec::<u8>::new(), None, 0, 1, 0x0, 0x0) },
        58 => ExceptionRule { input: vec![0xb0u8, 0xdbu8, 0xb0u8, 0xfau8], out: hard(vec![0xb0u8, 0xdbu8, 0xb0u8, 0xfau8], Vec::<u8>::new(), None, 0, 1, 0x0, 0x0) },
        59 => ExceptionRule { input: vec![0xb4u8, 0xf5u8, 0xb6u8, 0xe7u8, 0xbeu8, 0xe0u8], out: hard(vec![0xb4u8, 0xf5u8, 0xb6u8, 0xe7u8, 0xbeu8, 0xe0u8], Vec::<u8>::new(), None, 0, 1, 0x0, 0x0) },
        _ => ExceptionRule { input: Vec::new(), out: ExceptionOutcome::Lookup(Vec::new()) },
    }
}

/// All exception rules, in table order.
pub fn exception_table() -> (r: Vec<ExceptionRule>)
    ensures
        r@.len() == EXCEPTION_COUNT,
        forall|i: int| 0 <= i < EXCEPTION_COUNT ==> rule_view(#[trigger] r@[i]) == (exception_input(i as u8), exception_outcome(i as u8)),
{
    let mut out: Vec<ExceptionRule> = Vec::new();
    let mut i: u8 = 0;
    while (i as usize) < EXCEPTION_COUNT
        invariant
            i <= EXCEPTION_COUNT,
            out@.len() == i,
            forall|j: int| 0 <= j < i ==> rule_view(#[trigger] out@[j]) == (exception_input(j as u8), exception_outcome(j as u8)),
        decreases EXCEPTION_COUNT - i,
    {
        out.push(exception_rule(i));
        i = i + 1;
    }
    out
}

/// Index of the first exception rule at or after `i` whose word is `input`.
pub open spec fn first_exception_from(input: Seq<u8>, i: int) -> Option<int>
    decreases EXCEPTION_COUNT - i,
{
    if i < 0 || i >= EXCEPTION_COUNT {
        None
    } else if exception_input(i as u8) == input {
        Some(i)
    } else {
        first_exception_from(input, i + 1)
    }
}

/// The first exception rule (in table order) whose word is exactly `input`; `None` for the
/// empty word or a word not in the table.
pub fn lookup_exception(input: &[u8]) -> (r: Option<ExceptionRule>)
    ensures
        input@.len() == 0 ==> r is None,
        input@.len() > 0 ==> match first_exception_from(input@, 0) {
            Some(i) => r matches Some(rule) && rule_view(rule) == (exception_input(i as u8), exception_outcome(i as u8)),
            None => r is None,
        },
{
    if input.len() == 0 {
        return None;
    }
    let mut i: u8 = 0;
    while (i as usize) < EXCEPTION_COUNT
        invariant
            i <= EXCEPTION_COUNT,
            input@.len() > 0,
            first_exception_from(input@, 0) == first_exception_from(input@, i as int),
        decreases EXCEPTION_COUNT - i,
    {
        let rule = exception_rule(i);
        if bytes_eq(rule.input.as_slice(), input) {
            return Some(rule);
        }
        i = i + 1;
    }
    None
}

/// Number of units in the core unit table (the rest are later additions).
pub const UNIT_CORE_COUNT: usize = 24;

/// Number of unit names known.
pub const UNIT_COUNT: usize = 33;

/// Unit name `i` (ASCII).
pub open spec fn unit_name(i: u8) -> Seq<u8> {
    match i {
        0 => seq![0x6du8], // m
        1 => seq![0x63u8, 0x6du8], // cm
        2 => seq![0x6du8, 0x6du8], // mm
        3 => seq![0x64u8, 0x6du8], // dm
        4 => seq![0x6bu8, 0x6du8], // km
        5 => seq![0x66u8, 0x6du8], // fm
        6 => seq![0x6eu8, 0x6du8], // nm
        7 => seq![0x67u8], // g
        8 => seq![0x6du8, 0x67u8], // mg
        9 => seq![0x6bu8, 0x67u8], // kg
        10 => seq![0x74u8], // t
        11 => seq![0x56u8], // V
        12 => seq![0x70u8, 0x56u8], // pV
        13 => seq![0x6eu8, 0x56u8], // nV
        14 => seq![0x6du8, 0x56u8], // mV
        15 => seq![0x6bu8, 0x56u8], // kV
        16 => seq![0x4du8, 0x56u8], // MV
        17 => seq![0x41u8], // A
        18 => seq![0x70u8, 0x41u8], // pA
        19 => seq![0x6eu8, 0x41u8], // nA
        20 => seq![0x6du8, 0x41u8], // mA
        21 => seq![0x6bu8, 0x41u8], // kA
        22 => seq![0x57u8], // W
        23 => seq![0x70u8, 0x57u8], // pW
        24 => seq![0x48u8, 0x7au8], // Hz
        25 => seq![0x6bu8, 0x48u8, 0x7au8], // kHz
        26 => seq![0x4du8, 0x48u8, 0x7au8], // MHz
        27 => seq![0x70u8, 0x70u8, 0x6du8], // ppm
        28 => seq![0x64u8, 0x42u8], // dB
        29 => seq![0x4au8], // J
        30 => seq![0x46u8], // F
        31 => seq![0x4eu8], // N
        32 => seq![0x50u8, 0x61u8], // Pa
        _ => Seq::empty(),
    }
}

/// Reading of unit `i` (KPS 9566 bytes).
pub open spec fn unit_name_reading(i: u8) -> Seq<u8> {
    match i {
        0 => seq![0xb8u8, 0xa1u8, 0xc0u8, 0xbeu8],
        1 => seq![0xbbu8, 0xbfu8, 0xbeu8, 0xb7u8, 0xb8u8, 0xa1u8, 0xc0u8, 0xbeu8],
        2 => seq![0xb7u8, 0xe7u8, 0xb6u8, 0xaeu8, 0xb8u8, 0xa1u8, 0xc0u8, 0xbeu8],
        3 => seq![0xb4u8, 0xe7u8, 0xbbu8, 0xa4u8, 0xb8u8, 0xa1u8, 0xc0u8, 0xbeu8],
        4 => seq![0xbfu8, 0xd4u8, 0xb5u8, 0xe1u8, 0xb8u8, 0xa1u8, 0xc0u8, 0xbeu8],
        5 => seq![0xc2u8, 0xc0u8, 0xc0u8, 0xcbu8, 0xb8u8, 0xa1u8, 0xc0u8, 0xbeu8],
        6 => seq![0xb1u8, 0xfdu8, 0xb2u8, 0xd1u8, 0xb8u8, 0xa1u8, 0xc0u8, 0xbeu8],
        7 => seq![0xb0u8, 0xfbu8, 0xb5u8, 0xbdu8],
        8 => seq![0xb7u8, 0xe7u8, 0xb6u8, 0xaeu8, 0xb0u8, 0xfbu8, 0xb5u8, 0xbdu8],
        9 => seq![0xbfu8, 0xd4u8, 0xb5u8, 0xe1u8, 0xb0u8, 0xfbu8, 0xb5u8, 0xbdu8],
        10 => seq![0xc0u8, 0xcdu8],
        11 => seq![0xb8u8, 0xf6u8, 0xc0u8, 0xe2u8],
        12 => seq![0xc2u8, 0xaau8, 0xbfu8, 0xb8u8, 0xb8u8, 0xf6u8, 0xc0u8, 0xe2u8],
        13 => seq![0xb1u8, 0xfdu8, 0xb2u8, 0xd1u8, 0xb8u8, 0xf6u8, 0xc0u8, 0xe2u8],
        14 => seq![0xb7u8, 0xe7u8, 0xb6u8, 0xaeu8, 0xb8u8, 0xf6u8, 0xc0u8, 0xe2u8],
        15 => seq![0xbfu8, 0xd4u8, 0xb5u8, 0xe1u8, 0xb8u8, 0xf6u8, 0xc0u8, 0xe2u8],
        16 => seq![0xb8u8, 0xa1u8, 0xb0u8, 0xa1u8, 0xb8u8, 0xf6u8, 0xc0u8, 0xe2u8],
        17 => seq![0xcau8, 0xb7u8, 0xc2u8, 0xbcu8, 0xcau8, 0xadu8],
        18 => seq![0xc2u8, 0xaau8, 0xbfu8, 0xb8u8, 0xcau8, 0xb7u8, 0xc2u8, 0xbcu8, 0xcau8, 0xadu8],
        19 => seq![0xb1u8, 0xfdu8, 0xb2u8, 0xd1u8, 0xcau8, 0xb7u8, 0xc2u8, 0xbcu8, 0xcau8, 0xadu8],
        20 => seq![0xb7u8, 0xe7u8, 0xb6u8, 0xaeu8, 0xcau8, 0xb7u8, 0xc2u8, 0xbcu8, 0xcau8, 0xadu8],
        21 => seq![0xbfu8, 0xd4u8, 0xb5u8, 0xe1u8, 0xcau8, 0xb7u8, 0xc2u8, 0xbcu8, 0xcau8, 0xadu8],
        22 => seq![0xccu8, 0xaeu8, 0xc0u8, 0xe2u8],
        23 => seq![0xc2u8, 0xaau8, 0xbfu8, 0xb8u8, 0xccu8, 0xaeu8, 0xc0u8, 0xe2u8],
        24 => seq![0xc3u8, 0xd7u8, 0xb6u8, 0xa3u8, 0xbeu8, 0xafu8],
        25 => seq![0xbfu8, 0xd4u8, 0xb5u8, 0xe1u8, 0xc3u8, 0xd7u8, 0xb6u8, 0xa3u8, 0xbeu8, 0xafu8],
        26 => seq![0xb8u8, 0xa1u8, 0xb0u8, 0xa1u8, 0xc3u8, 0xd7u8, 0xb6u8, 0xa3u8, 0xbeu8, 0xafu8],
        27 => seq![0xc2u8, 0xaau8, 0xc2u8, 0xaau8, 0xcbu8, 0xeau8],
        28 => seq![0xb4u8, 0xe7u8, 0xbbu8, 0xa4u8, 0xb9u8, 0xd9u8],
        29 => seq![0xbcu8, 0xd4u8],
        30 => seq![0xc2u8, 0xb2u8, 0xb5u8, 0xcdu8, 0xb4u8, 0xc5u8],
        31 => seq![0xb2u8, 0xeeu8, 0xc0u8, 0xc0u8],
        32 => seq![0xc1u8, 0xc4u8, 0xbau8, 0xf7u8, 0xbeu8, 0xf5u8],
        _ => Seq::empty(),
    }
}

fn unit_entry(i: u8) -> (r: (Vec<u8>, Vec<u8>))
    requires
        i < UNIT_COUNT,
    ensures
        r.0@ == unit_name(i),
        r.1@ == unit_name_reading(i),
{
    match i {
        0 => (vec![0x6du8], vec![0xb8u8, 0xa1u8, 0xc0u8, 0xbeu8]),
        1 => (vec![0x63u8, 0x6du8], vec![0xbbu8, 0xbfu8, 0xbeu8, 0xb7u8, 0xb8u8, 0xa1u8, 0xc0u8, 0xbeu8]),
        2 => (vec![0x6du8, 0x6du8], vec![0xb7u8, 0xe7u8, 0xb6u8, 0xaeu8, 0xb8u8, 0xa1u8, 0xc0u8, 0xbeu8]),
        3 => (vec![0x64u8, 0x6du8], vec![0xb4u8, 0xe7u8, 0xbbu8, 0xa4u8, 0xb8u8, 0xa1u8, 0xc0u8, 0xbeu8]),
        4 => (vec![0x6bu8, 0x6du8], vec![0xbfu8, 0xd4u8, 0xb5u8, 0xe1u8, 0xb8u8, 0xa1u8, 0xc0u8, 0xbeu8]),
        5 => (vec![0x66u8, 0x6du8], vec![0xc2u8, 0xc0u8, 0xc0u8, 0xcbu8, 0xb8u8, 0xa1u8, 0xc0u8, 0xbeu8]),
        6 => (vec![0x6eu8, 0x6du8], vec![0xb1u8, 0xfdu8, 0xb2u8, 0xd1u8, 0xb8u8, 0xa1u8, 0xc0u8, 0xbeu8]),
        7 => (vec![0x67u8], vec![0xb0u8, 0xfbu8, 0xb5u8, 0xbdu8]),
        8 => (vec![0x6du8, 0x67u8], vec![0xb7u8, 0xe7u8, 0xb6u8, 0xaeu8, 0xb0u8, 0xfbu8, 0xb5u8, 0xbdu8]),
        9 => (vec![0x6bu8, 0x67u8], vec![0xbfu8, 0xd4u8, 0xb5u8, 0xe1u8, 0xb0u8, 0xfbu8, 0xb5u8, 0xbdu8]),
        10 => (vec![0x74u8], vec![0xc0u8, 0xcdu8]),
        11 => (vec![0x56u8], vec![0xb8u8, 0xf6u8, 0xc0u8, 0xe2u8]),
        12 => (vec![0x70u8, 0x56u8], vec![0xc2u8, 0xaau8, 0xbfu8, 0xb8u8, 0xb8u8, 0xf6u8, 0xc0u8, 0xe2u8]),
        13 => (vec![0x6eu8, 0x56u8], vec![0xb1u8, 0xfdu8, 0xb2u8, 0xd1u8, 0xb8u8, 0xf6u8, 0xc0u8, 0xe2u8]),
        14 => (vec![0x6du8, 0x56u8], vec![0xb7u8, 0xe7u8, 0xb6u8, 0xaeu8, 0xb8u8, 0xf6u8, 0xc0u8, 0xe2u8]),
        15 => (vec![0x6bu8, 0x56u8], vec![0xbfu8, 0xd4u8, 0xb5u8, 0xe1u8, 0xb8u8, 0xf6u8, 0xc0u8, 0xe2u8]),
        16 => (vec![0x4du8, 0x56u8], vec![0xb8u8, 0xa1u8, 0xb0u8, 0xa1u8, 0xb8u8, 0xf6u8, 0xc0u8, 0xe2u8]),
        17 => (vec![0x41u8], vec![0xcau8, 0xb7u8, 0xc2u8, 0xbcu8, 0xcau8, 0xadu8]),
        18 => (vec![0x70u8, 0x41u8], vec![0xc2u8, 0xaau8, 0xbfu8, 0xb8u8, 0xcau8, 0xb7u8, 0xc2u8, 0xbcu8, 0xcau8, 0xadu8]),
        19 => (vec![0x6eu8, 0x41u8], vec![0xb1u8, 0xfdu8, 0xb2u8, 0xd1u8, 0xcau8, 0xb7u8, 0xc2u8, 0xbcu8, 0xcau8, 0xadu8]),
        20 => (vec![0x6du8, 0x41u8], vec![0xb7u8, 0xe7u8, 0xb6u8, 0xaeu8, 0xcau8, 0xb7u8, 0xc2u8, 0xbcu8, 0xcau8, 0xadu8]),
        21 => (vec![0x6bu8, 0x41u8], vec![0xbfu8, 0xd4u8, 0xb5u8, 0xe1u8, 0xcau8, 0xb7u8, 0xc2u8, 0xbcu8, 0xcau8, 0xadu8]),
        22 => (vec![0x57u8], vec![0xccu8, 0xaeu8, 0xc0u8, 0xe2u8]),
        23 => (vec![0x70u8, 0x57u8], vec![0xc2u8, 0xaau8, 0xbfu8, 0xb8u8, 0xccu8, 0xaeu8, 0xc0u8, 0xe2u8]),
        24 => (vec![0x48u8, 0x7au8], vec![0xc3u8, 0xd7u8, 0xb6u8, 0xa3u8, 0xbeu8, 0xafu8]),
        25 => (vec![0x6bu8, 0x48u8, 0x7au8], vec![0xbfu8, 0xd4u8, 0xb5u8, 0xe1u8, 0xc3u8, 0xd7u8, 0xb6u8, 0xa3u8, 0xbeu8, 0xafu8]),
        26 => (vec![0x4du8, 0x48u8, 0x7au8], vec![0xb8u8, 0xa1u8, 0xb0u8, 0xa1u8, 0xc3u8, 0xd7u8, 0xb6u8, 0xa3u8, 0xbeu8, 0xafu8]),
        27 => (vec![0x70u8, 0x70u8, 0x6du8], vec![0xc2u8, 0xaau8, 0xc2u8, 0xaau8, 0xcbu8, 0xeau8]),
        28 => (vec![0x64u8, 0x42u8], vec![0xb4u8, 0xe7u8, 0xbbu8, 0xa4u8, 0xb9u8, 0xd9u8]),
        29 => (vec![0x4au8], vec![0xbcu8, 0xd4u8]),
        30 => (vec![0x46u8], vec![0xc2u8, 0xb2u8, 0xb5u8, 0xcdu8, 0xb4u8, 0xc5u8]),
        31 => (vec![0x4eu8], vec![0xb2u8, 0xeeu8, 0xc0u8, 0xc0u8]),
        32 => (vec![0x50u8, 0x61u8], vec![0xc1u8, 0xc4u8, 0xbau8, 0xf7u8, 0xbeu8, 0xf5u8]),
        _ => (Vec::new(), Vec::new()),
    }
}

/// Units of the core table, with their readings, in table order.
pub fn unit_table() -> (r: Vec<(Vec<u8>, Vec<u8>)>)
    ensures
        r@.len() == UNIT_CORE_COUNT,
        forall|i: int| 0 <= i < UNIT_CORE_COUNT ==> (#[trigger] r@[i]).0@ == unit_name(i as u8) && r@[i].1@ == unit_name_reading(i as u8),
{
    let mut out: Vec<(Vec<u8>, Vec<u8>)> = Vec::new();
    let mut i: u8 = 0;
    while (i as usize) < UNIT_CORE_COUNT
        invariant
            i <= UNIT_CORE_COUNT,
            out@.len() == i,
            forall|j: int| 0 <= j < i ==> (#[trigger] out@[j]).0@ == unit_name(j as u8) && out@[j].1@ == unit_name_reading(j as u8),
        decreases UNIT_CORE_COUNT - i,
    {
        out.push(unit_entry(i));
        i = i + 1;
    }
    out
}

/// Index of the first unit at or after `i` named `unit`.
pub open spec fn first_unit_from(unit: Seq<u8>, i: int) -> Option<int>
    decreases UNIT_COUNT - i,
{
    if i < 0 || i >= UNIT_COUNT {
        None
    } else if unit_name(i as u8) == unit {
        Some(i)
    } else {
        first_unit_from(unit, i + 1)
    }
}

/// Reading of a unit name (the core table first, then the later additions), or `None`.
pub fn unit_reading(unit: &[u8]) -> (r: Option<Vec<u8>>)
    ensures
        match first_unit_from(unit@, 0) {
            Some(i) => r matches Some(v) && v@ == unit_name_reading(i as u8),
            None => r is None,
        },
{
    let mut i: u8 = 0;
    while (i as usize) < UNIT_COUNT
        invariant
            i <= UNIT_COUNT,
            first_unit_from(unit@, 0) == first_unit_from(unit@, i as int),
        decreases UNIT_COUNT - i,
    {
        let (name, reading) = unit_entry(i);
        if bytes_eq(name.as_slice(), unit) {
            return Some(reading);
        }
        i = i + 1;
    }
    None
}

/// Words that count as a unit after a number: 》 ≫ > 〉 and the length/mass units m cm mm dm km fm nm g mg.
pub open spec fn unit_match_spec(u: Seq<u8>) -> bool {
    u == seq![0xa1u8, 0xd5u8]
        || u == seq![0xa2u8, 0xb9u8]
        || u == seq![0x3eu8]
        || u == seq![0xa1u8, 0xd3u8]
        || u == seq![0x6du8]
        || u == seq![0x63u8, 0x6du8]
        || u == seq![0x6du8, 0x6du8]
        || u == seq![0x64u8, 0x6du8]
        || u == seq![0x6bu8, 0x6du8]
        || u == seq![0x66u8, 0x6du8]
        || u == seq![0x6eu8, 0x6du8]
        || u == seq![0x67u8]
        || u == seq![0x6du8, 0x67u8]
}

/// Whether a word counts as a unit after a number.
pub fn unit_match(unit: &[u8]) -> (r: bool)
    ensures
        r == unit_match_spec(unit@),
{
    let w: Vec<u8> = vec![0xa1u8, 0xd5u8];
    assert(w@ =~= seq![0xa1u8, 0xd5u8]);
    if bytes_eq(w.as_slice(), unit) {
        return true;
    }
    let w: Vec<u8> = vec![0xa2u8, 0xb9u8];
    assert(w@ =~= seq![0xa2u8, 0xb9u8]);
    if bytes_eq(w.as_slice(), unit) {
        return true;
    }
    let w: Vec<u8> = vec![0x3eu8];
    assert(w@ =~= seq![0x3eu8]);
    if bytes_eq(w.as_slice(), unit) {
        return true;
    }
    let w: Vec<u8> = vec![0xa1u8, 0xd3u8];
    assert(w@ =~= seq![0xa1u8, 0xd3u8]);
    if bytes_eq(w.as_slice(), unit) {
        return true;
    }
    let w: Vec<u8> = vec![0x6du8];
    assert(w@ =~= seq![0x6du8]);
    if bytes_eq(w.as_slice(), unit) {
        return true;
    }
    let w: Vec<u8> = vec![0x63u8, 0x6du8];
    assert(w@ =~= seq![0x63u8, 0x6du8]);
    if bytes_eq(w.as_slice(), unit) {
        return true;
    }
    let w: Vec<u8> = vec![0x6du8, 0x6du8];
    assert(w@ =~= seq![0x6du8, 0x6du8]);
    if bytes_eq(w.as_slice(), unit) {
        return true;
    }
    let w: Vec<u8> = vec![0x64u8, 0x6du8];
    assert(w@ =~= seq![0x64u8, 0x6du8]);
    if bytes_eq(w.as_slice(), unit) {
        return true;
    }
    let w: Vec<u8> = vec![0x6bu8, 0x6du8];
    assert(w@ =~= seq![0x6bu8, 0x6du8]);
    if bytes_eq(w.as_slice(), unit) {
        return true;
    }
    let w: Vec<u8> = vec![0x66u8, 0x6du8];
    assert(w@ =~= seq![0x66u8, 0x6du8]);
    if bytes_eq(w.as_slice(), unit) {
        return true;
    }
    let w: Vec<u8> = vec![0x6eu8, 0x6du8];
    assert(w@ =~= seq![0x6eu8, 0x6du8]);
    if bytes_eq(w.as_slice(), unit) {
        return true;
    }
    let w: Vec<u8> = vec![0x67u8];
    assert(w@ =~= seq![0x67u8]);
    if bytes_eq(w.as_slice(), unit) {
        return true;
    }
    let w: Vec<u8> = vec![0x6du8, 0x67u8];
    assert(w@ =~= seq![0x6du8, 0x67u8]);
    if bytes_eq(w.as_slice(), unit) {
        return true;
    }
    false
}

/// Counted-number word `i` (empty entries are unused slots).
pub open spec fn digit_word_spec(i: u8) -> Seq<u8> {
    match i {
        0 => seq![0xc2u8, 0xd9u8], // 한
        1 => seq![0xbbu8, 0xabu8], // 십
        2 => seq![0xb9u8, 0xcau8], // 백
        3 => seq![0xbdu8, 0xe7u8], // 천
        4 => seq![0xb6u8, 0xedu8], // 만
        5 => seq![0xcau8, 0xcdu8], // 억
        6 => seq![0xbcu8, 0xbfu8], // 조
        7 => seq![0xcau8, 0xdeu8, 0xb5u8, 0xcdu8], // 여러
        8 => seq![0xbau8, 0xe3u8], // 수
        9 => seq![0xb7u8, 0xb8u8], // 몇
        10 => seq![0xcau8, 0xdeu8], // 여
        11 => Seq::<u8>::empty(), // sentinel
        12 => seq![0xa4u8, 0xa2u8], // ㄴ
        13 => seq![0xa4u8, 0xa4u8], // ㄹ
        14 => seq![0xa4u8, 0xa6u8], // ㅂ
        15 => seq![0xa4u8, 0xa5u8], // ㅁ
        16 => Seq::<u8>::empty(), // sentinel
        17 => Seq::<u8>::empty(), // NULL
        18 => seq![0xb1u8, 0xb6u8], // 개
        19 => seq![0xb0u8, 0xd7u8], // 곡
        20 => seq![0xc4u8, 0xfau8], // 끼
        21 => seq![0xbcu8, 0xb3u8], // 정
        22 => seq![0xb7u8, 0xbau8, 0xb1u8, 0xa4u8], // 모금
        23 => seq![0xb8u8, 0xd2u8], // 방
        24 => seq![0xb8u8, 0xdeu8], // 벌
        25 => seq![0xbbu8, 0xf6u8], // 잔
        26 => seq![0xb8u8, 0xefu8], // 병
        27 => seq![0xbdu8, 0xeau8], // 첩
        28 => seq![0xbau8, 0xacu8], // 상
        29 => seq![0xbbu8, 0xf4u8, 0xb5u8, 0xf1u8], // 자루
        30 => seq![0xbeu8, 0xa2u8], // 축
        31 => seq![0xbeu8, 0xc1u8], // 채
        32 => seq![0xbeu8, 0xf4u8], // 칸
        33 => seq![0xbfu8, 0xb8u8], // 코
        34 => seq![0xc0u8, 0xd2u8], // 통
        35 => seq![0xc4u8, 0xdau8], // 꼴
        36 => seq![0xbau8, 0xa6u8], // 살
        37 => seq![0xcau8, 0xb2u8], // 알
        38 => seq![0xc0u8, 0xcdu8], // 톤
        39 => seq![0xb0u8, 0xa1u8, 0xbcu8, 0xe8u8], // 가지
        _ => Seq::empty(),
    }
}

fn digit_word(i: u8) -> (r: Vec<u8>)
    requires
        i < 40,
    ensures
        r@ == digit_word_spec(i),
{
    match i {
        0 => vec![0xc2u8, 0xd9u8],
        1 => vec![0xbbu8, 0xabu8],
        2 => vec![0xb9u8, 0xcau8],
        3 => vec![0xbdu8, 0xe7u8],
        4 => vec![0xb6u8, 0xedu8],
        5 => vec![0xcau8, 0xcdu8],
        6 => vec![0xbcu8, 0xbfu8],
        7 => vec![0xcau8, 0xdeu8, 0xb5u8, 0xcdu8],
        8 => vec![0xbau8, 0xe3u8],
        9 => vec![0xb7u8, 0xb8u8],
        10 => vec![0xcau8, 0xdeu8],
        11 => Vec::<u8>::new(),
        12 => vec![0xa4u8, 0xa2u8],
        13 => vec![0xa4u8, 0xa4u8],
        14 => vec![0xa4u8, 0xa6u8],
        15 => vec![0xa4u8, 0xa5u8],
        16 => Vec::<u8>::new(),
        17 => Vec::<u8>::new(),
        18 => vec![0xb1u8, 0xb6u8],
        19 => vec![0xb0u8, 0xd7u8],
        20 => vec![0xc4u8, 0xfau8],
        21 => vec![0xbcu8, 0xb3u8],
        22 => vec![0xb7u8, 0xbau8, 0xb1u8, 0xa4u8],
        23 => vec![0xb8u8, 0xd2u8],
        24 => vec![0xb8u8, 0xdeu8],
        25 => vec![0xbbu8, 0xf6u8],
        26 => vec![0xb8u8, 0xefu8],
        27 => vec![0xbdu8, 0xeau8],
        28 => vec![0xbau8, 0xacu8],
        29 => vec![0xbbu8, 0xf4u8, 0xb5u8, 0xf1u8],
        30 => vec![0xbeu8, 0xa2u8],
        31 => vec![0xbeu8, 0xc1u8],
        32 => vec![0xbeu8, 0xf4u8],
        33 => vec![0xbfu8, 0xb8u8],
        34 => vec![0xc0u8, 0xd2u8],
        35 => vec![0xc4u8, 0xdau8],
        36 => vec![0xbau8, 0xa6u8],
        37 => vec![0xcau8, 0xb2u8],
        38 => vec![0xc0u8, 0xcdu8],
        39 => vec![0xb0u8, 0xa1u8, 0xbcu8, 0xe8u8],
        _ => Vec::new(),
    }
}

/// Counter word `i` of the prefix table (empty entries are unused slots).
pub open spec fn digit_prefix_spec(i: u8) -> Seq<u8> {
    match i {
        0 => seq![0xa4u8, 0xa2u8], // ㄴ
        1 => seq![0xa4u8, 0xa4u8], // ㄹ
        2 => seq![0xa4u8, 0xa6u8], // ㅂ
        3 => seq![0xa4u8, 0xa5u8], // ㅁ
        4 => Seq::<u8>::empty(), // sentinel
        5 => Seq::<u8>::empty(), // NULL
        6 => seq![0xb1u8, 0xb6u8], // 개
        7 => seq![0xb0u8, 0xd7u8], // 곡
        8 => seq![0xc4u8, 0xfau8], // 끼
        9 => seq![0xbcu8, 0xb3u8], // 정
        10 => seq![0xb7u8, 0xbau8, 0xb1u8, 0xa4u8], // 모금
        11 => seq![0xb8u8, 0xd2u8], // 방
        12 => seq![0xb8u8, 0xdeu8], // 벌
        13 => seq![0xbbu8, 0xf6u8], // 잔
        14 => seq![0xb8u8, 0xefu8], // 병
        15 => seq![0xbdu8, 0xeau8], // 첩
        16 => seq![0xbau8, 0xacu8], // 상
        17 => seq![0xbbu8, 0xf4u8, 0xb5u8, 0xf1u8], // 자루
        18 => seq![0xbeu8, 0xa2u8], // 축
        19 => seq![0xbeu8, 0xc1u8], // 채
        20 => seq![0xbeu8, 0xf4u8], // 칸
        21 => seq![0xbfu8, 0xb8u8], // 코
        22 => seq![0xc0u8, 0xd2u8], // 통
        23 => seq![0xc4u8, 0xdau8], // 꼴
        24 => seq![0xbau8, 0xa6u8], // 살
        25 => seq![0xcau8, 0xb2u8], // 알
        26 => seq![0xc0u8, 0xcdu8], // 톤
        27 => seq![0xb0u8, 0xa1u8, 0xbcu8, 0xe8u8], // 가지
        28 => seq![0xb1u8, 0xacu8], // 길
        29 => seq![0xb2u8, 0xd6u8], // 놈
        30 => seq![0xb4u8, 0xb0u8], // 돐
        31 => seq![0xb8u8, 0xdcu8, 0xc9u8, 0xe3u8], // 번째
        32 => seq![0xb9u8, 0xc9u8], // 배
        33 => seq![0xbbu8, 0xa4u8, 0xb0u8, 0xa3u8], // 시간
        34 => seq![0xbcu8, 0xd1u8], // 주
        35 => seq![0xbcu8, 0xb3u8, 0xb8u8, 0xf3u8], // 정보
        36 => seq![0xc9u8, 0xe3u8], // 째
        37 => seq![0xb7u8, 0xcdu8], // 문
        38 => seq![0xb6u8, 0xf0u8], // 말
        39 => seq![0xb7u8, 0xf4u8], // 매
        _ => Seq::empty(),
    }
}

fn digit_prefix(i: u8) -> (r: Vec<u8>)
    requires
        i < 40,
    ensures
        r@ == digit_prefix_spec(i),
{
    match i {
        0 => vec![0xa4u8, 0xa2u8],
        1 => vec![0xa4u8, 0xa4u8],
        2 => vec![0xa4u8, 0xa6u8],
        3 => vec![0xa4u8, 0xa5u8],
        4 => Vec::<u8>::new(),
        5 => Vec::<u8>::new(),
        6 => vec![0xb1u8, 0xb6u8],
        7 => vec![0xb0u8, 0xd7u8],
        8 => vec![0xc4u8, 0xfau8],
        9 => vec![0xbcu8, 0xb3u8],
        10 => vec![0xb7u8, 0xbau8, 0xb1u8, 0xa4u8],
        11 => vec![0xb8u8, 0xd2u8],
        12 => vec![0xb8u8, 0xdeu8],
        13 => vec![0xbbu8, 0xf6u8],
        14 => vec![0xb8u8, 0xefu8],
        15 => vec![0xbdu8, 0xeau8],
        16 => vec![0xbau8, 0xacu8],
        17 => vec![0xbbu8, 0xf4u8, 0xb5u8, 0xf1u8],
        18 => vec![0xbeu8, 0xa2u8],
        19 => vec![0xbeu8, 0xc1u8],
        20 => vec![0xbeu8, 0xf4u8],
        21 => vec![0xbfu8, 0xb8u8],
        22 => vec![0xc0u8, 0xd2u8],
        23 => vec![0xc4u8, 0xdau8],
        24 => vec![0xbau8, 0xa6u8],
        25 => vec![0xcau8, 0xb2u8],
        26 => vec![0xc0u8, 0xcdu8],
        27 => vec![0xb0u8, 0xa1u8, 0xbcu8, 0xe8u8],
        28 => vec![0xb1u8, 0xacu8],
        29 => vec![0xb2u8, 0xd6u8],
        30 => vec![0xb4u8, 0xb0u8],
        31 => vec![0xb8u8, 0xdcu8, 0xc9u8, 0xe3u8],
        32 => vec![0xb9u8, 0xc9u8],
        33 => vec![0xbbu8, 0xa4u8, 0xb0u8, 0xa3u8],
        34 => vec![0xbcu8, 0xd1u8],
        35 => vec![0xbcu8, 0xb3u8, 0xb8u8, 0xf3u8],
        36 => vec![0xc9u8, 0xe3u8],
        37 => vec![0xb7u8, 0xcdu8],
        38 => vec![0xb6u8, 0xf0u8],
        39 => vec![0xb7u8, 0xf4u8],
        _ => Vec::new(),
    }
}

/// Counted-number words, in table order.
pub fn digit_words() -> (r: Vec<Vec<u8>>)
    ensures
        r@.len() == 40,
        forall|i: int| 0 <= i < 40 ==> (#[trigger] r@[i])@ == digit_word_spec(i as u8),
{
    let mut out: Vec<Vec<u8>> = Vec::new();
    let mut i: u8 = 0;
    while i < 40
        invariant
            i <= 40,
            out@.len() == i,
            forall|j: int| 0 <= j < i ==> (#[trigger] out@[j])@ == digit_word_spec(j as u8),
        decreases 40 - i,
    {
        out.push(digit_word(i));
        i = i + 1;
    }
    out
}

/// Counter words of the prefix table, in table order.
pub fn digit_prefixes() -> (r: Vec<Vec<u8>>)
    ensures
        r@.len() == 40,
        forall|i: int| 0 <= i < 40 ==> (#[trigger] r@[i])@ == digit_prefix_spec(i as u8),
{
    let mut out: Vec<Vec<u8>> = Vec::new();
    let mut i: u8 = 0;
    while i < 40
        invariant
            i <= 40,
            out@.len() == i,
            forall|j: int| 0 <= j < i ==> (#[trigger] out@[j])@ == digit_prefix_spec(j as u8),
        decreases 40 - i,
    {
        out.push(digit_prefix(i));
        i = i + 1;
    }
    out
}

/// Index of the first non-empty counted-number word at or after `i` that occurs in `input`.
pub open spec fn first_digit_word_from(input: Seq<u8>, i: int) -> Option<int>
    decreases 40 - i,
{
    if i < 0 || i >= 40 {
        None
    } else if digit_word_spec(i as u8).len() > 0 && find_bytes_spec(input, digit_word_spec(i as u8)) is Some {
        Some(i)
    } else {
        first_digit_word_from(input, i + 1)
    }
}

/// Index of the first counted-number word (in table order) that occurs in `input`.
pub fn digit_word_hit(input: &[u8]) -> (r: Option<usize>)
    ensures
        r == match first_digit_word_from(input@, 0) {
            Some(i) => Some(i as usize),
            None => None::<usize>,
        },
{
    let mut i: u8 = 0;
    while i < 40
        invariant
            i <= 40,
            first_digit_word_from(input@, 0) == first_digit_word_from(input@, i as int),
        decreases 40 - i,
    {
        let w = digit_word(i);
        if w.len() > 0 {
            if find_bytes(input, w.as_slice()).is_some() {
                return Some(i as usize);
            }
        }
        i = i + 1;
    }
    None
}

/// One past the position of the first counter word (in table order) found in `input`, from `i` on; 0 when none is found.
pub open spec fn digit_prefix_from(input: Seq<u8>, i: int) -> int
    decreases 40 - i,
{
    if i < 0 || i >= 40 {
        0
    } else if digit_prefix_spec(i as u8).len() > 0 && find_bytes_spec(input, digit_prefix_spec(i as u8)) is Some {
        find_bytes_spec(input, digit_prefix_spec(i as u8)).unwrap() + 1
    } else {
        digit_prefix_from(input, i + 1)
    }
}

/// One past the position of the first counter word (in table order) found in `input`; 0 when none is found.
pub fn digit_prefix_len(input: &[u8]) -> (r: usize)
    ensures
        r == digit_prefix_from(input@, 0),
{
    let n = input.len();
    let mut i: u8 = 0;
    while i < 40
        invariant
            i <= 40,
            n == input@.len(),
            digit_prefix_from(input@, 0) == digit_prefix_from(input@, i as int),
        decreases 40 - i,
    {
        let w = digit_prefix(i);
        if w.len() > 0 {
            match find_bytes(input, w.as_slice()) {
                Some(pos) => {
                    return pos + 1;
                },
                None => {},
            }
        }
        i = i + 1;
    }
    0
}

/// Dictionary-key byte of a special code (bit 15 ignored): digits 0x30..=0x39 map to
/// 0x46..=0x4F, '-' to 0x45 and '.' to 0x44.
pub open spec fn special_key_spec(v: u16) -> Option<u8> {
    let u = v & 0x7fff;
    if 0x30 <= u <= 0x39 {
        Some((u + 0x16) as u8)
    } else if u == 0x2d {
        Some(0x45)
    } else if u == 0x2e {
        Some(0x44)
    } else {
        None
    }
}

/// Dictionary-key byte of a special code, or `None` when it has none.
pub fn special_to_key_char(v: u16) -> (r: Option<u8>)
    ensures
        r == special_key_spec(v),
{
    let u = v & 0x7fff;
    if 0x30 <= u && u <= 0x39 {
        assert((u as u8) as int == u);
        Some((u as u8) + 0x16)
    } else if u == 0x2d {
        Some(0x45)
    } else if u == 0x2e {
        Some(0x44)
    } else {
        None
    }
}

} // verus!
