//! Public engine configuration.
use vstd::prelude::*;

verus! {

/// Settings of a synthesis engine.
#[derive(Debug, Clone)]
pub struct TtsConfig {
    /// Output sample rate in Hz.
    pub sample_rate: u32,
    /// Sentence-end pause in samples (accepted, not applied).
    pub sentence_pause: i16,
    /// Whether progress is logged.
    pub log_progress: bool,
}

impl Default for TtsConfig {
    fn default() -> (r: Self)
        ensures
            r.sample_rate == 22050,
            r.sentence_pause == 4000,
            !r.log_progress,
    {
        TtsConfig { sample_rate: 22050, sentence_pause: 4000, log_progress: false }
    }
}

} // verus!
