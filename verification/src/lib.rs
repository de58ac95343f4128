//! Text-to-speech front end and synthesis helpers for the Mirae engine.
pub mod alphabet;
pub mod connect;
pub mod dict;
pub mod g2p;
pub mod number;
pub mod keypad;
pub mod korean;
pub mod kps9566;
pub mod record;
pub mod segmenter;
pub mod speech;
pub mod text;
pub mod tone;
pub mod unit_select;
pub mod voice_info;
pub mod voice_dict;
pub mod wav;
pub mod wave_render;
pub mod render;
pub mod chunk_order;
pub mod render_plan;
pub mod pipeline;
pub mod synthesis;
pub mod synthesizer;

pub use pipeline::truncate_last_line_char;
pub use render::{RING_MAX_BYTES, RING_SLOTS};
pub use synthesizer::TtsConfig;
pub use wave_render::{encode_wav_vec, pcm_i16le_to_bytes, DEFAULT_SAMPLE_RATE, SAMPLE_RATE};
