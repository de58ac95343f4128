use mirae_tts_engine::pipeline::EngineConfig;
use mirae_tts_engine::{truncate_last_line_char, TtsConfig};

#[test]
fn config_mapping_speed() {
    let cfg = TtsConfig {
        sample_rate: 22050,
        ..Default::default()
    };
    let inner = EngineConfig::from_public(&cfg);
    assert_eq!(inner.speed, 50);
    assert_eq!(cfg.sample_rate / 441, 50);
}

#[test]
fn truncate_strips_trailing_newlines_only() {
    assert_eq!(truncate_last_line_char("가\n"), "가");
    assert_eq!(truncate_last_line_char("a\r\n"), "a");
    assert_eq!(truncate_last_line_char("\n"), "");
}
