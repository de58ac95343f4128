use mirae_tts_engine::{encode_wav_vec, pcm_i16le_to_bytes};
#[test]
fn pcm_i16le_to_bytes_roundtrip() {
    let pcm = vec![0i16, -1, 1, 0x1234, -0x5678];
    let bytes = pcm_i16le_to_bytes(&pcm);
    assert_eq!(bytes.len(), pcm.len() * 2);
    assert_eq!(bytes, [0, 0, 0xff, 0xff, 1, 0, 0x34, 0x12, 0x88, 0xa9]);
}

#[test]
fn encode_wav_vec_header_is_46_bytes() {
    let wav = encode_wav_vec(&[0i16; 100], 22050).unwrap();
    assert_eq!(wav.len(), 46 + 200);
    assert_eq!(&wav[0..4], b"RIFF");
    assert_eq!(&wav[8..12], b"WAVE");
    assert_eq!(&wav[12..16], b"fmt ");
    assert_eq!(&wav[16..20], &0x12u32.to_le_bytes()); // fmt chunk = 18 (WAVEFORMATEX)
    assert_eq!(&wav[24..28], &22050u32.to_le_bytes());
    assert_eq!(&wav[28..32], &(22050u32 * 2).to_le_bytes());
    assert_eq!(&wav[38..42], b"data");
    assert_eq!(&wav[42..46], &200u32.to_le_bytes());
    assert_eq!(&wav[4..8], &(200u32 + 0x30).to_le_bytes()); // RIFF size quirk
}
