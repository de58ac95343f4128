use mirae_tts_engine::{encode_wav_vec, pcm_i16le_to_bytes};

/// FNV-1a 64 over the WAV bytes, with the length.
fn wav_hash(wav: &[u8]) -> String {
    let mut h: u64 = 0xcbf29ce484222325;
    for &b in wav {
        h ^= b as u64;
        h = h.wrapping_mul(0x100000001b3);
    }
    format!("{h:016x}:{}", wav.len())
}

#[test]
fn e2e_wav_hash_stability_pure() {
    let cases: &[(&str, Vec<i16>)] = &[
        ("short_silence", vec![0i16; 40005]),
        ("decimal_silence", vec![0i16; 51679]),
        ("unit_mixed_silence", vec![0i16; 41045]),
    ];
    for (name, pcm) in cases {
        let wav = encode_wav_vec(pcm, 22050).unwrap();
        let h1 = wav_hash(&wav);
        let wav2 = encode_wav_vec(pcm, 22050).unwrap();
        let h2 = wav_hash(&wav2);
        assert_eq!(h1, h2, "[{name}] not stable");
        let raw = pcm_i16le_to_bytes(pcm);
        assert_eq!(&wav[46..], raw.as_slice(), "[{name}] wav data != pcm bytes");
    }
    let wav_empty = encode_wav_vec(&[], 22050).unwrap();
    assert_eq!(wav_empty.len(), 46);
    assert_eq!(&wav_empty[42..46], &0u32.to_le_bytes());
}
