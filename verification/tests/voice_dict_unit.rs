use mirae_tts_engine::voice_dict::MiraeDict;

fn build_sample_raw() -> Vec<u8> {
    // Build a minimal valid Dict buffer via the Dict format (same as the old MiraeDict sample
    // but using Dict's sub-struct layout). We keep the test lenient: just verify parse round-trips.
    // Construct n1=2, n2=8 (one tail entry: key "" + x=0,y=0), sub_a with 2 records, sub_b empty.
    let mut d = Vec::new();
    d.extend_from_slice(&2u32.to_le_bytes()); // n1
    d.extend_from_slice(&8u32.to_le_bytes()); // n2 (tail bytes)
    d.extend_from_slice(&[0u8; 8]); // base (2 *4)
    d.extend_from_slice(&[0u8; 2]); // check
    // tail: empty string + entry [x=0,y=0,0 padding? actual tail = [0][x_lo,x_hi,y] ?? dict's tail_string expects NUL-terminated string then 3 bytes
    // tail entry for off 0: string "" -> [0] then TailEntry bytes [0,0,0]
    // So total 4 bytes; pad remaining 4 bytes with zeros
    d.extend_from_slice(&[0u8, 0u8, 0u8, 0u8, 0u8, 0u8, 0u8, 0u8]);
    // sub_a: count=2, npairs=0, records=2*6
    d.extend_from_slice(&2u32.to_le_bytes());
    d.extend_from_slice(&0u32.to_le_bytes());
    d.extend_from_slice(&[0u8; 12]); // 2*6 zeros
    // sub_b: count=0, npairs=0
    d.extend_from_slice(&0u32.to_le_bytes());
    d.extend_from_slice(&0u32.to_le_bytes());
    d
}

#[test]
fn wrapper_parse_roundtrip() {
    let d = build_sample_raw();
    let dict = MiraeDict::parse(&d).expect("parse");
    assert_eq!(dict.rec6_count(), 2);
    assert_eq!(dict.rec26_count(), 0);
}
