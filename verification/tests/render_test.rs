use mirae_tts_engine::render::{is_real_phoneme, Chunk, ChunkRing};
use mirae_tts_engine::{RING_MAX_BYTES, RING_SLOTS};

#[test]
fn is_real_phoneme_table() {
    assert!(!is_real_phoneme(0, 1));
    assert!(!is_real_phoneme(0, 4));
    assert!(!is_real_phoneme(0, 6));
    assert!(!is_real_phoneme(0, 0x10));
    assert!(!is_real_phoneme(0, 0xc));
    assert!(!is_real_phoneme(0, 0x12));
    assert!(!is_real_phoneme(0, 8));
    assert!(!is_real_phoneme(0, 9));
    assert!(!is_real_phoneme(0, 10));
    assert!(!is_real_phoneme(0, 0xb));
    assert!(!is_real_phoneme(0, 0xd));
    assert!(!is_real_phoneme(0, 0xe));
    assert!(!is_real_phoneme(0, 0x11));
    assert!(!is_real_phoneme(6, 3));
    assert!(is_real_phoneme(7, 3));
    assert!(is_real_phoneme(0, 0));
    assert!(is_real_phoneme(0x1b, 0));
    assert!(is_real_phoneme(0, 2));
    assert!(is_real_phoneme(0, 5));
}

#[test]
fn chunk_ring_20_slots_and_1mb_limit() {
    let mut ring = ChunkRing::new();
    assert!(ring.is_empty());
    assert_eq!(ring.len(), 0);

    for i in 0..RING_SLOTS - 1 {
        assert!(ring.push(Chunk::new(vec![i as u8; 16])));
    }
    assert_eq!(ring.len(), RING_SLOTS - 1);
    assert!(!ring.can_push(16), "リング full では push できない");
    assert!(!ring.push(Chunk::new(vec![0xff; 16])));

    let mut ring2 = ChunkRing::new();
    assert!(ring2.push(Chunk::new(vec![0u8; 700_000])));
    assert!(ring2.push(Chunk::new(vec![0u8; 300_000])));
    assert_eq!(ring2.total_bytes(), 1_000_000);
    assert!(
        ring2.can_push(48_575),
        "総量+size = 1,048,575 はぎりぎり許容 (<= 0xFFFFF)"
    );
    assert!(
        !ring2.can_push(48_576),
        "総量 > 1MB (0xFFFFF) では push できない"
    );
    assert!(!ring2.push(Chunk::new(vec![0u8; 48_576])));
    assert_eq!(ring2.total_bytes(), 1_000_000);
    assert!(ring2.total_bytes() <= RING_MAX_BYTES);

    let popped: Vec<usize> = std::iter::from_fn(|| ring.pop().map(|c| c.data.len())).collect();
    assert_eq!(popped.len(), RING_SLOTS - 1);
    assert!(ring.is_empty());
    assert_eq!(ring.total_bytes(), 0);
    assert!(ring.pop().is_none());
}

