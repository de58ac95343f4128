//! WAV container layout: a 46-byte header (WAVEFORMATEX `fmt ` chunk) followed by PCM data.
//!
//! Header: "RIFF" | u32(data + 0x30) | "WAVE" | "fmt " | u32(0x12) | u16(1) | u16(1) |
//! u32(rate) | u32(rate * 2) | u16(2) | u16(16) | u16(0) | "data" | u32(data size).
use vstd::prelude::*;
use crate::voice_info::u32_bytes;

verus! {

/// Size of the WAV header in bytes.
pub const WAV_HEADER_SIZE: usize = 46;

/// Data size after which output is continued in a new file.
pub const SPLIT_THRESHOLD_BYTES: u64 = 26_000_000;

/// Output sample rate in Hz.
pub const SAMPLE_RATE: u32 = 22050;

/// The 46 header bytes for `data_size` bytes of mono 16-bit PCM at `sample_rate`.
pub open spec fn wav_header_spec(data_size: u32, sample_rate: u32) -> Seq<u8> {
    let riff = u32_bytes((data_size + 0x30) as u32);
    let rate = u32_bytes(sample_rate);
    let bps = u32_bytes((sample_rate * 2) as u32);
    let ds = u32_bytes(data_size);
    seq![
        0x52u8, 0x49, 0x46, 0x46, riff[0], riff[1], riff[2], riff[3],
        0x57, 0x41, 0x56, 0x45, 0x66, 0x6d, 0x74, 0x20,
        0x12, 0, 0, 0, 1, 0, 1, 0,
        rate[0], rate[1], rate[2], rate[3], bps[0], bps[1], bps[2], bps[3],
        2, 0, 16, 0, 0, 0,
        0x64, 0x61, 0x74, 0x61, ds[0], ds[1], ds[2], ds[3],
    ]
}

fn put_u32(h: &mut [u8; 46], o: usize, v: u32)
    requires
        o + 4 <= 46,
    ensures
        final(h)@ == old(h)@.update(o as int, u32_bytes(v)[0]).update(o + 1, u32_bytes(v)[1]).update(
            o + 2,
            u32_bytes(v)[2],
        ).update(o + 3, u32_bytes(v)[3]),
{
    h[o] = (v % 256) as u8;
    h[o + 1] = ((v / 256) % 256) as u8;
    h[o + 2] = ((v / 65536) % 256) as u8;
    h[o + 3] = (v / 16777216) as u8;
}

/// The 46-byte WAV header for `data_size` bytes of mono 16-bit PCM at `sample_rate`.
pub fn wav_header_bytes(data_size: u32, sample_rate: u32) -> (r: [u8; WAV_HEADER_SIZE])
    requires
        data_size + 0x30 <= u32::MAX,
        sample_rate * 2 <= u32::MAX,
    ensures
        r@ == wav_header_spec(data_size, sample_rate),
{
    let mut h: [u8; WAV_HEADER_SIZE] = [
        0x52, 0x49, 0x46, 0x46, 0, 0, 0, 0,
        0x57, 0x41, 0x56, 0x45, 0x66, 0x6d, 0x74, 0x20,
        0x12, 0, 0, 0, 1, 0, 1, 0,
        0, 0, 0, 0, 0, 0, 0, 0,
        2, 0, 16, 0, 0, 0,
        0x64, 0x61, 0x74, 0x61, 0, 0, 0, 0,
    ];
    put_u32(&mut h, 4, data_size + 0x30);
    put_u32(&mut h, 24, sample_rate);
    put_u32(&mut h, 28, sample_rate * 2);
    put_u32(&mut h, 42, data_size);
    assert(h@ =~= wav_header_spec(data_size, sample_rate));
    h
}

} // verus!
