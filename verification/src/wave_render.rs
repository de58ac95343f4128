//! PCM and WAV output encoding.
use vstd::prelude::*;
use crate::wav::{wav_header_bytes, wav_header_spec, WAV_HEADER_SIZE};
use crate::voice_info::u32_bytes;

verus! {

/// Output sample rate in Hz.
pub const SAMPLE_RATE: u32 = 22050;

/// Sample rate used when none is given.
pub const DEFAULT_SAMPLE_RATE: u32 = SAMPLE_RATE;

#[verifier::external_type_specification]
#[verifier::external_body]
pub struct ExIoError(std::io::Error);

/// Little-endian bytes of 16-bit samples.
pub open spec fn pcm_bytes(pcm: Seq<i16>) -> Seq<u8>
    decreases pcm.len(),
{
    if pcm.len() == 0 {
        Seq::empty()
    } else {
        let u = pcm.last() as u16;
        pcm_bytes(pcm.drop_last()) + seq![(u % 256) as u8, (u / 256) as u8]
    }
}

proof fn lemma_pcm_bytes_len(pcm: Seq<i16>)
    ensures
        pcm_bytes(pcm).len() == 2 * pcm.len(),
    decreases pcm.len(),
{
    if pcm.len() > 0 {
        lemma_pcm_bytes_len(pcm.drop_last());
    }
}

/// Mono PCM as little-endian 16-bit bytes (no header).
pub fn pcm_i16le_to_bytes(pcm: &[i16]) -> (r: Vec<u8>)
    ensures
        r@ == pcm_bytes(pcm@),
        r@.len() == 2 * pcm@.len(),
{
    let mut bytes: Vec<u8> = Vec::new();
    let mut i: usize = 0;
    while i < pcm.len()
        invariant
            i <= pcm@.len(),
            bytes@ == pcm_bytes(pcm@.subrange(0, i as int)),
        decreases pcm@.len() - i,
    {
        let u = pcm[i] as u16;
        bytes.push((u % 256) as u8);
        bytes.push((u / 256) as u8);
        assert(pcm@.subrange(0, i + 1).drop_last() =~= pcm@.subrange(0, i as int));
        i = i + 1;
    }
    assert(pcm@.subrange(0, pcm@.len() as int) =~= pcm@);
    proof {
        lemma_pcm_bytes_len(pcm@);
    }
    bytes
}

/// Header of a WAV file holding `pcm` at `sample_rate`, then the PCM bytes.
pub open spec fn wav_file_spec(pcm: Seq<i16>, sample_rate: u32) -> Seq<u8> {
    wav_header_spec((2 * pcm.len()) as u32, sample_rate) + pcm_bytes(pcm)
}

/// Encode mono 16-bit PCM as a WAV file; it always succeeds.
pub fn encode_wav_vec(pcm: &[i16], sample_rate: u32) -> (r: Result<Vec<u8>, std::io::Error>)
    requires
        2 * pcm@.len() + 0x30 <= u32::MAX,
        sample_rate * 2 <= u32::MAX,
    ensures
        r matches Ok(v) && v@ == wav_file_spec(pcm@, sample_rate),
{
    let data = pcm_i16le_to_bytes(pcm);
    let header = wav_header_bytes(data.len() as u32, sample_rate);
    let mut out: Vec<u8> = Vec::new();
    let mut i: usize = 0;
    while i < WAV_HEADER_SIZE
        invariant
            i <= WAV_HEADER_SIZE,
            out@ == header@.subrange(0, i as int),
        decreases WAV_HEADER_SIZE - i,
    {
        out.push(header[i]);
        i = i + 1;
        assert(out@ =~= header@.subrange(0, i as int));
    }
    let mut j: usize = 0;
    while j < data.len()
        invariant
            j <= data@.len(),
            out@ == header@ + data@.subrange(0, j as int),
        decreases data@.len() - j,
    {
        out.push(data[j]);
        j = j + 1;
        assert(out@ =~= header@ + data@.subrange(0, j as int));
    }
    assert(data@.subrange(0, data@.len() as int) =~= data@);
    Ok(out)
}

/// Little-endian 16-bit number at `o`.
pub open spec fn le16(s: Seq<u8>, o: int) -> int {
    s[o] + 256 * s[o + 1]
}

/// Little-endian 32-bit number at `o`.
pub open spec fn le32(s: Seq<u8>, o: int) -> int {
    s[o] + 256 * s[o + 1] + 65536 * s[o + 2] + 16777216 * s[o + 3]
}

proof fn lemma_le32_of_bytes(v: u32)
    ensures
        le32(u32_bytes(v), 0) == v,
{
    let b = u32_bytes(v);
    assert(b[0] == v % 256 && b[1] == (v / 256) % 256 && b[2] == (v / 65536) % 256 && b[3] == v / 16777216);
}

proof fn lemma_pcm_bytes_samples(pcm: Seq<i16>)
    ensures
        pcm_bytes(pcm).len() == 2 * pcm.len(),
        forall|k: int| 0 <= k < pcm.len() ==> #[trigger] le16(pcm_bytes(pcm), 2 * k) == (pcm[k] as u16) as int,
    decreases pcm.len(),
{
    lemma_pcm_bytes_len(pcm);
    if pcm.len() > 0 {
        let p = pcm.drop_last();
        lemma_pcm_bytes_samples(p);
        lemma_pcm_bytes_len(p);
        let b = pcm_bytes(pcm);
        let u = pcm.last() as u16;
        assert forall|k: int| 0 <= k < pcm.len() implies #[trigger] le16(pcm_bytes(pcm), 2 * k) == (pcm[k] as u16) as int by {
            if k < p.len() {
                assert(b[2 * k] == pcm_bytes(p)[2 * k] && b[2 * k + 1] == pcm_bytes(p)[2 * k + 1]);
                assert(le16(pcm_bytes(p), 2 * k) == (p[k] as u16) as int);
                assert(p[k] == pcm[k]);
            } else {
                assert(b[2 * k] == (u % 256) as u8 && b[2 * k + 1] == (u / 256) as u8);
            }
        }
    }
}

/// Fields of the header, read back as little-endian numbers.
proof fn lemma_header_fields(ds: u32, sample_rate: u32)
    requires
        ds + 0x30 <= u32::MAX,
        sample_rate * 2 <= u32::MAX,
    ensures
        wav_header_spec(ds, sample_rate).len() == 46,
        wav_header_spec(ds, sample_rate).subrange(0, 4) == seq![0x52u8, 0x49, 0x46, 0x46],
        le32(wav_header_spec(ds, sample_rate), 4) == ds + 0x30,
        wav_header_spec(ds, sample_rate).subrange(8, 16) == seq![0x57u8, 0x41, 0x56, 0x45, 0x66, 0x6d, 0x74, 0x20],
        le32(wav_header_spec(ds, sample_rate), 16) == 0x12,
        le16(wav_header_spec(ds, sample_rate), 20) == 1,
        le16(wav_header_spec(ds, sample_rate), 22) == 1,
        le32(wav_header_spec(ds, sample_rate), 24) == sample_rate,
        le32(wav_header_spec(ds, sample_rate), 28) == sample_rate * 2,
        le16(wav_header_spec(ds, sample_rate), 32) == 2,
        le16(wav_header_spec(ds, sample_rate), 34) == 16,
        le16(wav_header_spec(ds, sample_rate), 36) == 0,
        wav_header_spec(ds, sample_rate).subrange(38, 42) == seq![0x64u8, 0x61, 0x74, 0x61],
        le32(wav_header_spec(ds, sample_rate), 42) == ds,
{
    let h = wav_header_spec(ds, sample_rate);
    lemma_le32_of_bytes((ds + 0x30) as u32);
    lemma_le32_of_bytes(sample_rate);
    lemma_le32_of_bytes((sample_rate * 2) as u32);
    lemma_le32_of_bytes(ds);
    assert(h.subrange(0, 4) =~= seq![0x52u8, 0x49, 0x46, 0x46]);
    assert(h.subrange(8, 16) =~= seq![0x57u8, 0x41, 0x56, 0x45, 0x66, 0x6d, 0x74, 0x20]);
    assert(h.subrange(38, 42) =~= seq![0x64u8, 0x61, 0x74, 0x61]);
    assert(le32(h, 4) == le32(u32_bytes((ds + 0x30) as u32), 0));
    assert(le32(h, 24) == le32(u32_bytes(sample_rate), 0));
    assert(le32(h, 28) == le32(u32_bytes((sample_rate * 2) as u32), 0));
    assert(le32(h, 42) == le32(u32_bytes(ds), 0));
}

/// Layout of an encoded file, read back field by field: a RIFF/WAVE file whose `fmt ` chunk
/// describes PCM (format tag 1) with one channel of 16-bit samples at `sample_rate`, so that
/// each frame takes `channels * bits / 8` = 2 bytes and the byte rate is the sample rate
/// times that; the `data` chunk's size is the number of bytes after the 46-byte header, and
/// sample `k` is stored little-endian at byte `46 + 2k`.
pub proof fn lemma_wav_file_layout(pcm: Seq<i16>, sample_rate: u32)
    requires
        2 * pcm.len() + 0x30 <= u32::MAX,
        sample_rate * 2 <= u32::MAX,
    ensures
        wav_file_spec(pcm, sample_rate).len() == 46 + 2 * pcm.len(),
        wav_file_spec(pcm, sample_rate).subrange(0, 4) == seq![0x52u8, 0x49, 0x46, 0x46],
        le32(wav_file_spec(pcm, sample_rate), 4) == 2 * pcm.len() + 0x30,
        wav_file_spec(pcm, sample_rate).subrange(8, 16) == seq![0x57u8, 0x41, 0x56, 0x45, 0x66, 0x6d, 0x74, 0x20],
        le32(wav_file_spec(pcm, sample_rate), 16) == 0x12,
        le16(wav_file_spec(pcm, sample_rate), 20) == 1,
        le16(wav_file_spec(pcm, sample_rate), 22) == 1,
        le32(wav_file_spec(pcm, sample_rate), 24) == sample_rate,
        le16(wav_file_spec(pcm, sample_rate), 34) == 16,
        le16(wav_file_spec(pcm, sample_rate), 32) == le16(wav_file_spec(pcm, sample_rate), 22) * le16(
            wav_file_spec(pcm, sample_rate),
            34,
        ) / 8,
        le32(wav_file_spec(pcm, sample_rate), 28) == le32(wav_file_spec(pcm, sample_rate), 24) * le16(
            wav_file_spec(pcm, sample_rate),
            32,
        ),
        le16(wav_file_spec(pcm, sample_rate), 36) == 0,
        wav_file_spec(pcm, sample_rate).subrange(38, 42) == seq![0x64u8, 0x61, 0x74, 0x61],
        le32(wav_file_spec(pcm, sample_rate), 42) == wav_file_spec(pcm, sample_rate).len() - 46,
        forall|k: int|
            0 <= k < pcm.len() ==> #[trigger] le16(wav_file_spec(pcm, sample_rate), 46 + 2 * k) == (pcm[k] as u16) as int,
{
    let f = wav_file_spec(pcm, sample_rate);
    let ds = (2 * pcm.len()) as u32;
    let h = wav_header_spec(ds, sample_rate);
    lemma_pcm_bytes_samples(pcm);
    lemma_header_fields(ds, sample_rate);
    assert(f.subrange(0, 46) =~= h);
    assert(f.subrange(0, 4) =~= h.subrange(0, 4));
    assert(f.subrange(8, 16) =~= h.subrange(8, 16));
    assert(f.subrange(38, 42) =~= h.subrange(38, 42));
    assert(le32(f, 4) == le32(h, 4) && le32(f, 16) == le32(h, 16) && le32(f, 24) == le32(h, 24) && le32(f, 28)
        == le32(h, 28) && le32(f, 42) == le32(h, 42));
    assert(le16(f, 20) == le16(h, 20) && le16(f, 22) == le16(h, 22) && le16(f, 32) == le16(h, 32) && le16(f, 34)
        == le16(h, 34) && le16(f, 36) == le16(h, 36));
    assert forall|k: int| 0 <= k < pcm.len() implies #[trigger] le16(f, 46 + 2 * k) == (pcm[k] as u16) as int by {
        assert(f[46 + 2 * k] == pcm_bytes(pcm)[2 * k] && f[46 + 2 * k + 1] == pcm_bytes(pcm)[2 * k + 1]);
        assert(le16(pcm_bytes(pcm), 2 * k) == (pcm[k] as u16) as int);
    }
}

} // verus!
