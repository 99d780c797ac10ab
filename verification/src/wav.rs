//! Encoding a recording as a WAVE file (16-bit integer PCM), with hound.
use vstd::prelude::*;

use crate::capture::TARGET_SAMPLE_RATE;

verus! {

/// Little-endian bytes of a 16-bit unsigned value.
pub open spec fn le16(x: int) -> Seq<u8> {
    seq![(x % 256) as u8, ((x / 256) % 256) as u8]
}

/// Little-endian bytes of a 32-bit unsigned value.
pub open spec fn le32(x: int) -> Seq<u8> {
    seq![
        (x % 256) as u8,
        ((x / 256) % 256) as u8,
        ((x / 65536) % 256) as u8,
        ((x / 16777216) % 256) as u8,
    ]
}

/// The two's-complement bit pattern of a sample, as an unsigned value.
pub open spec fn sample_bits(s: i16) -> int {
    if s < 0 {
        s + 65536
    } else {
        s as int
    }
}

/// Samples as consecutive little-endian 16-bit words.
pub open spec fn pcm16_bytes(samples: Seq<i16>) -> Seq<u8>
    decreases samples.len(),
{
    if samples.len() == 0 {
        Seq::empty()
    } else {
        pcm16_bytes(samples.drop_last()) + le16(sample_bits(samples.last()))
    }
}

/// A WAVE file of 16-bit integer PCM: the RIFF header, a 16-byte `fmt `
/// chunk (format 1, channel count, sample rate, byte rate, block
/// alignment, 16 bits per sample), then the `data` chunk holding the
/// samples.
pub open spec fn pcm16_wav(channels: int, sample_rate: int, samples: Seq<i16>) -> Seq<u8> {
    let data_len: int = 2 * samples.len() as int;
    seq![0x52u8, 0x49, 0x46, 0x46] + le32(data_len + 36) + seq![0x57u8, 0x41, 0x56, 0x45]
        + seq![0x66u8, 0x6d, 0x74, 0x20] + le32(16) + le16(1) + le16(channels) + le32(sample_rate)
        + le32(sample_rate * 2 * channels) + le16(2 * channels) + le16(16) + seq![
        0x64u8,
        0x61,
        0x74,
        0x61,
    ] + le32(data_len) + pcm16_bytes(samples)
}

/// Largest number of 16-bit samples whose WAVE file sizes fit the format's
/// 32-bit length fields.
pub open spec fn max_wav_samples() -> int {
    (0xffff_ffff - 36) / 2
}

/// Calls hound's `WavWriter::new` over an in-memory `Cursor<Vec<u8>>` with
/// a 16-bit integer `WavSpec`, `write_sample` for each sample and
/// `finalize`. Hound's source writes, for at most two channels and 16 bits,
/// the 44-byte header with a 16-byte `fmt ` chunk, then each sample as a
/// little-endian word, and on `finalize` fills in the two length fields.
/// Writing into a `Cursor<Vec<u8>>` does not fail, and with the sizes in
/// `requires` none of hound's checks or 32-bit counters fails either, so
/// the contract claims success and the exact bytes.
#[verifier::external_body]
fn hound_write_pcm16(channels: u16, sample_rate: u32, samples: &[i16]) -> (res: Result<Vec<u8>, String>)
    requires
        1 <= channels <= 2,
        sample_rate > 0,
        sample_rate * 2 * channels <= 0xffff_ffff,
        samples@.len() as int % (channels as int) == 0,
        samples@.len() <= max_wav_samples(),
    ensures
        res is Ok,
        res matches Ok(bytes) ==> bytes@ == pcm16_wav(channels as int, sample_rate as int, samples@),
{
    let spec = hound::WavSpec { channels, sample_rate, bits_per_sample: 16, sample_format: hound::SampleFormat::Int };
    let mut cursor = std::io::Cursor::new(Vec::new());
    let mut writer = hound::WavWriter::new(&mut cursor, spec).map_err(|e| e.to_string())?;
    for &s in samples {
        writer.write_sample(s).map_err(|e| e.to_string())?;
    }
    writer.finalize().map_err(|e| e.to_string())?;
    Ok(cursor.into_inner())
}

/// The WAVE file of a recording: one channel at the target rate. An empty
/// recording is refused.
pub fn recording_wav(data: &[i16]) -> (res: Result<Vec<u8>, String>)
    requires
        data@.len() <= max_wav_samples(),
    ensures
        data@.len() == 0 ==> (res matches Err(e) && e@ == "没有音频数据"@),
        data@.len() > 0 ==> (res matches Ok(bytes) && bytes@ == pcm16_wav(1, 16000, data@)),
{
    if data.len() == 0 {
        return Err("没有音频数据".to_string());
    }
    hound_write_pcm16(1, TARGET_SAMPLE_RATE, data)
}

/// The file is the 44-byte header followed by two bytes per sample.
pub proof fn lemma_wav_len(channels: int, sample_rate: int, samples: Seq<i16>)
    ensures
        pcm16_wav(channels, sample_rate, samples).len() == 44 + 2 * samples.len(),
{
    lemma_pcm16_bytes_len(samples);
}

proof fn lemma_pcm16_bytes_len(samples: Seq<i16>)
    ensures
        pcm16_bytes(samples).len() == 2 * samples.len(),
    decreases samples.len(),
{
    if samples.len() > 0 {
        lemma_pcm16_bytes_len(samples.drop_last());
    }
}

/// Sample `i` of the recording is the little-endian word at byte `44 + 2 * i`
/// of its file, so the file gives back every sample in order.
pub proof fn lemma_wav_sample(channels: int, sample_rate: int, samples: Seq<i16>, i: int)
    requires
        0 <= i < samples.len(),
    ensures
        ({
            let f = pcm16_wav(channels, sample_rate, samples);
            f[44 + 2 * i] as int + 256 * (f[44 + 2 * i + 1] as int) == sample_bits(samples[i])
        }),
{
    lemma_pcm16_bytes_word(samples, i);
    lemma_pcm16_bytes_len(samples);
    let header = pcm16_wav(channels, sample_rate, Seq::<i16>::empty());
    let f = pcm16_wav(channels, sample_rate, samples);
    let body = pcm16_bytes(samples);
    assert(pcm16_bytes(Seq::<i16>::empty()) =~= Seq::<u8>::empty());
    assert(header.len() == 44);
    assert(f =~= header.subrange(0, 4) + le32(2 * samples.len() as int + 36) + header.subrange(8, 40) + le32(
        2 * samples.len() as int,
    ) + body);
    assert(f[44 + 2 * i] == body[2 * i]);
    assert(f[44 + 2 * i + 1] == body[2 * i + 1]);
}

proof fn lemma_pcm16_bytes_word(samples: Seq<i16>, i: int)
    requires
        0 <= i < samples.len(),
    ensures
        pcm16_bytes(samples).len() == 2 * samples.len(),
        pcm16_bytes(samples)[2 * i] as int + 256 * (pcm16_bytes(samples)[2 * i + 1] as int)
            == sample_bits(samples[i]),
    decreases samples.len(),
{
    lemma_pcm16_bytes_len(samples);
    lemma_pcm16_bytes_len(samples.drop_last());
    let x = sample_bits(samples.last());
    if i < samples.len() - 1 {
        lemma_pcm16_bytes_word(samples.drop_last(), i);
    } else {
        assert((x % 256) + 256 * ((x / 256) % 256) == x) by (nonlinear_arith)
            requires
                0 <= x < 65536,
        ;
    }
}

/// The 16-bit little-endian word at byte `at` of `f`.
pub open spec fn read_u16_le(f: Seq<u8>, at: int) -> int {
    f[at] as int + 256 * (f[at + 1] as int)
}

/// The 32-bit little-endian word at byte `at` of `f`.
pub open spec fn read_u32_le(f: Seq<u8>, at: int) -> int {
    f[at] as int + 256 * (f[at + 1] as int) + 65536 * (f[at + 2] as int) + 16777216 * (f[at + 3] as int)
}

/// The sample whose two's-complement bit pattern is `w`.
pub open spec fn word_sample(w: int) -> i16 {
    if w >= 32768 {
        (w - 65536) as i16
    } else {
        w as i16
    }
}

/// What a reader takes from a 44-byte-header WAVE file: the samples of its
/// `data` chunk, as many as the chunk's length field gives.
pub open spec fn wav_data_samples(f: Seq<u8>) -> Seq<i16> {
    Seq::new((read_u32_le(f, 40) / 2) as nat, |i: int| word_sample(read_u16_le(f, 44 + 2 * i)))
}

proof fn lemma_le16_decodes(x: int)
    requires
        0 <= x < 65536,
    ensures
        read_u16_le(le16(x), 0) == x,
{
    assert((x % 256) + 256 * ((x / 256) % 256) == x) by (nonlinear_arith)
        requires
            0 <= x < 65536,
    ;
}

proof fn lemma_le32_decodes(x: int)
    requires
        0 <= x < 0x1_0000_0000,
    ensures
        read_u32_le(le32(x), 0) == x,
{
    let q1 = x / 256;
    let q2 = x / 65536;
    let q3 = x / 16777216;
    assert(q1 == 256 * q2 + q1 % 256 && q2 == 256 * q3 + q2 % 256 && x == 256 * q1 + x % 256) by (
    nonlinear_arith)
        requires
            q1 == x / 256,
            q2 == x / 65536,
            q3 == x / 16777216,
            0 <= x,
    ;
    assert(q3 < 256 && q3 % 256 == q3) by (nonlinear_arith)
        requires
            q3 == x / 16777216,
            0 <= x < 0x1_0000_0000,
    ;
    assert((x / 256) % 256 == q1 % 256);
    assert((x / 65536) % 256 == q2 % 256);
}

/// Reading back the file of a recording gives what was written: 16-bit
/// integer PCM (format 1) with the channel count and sample rate it was
/// written with, a `data` chunk of two bytes per sample, and exactly the
/// samples, in order.
pub proof fn lemma_wav_round_trip(channels: int, sample_rate: int, samples: Seq<i16>)
    requires
        1 <= channels <= 2,
        0 < sample_rate,
        sample_rate * 2 * channels <= 0xffff_ffff,
        samples.len() <= max_wav_samples(),
    ensures
        ({
            let f = pcm16_wav(channels, sample_rate, samples);
            &&& f.len() == 44 + 2 * samples.len()
            &&& f.subrange(0, 4) == seq![0x52u8, 0x49, 0x46, 0x46]
            &&& f.subrange(8, 16) == seq![0x57u8, 0x41, 0x56, 0x45, 0x66, 0x6d, 0x74, 0x20]
            &&& f.subrange(36, 40) == seq![0x64u8, 0x61, 0x74, 0x61]
            &&& read_u32_le(f, 4) == 2 * samples.len() + 36
            &&& read_u32_le(f, 16) == 16
            &&& read_u16_le(f, 20) == 1
            &&& read_u16_le(f, 22) == channels
            &&& read_u32_le(f, 24) == sample_rate
            &&& read_u16_le(f, 34) == 16
            &&& read_u32_le(f, 40) == 2 * samples.len()
            &&& wav_data_samples(f) == samples
        }),
{
    let f = pcm16_wav(channels, sample_rate, samples);
    let n = samples.len() as int;
    lemma_wav_len(channels, sample_rate, samples);
    lemma_pcm16_bytes_len(samples);
    let body = pcm16_bytes(samples);
    let header = seq![0x52u8, 0x49, 0x46, 0x46] + le32(2 * n + 36) + seq![0x57u8, 0x41, 0x56, 0x45]
        + seq![0x66u8, 0x6d, 0x74, 0x20] + le32(16) + le16(1) + le16(channels) + le32(sample_rate)
        + le32(sample_rate * 2 * channels) + le16(2 * channels) + le16(16) + seq![
        0x64u8,
        0x61,
        0x74,
        0x61,
    ] + le32(2 * n);
    assert(f =~= header + body);
    assert(header.len() == 44);
    lemma_le32_decodes(2 * n + 36);
    lemma_le32_decodes(16);
    lemma_le16_decodes(1);
    lemma_le16_decodes(channels);
    lemma_le32_decodes(sample_rate);
    lemma_le16_decodes(16);
    lemma_le32_decodes(2 * n);
    assert(f.subrange(4, 8) =~= le32(2 * n + 36));
    assert(f.subrange(16, 20) =~= le32(16));
    assert(f.subrange(20, 22) =~= le16(1));
    assert(f.subrange(22, 24) =~= le16(channels));
    assert(f.subrange(24, 28) =~= le32(sample_rate));
    assert(f.subrange(34, 36) =~= le16(16));
    assert(f.subrange(40, 44) =~= le32(2 * n));
    assert(f.subrange(0, 4) =~= seq![0x52u8, 0x49, 0x46, 0x46]);
    assert(f.subrange(8, 16) =~= seq![0x57u8, 0x41, 0x56, 0x45, 0x66, 0x6d, 0x74, 0x20]);
    assert(f.subrange(36, 40) =~= seq![0x64u8, 0x61, 0x74, 0x61]);
    assert(read_u32_le(f, 4) == read_u32_le(f.subrange(4, 8), 0));
    assert(read_u32_le(f, 16) == read_u32_le(f.subrange(16, 20), 0));
    assert(read_u16_le(f, 20) == read_u16_le(f.subrange(20, 22), 0));
    assert(read_u16_le(f, 22) == read_u16_le(f.subrange(22, 24), 0));
    assert(read_u32_le(f, 24) == read_u32_le(f.subrange(24, 28), 0));
    assert(read_u16_le(f, 34) == read_u16_le(f.subrange(34, 36), 0));
    assert(read_u32_le(f, 40) == read_u32_le(f.subrange(40, 44), 0));
    assert forall|i: int| 0 <= i < n implies #[trigger] wav_data_samples(f)[i] == samples[i] by {
        lemma_wav_sample(channels, sample_rate, samples, i);
        let s = samples[i];
        assert(word_sample(sample_bits(s)) == s);
    }
    assert(wav_data_samples(f) =~= samples);
}

} // verus!
