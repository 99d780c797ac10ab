//! The capture buffer that the audio callback fills: recording on/off,
//! rate conversion to 16 kHz by exact phase accumulation, and the
//! ten-minute cap on a recording.
use vstd::prelude::*;

verus! {

/// Rate of the recordings this library keeps, in samples per second.
pub const TARGET_SAMPLE_RATE: u32 = 16000;

/// Longest recording kept: ten minutes at the target rate.
pub const MAX_RECORDING_SAMPLES: usize = 16000 * 60 * 10;

/// Commands the controlling side sends to the capture side.
#[derive(Clone, Copy)]
pub enum AudioCommand {
    Start,
    Stop,
}

/// `TARGET_SAMPLE_RATE` as a mathematical integer.
pub open spec fn target() -> int {
    16000
}

/// `MAX_RECORDING_SAMPLES` as a mathematical integer.
pub open spec fn max_samples() -> int {
    9_600_000
}

/// Division rounding toward zero, as a cast from a real number to an integer does.
pub open spec fn trunc_div(a: int, b: int) -> int {
    if a >= 0 {
        a / b
    } else {
        -((-a) / b)
    }
}

/// The sample that lies the fraction `r / 16000` of the way from `s0` to `s1`,
/// rounded toward zero.
pub open spec fn interpolate(s0: i16, s1: i16, r: int) -> i16 {
    trunc_div(s0 * target() + r * (s1 - s0), target()) as i16
}

/// The value the resampler takes at position `pos` of a block, where `pos`
/// counts sixteen-thousandths of an input sample. Inside the block it
/// interpolates linearly between neighbours; at the last sample of the block
/// it takes that sample as it is.
pub open spec fn sample_at(data: Seq<i16>, pos: int) -> i16 {
    let idx = pos / target();
    let r = pos % target();
    if idx + 1 < data.len() {
        interpolate(data[idx], data[idx + 1], r)
    } else {
        data[idx]
    }
}

/// How many output samples a block of `n` input samples yields when the
/// next output lies at position `phase` and outputs lie `rate` apart:
/// the number of `j >= 0` with `phase + j * rate < n * 16000`.
pub open spec fn outputs_in_block(phase: int, rate: int, n: int) -> int {
    if phase < n * target() {
        (n * target() - phase + rate - 1) / rate
    } else {
        0
    }
}

/// The lesser of two integers.
pub open spec fn min_int(a: int, b: int) -> int {
    if a <= b {
        a
    } else {
        b
    }
}

/// Samples after a block is taken in at the target rate: as many of its
/// samples as fit under the cap are appended.
pub open spec fn copy_block(samples: Seq<i16>, data: Seq<i16>) -> Seq<i16> {
    samples + data.take(min_int(data.len() as int, max_samples() - samples.len()))
}

/// How many outputs a resampled block appends: all it yields, or as many as
/// fit under the cap.
pub open spec fn resampled_count(samples: Seq<i16>, phase: int, rate: int, data: Seq<i16>) -> int {
    min_int(outputs_in_block(phase, rate, data.len() as int), max_samples() - samples.len())
}

/// Samples after a block is resampled: the outputs at positions
/// `phase, phase + rate, ...` within the block, as far as the cap allows.
pub open spec fn resample_samples(samples: Seq<i16>, phase: int, rate: int, data: Seq<i16>) -> Seq<i16> {
    let k = resampled_count(samples, phase, rate, data);
    samples + Seq::new(k as nat, |j: int| sample_at(data, phase + j * rate))
}

/// Phase after a block is resampled: where the next output lies, counted
/// from the start of the next block. Once the cap has cut a block short no
/// further input is taken, and the phase is zero.
pub open spec fn resample_phase(samples: Seq<i16>, phase: int, rate: int, data: Seq<i16>) -> int {
    let k = resampled_count(samples, phase, rate, data);
    let end = phase + k * rate;
    if end >= data.len() * target() {
        end - data.len() * target()
    } else {
        0
    }
}

/// Samples after one block of input arrives.
pub open spec fn samples_after_input(
    recording: bool,
    samples: Seq<i16>,
    phase: int,
    rate: int,
    data: Seq<i16>,
) -> Seq<i16> {
    if !recording || samples.len() >= max_samples() {
        samples
    } else if rate == target() {
        copy_block(samples, data)
    } else {
        resample_samples(samples, phase, rate, data)
    }
}

/// Phase after one block of input arrives.
pub open spec fn phase_after_input(
    recording: bool,
    samples: Seq<i16>,
    phase: int,
    rate: int,
    data: Seq<i16>,
) -> int {
    if !recording || samples.len() >= max_samples() || rate == target() {
        phase
    } else {
        resample_phase(samples, phase, rate, data)
    }
}

/// Sum of the magnitudes of the samples of a block.
pub open spec fn abs_sum(data: Seq<i16>) -> int
    decreases data.len(),
{
    if data.len() == 0 {
        0
    } else {
        abs_sum(data.drop_last()) + (if data.last() < 0 {
            -data.last()
        } else {
            data.last() as int
        })
    }
}

/// An interpolated sample lies between its two neighbours.
pub proof fn lemma_interpolate_between(s0: i16, s1: i16, r: int)
    requires
        0 <= r < target(),
    ensures
        min_int(s0 as int, s1 as int) <= trunc_div(s0 * target() + r * (s1 - s0), target()),
        trunc_div(s0 * target() + r * (s1 - s0), target()) <= if s0 <= s1 {
            s1 as int
        } else {
            s0 as int
        },
{
    let lo = min_int(s0 as int, s1 as int);
    let hi = if s0 <= s1 {
        s1 as int
    } else {
        s0 as int
    };
    let num = s0 * 16000 + r * (s1 - s0);
    assert(lo * 16000 <= num <= hi * 16000) by (nonlinear_arith)
        requires
            0 <= r < 16000,
            lo <= s0 <= hi,
            lo <= s1 <= hi,
            num == s0 * 16000 + r * (s1 - s0),
            lo == s0 || lo == s1,
            hi == s0 || hi == s1,
    ;
    if num >= 0 {
        assert(lo <= num / 16000 <= hi) by (nonlinear_arith)
            requires
                lo * 16000 <= num <= hi * 16000,
                num >= 0,
        ;
    } else {
        let m = -num;
        assert(-hi <= m / 16000 <= -lo) by (nonlinear_arith)
            requires
                -hi * 16000 <= m <= -lo * 16000,
                m > 0,
        ;
    }
}

/// An interpolated sample is the exact point `s0 + (s1 - s0) * r / 16000`
/// rounded toward zero: sixteen thousand times it is within one step of
/// the exact value, on the side of zero; at `r == 0` it is `s0` itself.
pub proof fn lemma_interpolate_rounds_toward_zero(s0: i16, s1: i16, r: int)
    requires
        0 <= r < target(),
    ensures
        ({
            let num = s0 * target() + r * (s1 - s0);
            let v = interpolate(s0, s1, r) as int;
            (num >= 0 ==> v * target() <= num < v * target() + target()) && (num < 0 ==> v * target()
                - target() < num <= v * target())
        }),
        r == 0 ==> interpolate(s0, s1, r) == s0,
{
    lemma_interpolate_between(s0, s1, r);
    let num = s0 * 16000 + r * (s1 - s0);
    let v = trunc_div(num, 16000);
    assert(interpolate(s0, s1, r) as int == v);
    if num >= 0 {
        assert(v * 16000 <= num < v * 16000 + 16000) by (nonlinear_arith)
            requires
                num >= 0,
                v == num / 16000,
        ;
    } else {
        let m = -num;
        assert(v * 16000 - 16000 < num <= v * 16000) by (nonlinear_arith)
            requires
                m > 0,
                num == -m,
                v == -(m / 16000),
        ;
    }
    if r == 0 {
        assert(num == s0 * 16000);
        assert(trunc_div(s0 * 16000, 16000) == s0) by (nonlinear_arith);
    }
}

/// The count of outputs in a block is the least `j` whose position
/// `phase + j * rate` lies at or past the end of the block.
pub proof fn lemma_outputs_in_block(phase: int, rate: int, n: int, j: int)
    requires
        0 <= phase,
        rate > 0,
        0 <= n,
        0 <= j,
        j == 0 || phase + (j - 1) * rate < n * target(),
    ensures
        j <= outputs_in_block(phase, rate, n),
        phase + j * rate >= n * target() ==> j == outputs_in_block(phase, rate, n),
{
    let b = n * 16000;
    if phase < b {
        let c = (b - phase + rate - 1) / rate;
        assert(c * rate <= b - phase + rate - 1 < (c + 1) * rate) by (nonlinear_arith)
            requires
                c == (b - phase + rate - 1) / rate,
                rate > 0,
                b - phase + rate - 1 >= 0,
        ;
        if j > 0 {
            assert(j <= c) by (nonlinear_arith)
                requires
                    phase + (j - 1) * rate < b,
                    c * rate <= b - phase + rate - 1 < (c + 1) * rate,
                    rate > 0,
            ;
        }
        if phase + j * rate >= b {
            assert(j >= c) by (nonlinear_arith)
                requires
                    phase + j * rate >= b,
                    c * rate <= b - phase + rate - 1,
                    rate > 0,
            ;
        }
    } else {
        if j > 0 {
            assert((j - 1) * rate >= 0) by (nonlinear_arith)
                requires
                    j >= 1,
                    rate > 0,
            ;
        }
    }
}

/// `interpolate` computed on machine integers.
fn interpolate_exec(s0: i16, s1: i16, r: u64) -> (v: i16)
    requires
        r < 16000,
    ensures
        v == interpolate(s0, s1, r as int),
{
    let a: i64 = (s0 as i64) * 16000;
    let d: i64 = (s1 as i64) - (s0 as i64);
    assert(-65535 * 16000 <= (r as i64) * d <= 65535 * 16000) by (nonlinear_arith)
        requires
            0 <= r < 16000,
            -65535 <= d <= 65535,
    ;
    let num: i64 = a + (r as i64) * d;
    let q: i64 = if num >= 0 {
        num / 16000
    } else {
        -((-num) / 16000)
    };
    proof {
        lemma_interpolate_between(s0, s1, r as int);
    }
    q as i16
}

/// Total number of input samples in a sequence of blocks.
pub open spec fn total_len(blocks: Seq<Seq<i16>>) -> int
    decreases blocks.len(),
{
    if blocks.len() == 0 {
        0
    } else {
        total_len(blocks.drop_last()) + blocks.last().len()
    }
}

/// The resampler's value at position `pos` of the stream made of `blocks`
/// one after another (positions in sixteen-thousandths of an input sample):
/// the value at the matching position of the block that holds it.
pub open spec fn stream_sample(blocks: Seq<Seq<i16>>, pos: int) -> i16
    decreases blocks.len(),
{
    if blocks.len() == 0 {
        0
    } else if pos >= total_len(blocks.drop_last()) * target() {
        sample_at(blocks.last(), pos - total_len(blocks.drop_last()) * target())
    } else {
        stream_sample(blocks.drop_last(), pos)
    }
}

/// Samples and phase of a recording after the blocks arrive one by one,
/// starting from `samples` and `phase`.
pub open spec fn feed(samples: Seq<i16>, phase: int, rate: int, blocks: Seq<Seq<i16>>) -> (Seq<i16>, int)
    decreases blocks.len(),
{
    if blocks.len() == 0 {
        (samples, phase)
    } else {
        let (s, p) = feed(samples, phase, rate, blocks.drop_last());
        (
            samples_after_input(true, s, p, rate, blocks.last()),
            phase_after_input(true, s, p, rate, blocks.last()),
        )
    }
}

proof fn lemma_outputs_bounds(phase: int, rate: int, n: int)
    requires
        0 <= phase,
        rate > 0,
        0 <= n,
    ensures
        outputs_in_block(phase, rate, n) >= 0,
        phase + outputs_in_block(phase, rate, n) * rate >= n * target(),
        outputs_in_block(phase, rate, n) == 0 || phase + (outputs_in_block(phase, rate, n) - 1)
            * rate < n * target(),
{
    let b = n * 16000;
    if phase < b {
        let c = (b - phase + rate - 1) / rate;
        assert(c >= 0 && c * rate <= b - phase + rate - 1 < (c + 1) * rate) by (nonlinear_arith)
            requires
                c == (b - phase + rate - 1) / rate,
                rate > 0,
                b - phase + rate - 1 >= 0,
        ;
        assert(phase + c * rate >= b) by (nonlinear_arith)
            requires
                b - phase + rate - 1 < (c + 1) * rate,
        ;
        assert(c == 0 || phase + (c - 1) * rate < b) by (nonlinear_arith)
            requires
                c * rate <= b - phase + rate - 1,
        ;
    }
}

/// At the target rate, resampling from phase zero takes every input sample
/// as it is: the copying path and the resampling path agree.
pub proof fn lemma_target_rate_copies(samples: Seq<i16>, data: Seq<i16>)
    requires
        samples.len() < max_samples(),
    ensures
        resample_samples(samples, 0, target(), data) == copy_block(samples, data),
        resample_phase(samples, 0, target(), data) == 0,
{
    let n = data.len() as int;
    assert((n * 16000 + 16000 - 1) / 16000 == n) by (nonlinear_arith)
        requires
            n >= 0,
    ;
    let k = resampled_count(samples, 0, target(), data);
    assert forall|j: int| 0 <= j < k implies #[trigger] sample_at(data, 0 + j * target()) == data[j] by {
        assert((j * 16000) / 16000 == j && (j * 16000) % 16000 == 0) by (nonlinear_arith)
            requires
                j >= 0,
        ;
        if j + 1 < n {
            assert(trunc_div(data[j] * 16000 + 0 * (data[j + 1] - data[j]), 16000) == data[j]) by (
            nonlinear_arith);
        }
    }
    assert(resample_samples(samples, 0, target(), data) =~= copy_block(samples, data));
    if k < n {
        assert(k * 16000 < n * 16000) by (nonlinear_arith)
            requires
                k < n,
        ;
    }
}

/// Phase accumulation keeps no drift. Fed a stream of blocks from the start
/// of a recording, and while the cap is not reached, the resampler has
/// produced exactly the outputs at positions `0, rate, 2 * rate, ...` of the
/// stream that lie before its end: their number `k` satisfies
/// `k * rate == total * 16000 + phase` with `0 <= phase < rate` (so `k` is
/// the total times 16000 divided by the rate, rounded up), and output `i`
/// is the stream's value at position `i * rate`.
pub proof fn lemma_no_drift(rate: int, blocks: Seq<Seq<i16>>)
    requires
        rate > 0,
        feed(Seq::<i16>::empty(), 0, rate, blocks).0.len() < max_samples(),
    ensures
        ({
            let (out, phase) = feed(Seq::<i16>::empty(), 0, rate, blocks);
            &&& 0 <= phase < rate
            &&& out.len() * rate == total_len(blocks) * target() + phase
            &&& forall|i: int| 0 <= i < out.len() ==> #[trigger] out[i] == stream_sample(blocks, i * rate)
        }),
    decreases blocks.len(),
{
    if blocks.len() == 0 {
        return;
    }
    let prefix = blocks.drop_last();
    let b = blocks.last();
    let n = b.len() as int;
    let (s, p) = feed(Seq::<i16>::empty(), 0, rate, prefix);
    let (out, phase) = feed(Seq::<i16>::empty(), 0, rate, blocks);
    lemma_feed_grows(rate, blocks);
    lemma_no_drift(rate, prefix);
    let t = total_len(prefix);
    assert(total_len(blocks) == t + n);
    lemma_outputs_bounds(p, rate, n);
    let avail = outputs_in_block(p, rate, n);
    if rate == target() {
        assert(p == 0) by (nonlinear_arith)
            requires
                0 <= p < rate,
                rate == 16000,
                s.len() * rate == t * 16000 + p,
        ;
        lemma_target_rate_copies(s, b);
    }
    let k = resampled_count(s, p, rate, b);
    assert(out == resample_samples(s, p, rate, b));
    assert(k == avail);
    assert(phase == p + k * rate - n * 16000);
    assert((k - 1) * rate == k * rate - rate && (k == 0 ==> k * rate == 0)) by (nonlinear_arith);
    assert(0 <= phase < rate);
    assert(out.len() * rate == t * 16000 + n * 16000 + phase) by (nonlinear_arith)
        requires
            out.len() == s.len() + k,
            s.len() * rate == t * 16000 + p,
            phase == p + k * rate - n * 16000,
    ;
    assert forall|i: int| 0 <= i < out.len() implies #[trigger] out[i] == stream_sample(blocks, i * rate) by {
        if i < s.len() {
            assert(i * rate < t * 16000) by (nonlinear_arith)
                requires
                    0 <= i < s.len(),
                    s.len() * rate == t * 16000 + p,
                    p < rate,
                    rate > 0,
            ;
            assert(out[i] == s[i]);
        } else {
            let j = i - s.len();
            assert(i * rate == t * 16000 + p + j * rate) by (nonlinear_arith)
                requires
                    j == i - s.len(),
                    s.len() * rate == t * 16000 + p,
            ;
            assert(j * rate >= 0) by (nonlinear_arith)
                requires
                    j >= 0,
                    rate > 0,
            ;
            assert(out[i] == sample_at(b, p + j * rate));
        }
    }
}

/// Feeding more blocks never shortens a recording.
proof fn lemma_feed_grows(rate: int, blocks: Seq<Seq<i16>>)
    requires
        rate > 0,
        blocks.len() > 0,
    ensures
        feed(Seq::<i16>::empty(), 0, rate, blocks.drop_last()).0.len() <= feed(
            Seq::<i16>::empty(),
            0,
            rate,
            blocks,
        ).0.len(),
{
    let (s, p) = feed(Seq::<i16>::empty(), 0, rate, blocks.drop_last());
    let b = blocks.last();
    if s.len() < max_samples() && rate != target() {
        lemma_feed_phase_nonneg(rate, blocks.drop_last());
        lemma_outputs_bounds(p, rate, b.len() as int);
    }
}

/// The phase a feed leaves is never negative.
proof fn lemma_feed_phase_nonneg(rate: int, blocks: Seq<Seq<i16>>)
    requires
        rate > 0,
    ensures
        feed(Seq::<i16>::empty(), 0, rate, blocks).1 >= 0,
    decreases blocks.len(),
{
    if blocks.len() > 0 {
        lemma_feed_phase_nonneg(rate, blocks.drop_last());
        let (s, p) = feed(Seq::<i16>::empty(), 0, rate, blocks.drop_last());
        lemma_outputs_bounds(p, rate, blocks.last().len() as int);
    }
}

/// A recording never holds more than `MAX_RECORDING_SAMPLES` samples:
/// taking in a block keeps a recording under the cap if it was under it.
pub proof fn lemma_recording_capped(
    recording: bool,
    samples: Seq<i16>,
    phase: int,
    rate: int,
    data: Seq<i16>,
)
    requires
        samples.len() <= max_samples(),
        rate > 0,
        0 <= phase < rate,
    ensures
        samples_after_input(recording, samples, phase, rate, data).len() <= max_samples(),
        samples_after_input(recording, samples, phase, rate, data).len() >= samples.len(),
        samples_after_input(recording, samples, phase, rate, data).subrange(0, samples.len() as int)
            == samples,
{
    let out = samples_after_input(recording, samples, phase, rate, data);
    if recording && samples.len() < max_samples() && rate != target() {
        lemma_outputs_bounds(phase, rate, data.len() as int);
    }
    assert(out.subrange(0, samples.len() as int) =~= samples);
}

/// Outside a recording, input changes nothing.
pub proof fn lemma_idle_ignores_input(samples: Seq<i16>, phase: int, rate: int, data: Seq<i16>)
    ensures
        samples_after_input(false, samples, phase, rate, data) == samples,
        phase_after_input(false, samples, phase, rate, data) == phase,
{
}

/// The phase stays below one output step when a block is taken in.
proof fn lemma_phase_after_input_bounds(
    recording: bool,
    samples: Seq<i16>,
    phase: int,
    rate: int,
    data: Seq<i16>,
)
    requires
        samples.len() <= max_samples(),
        rate > 0,
        0 <= phase < rate,
    ensures
        0 <= phase_after_input(recording, samples, phase, rate, data) < rate,
{
    if recording && samples.len() < max_samples() && rate != target() {
        let n = data.len() as int;
        lemma_outputs_bounds(phase, rate, n);
        let avail = outputs_in_block(phase, rate, n);
        let k = resampled_count(samples, phase, rate, data);
        assert((k - 1) * rate == k * rate - rate && (k == 0 ==> k * rate == 0)) by (nonlinear_arith);
        if k < avail {
            assert(phase + k * rate < n * target()) by (nonlinear_arith)
                requires
                    k < avail,
                    avail == 0 || phase + (avail - 1) * rate < n * target(),
                    rate > 0,
                    0 <= k,
            ;
        }
    }
}

/// Over a whole recording, from the start and at any rate, the samples
/// never exceed `MAX_RECORDING_SAMPLES` and the phase stays below one
/// output step.
pub proof fn lemma_feed_capped(rate: int, blocks: Seq<Seq<i16>>)
    requires
        rate > 0,
    ensures
        feed(Seq::<i16>::empty(), 0, rate, blocks).0.len() <= max_samples(),
        0 <= feed(Seq::<i16>::empty(), 0, rate, blocks).1 < rate,
    decreases blocks.len(),
{
    if blocks.len() > 0 {
        lemma_feed_capped(rate, blocks.drop_last());
        let (s, p) = feed(Seq::<i16>::empty(), 0, rate, blocks.drop_last());
        lemma_recording_capped(true, s, p, rate, blocks.last());
        lemma_phase_after_input_bounds(true, s, p, rate, blocks.last());
    }
}

/// A recording that stays short enough never meets the cap: when the
/// whole stream of `total` input samples gives fewer than
/// `MAX_RECORDING_SAMPLES` outputs (`total * 16000 <= (MAX - 1) * rate`),
/// no block is cut short.
pub proof fn lemma_feed_uncapped(rate: int, blocks: Seq<Seq<i16>>)
    requires
        rate > 0,
        total_len(blocks) * target() <= (max_samples() - 1) * rate,
    ensures
        feed(Seq::<i16>::empty(), 0, rate, blocks).0.len() < max_samples(),
    decreases blocks.len(),
{
    if blocks.len() == 0 {
        return;
    }
    let prefix = blocks.drop_last();
    let b = blocks.last();
    let n = b.len() as int;
    let t = total_len(prefix);
    assert(t * 16000 <= total_len(blocks) * 16000) by (nonlinear_arith)
        requires
            t <= total_len(blocks),
    ;
    lemma_total_len_nonneg(prefix);
    lemma_feed_uncapped(rate, prefix);
    lemma_no_drift(rate, prefix);
    let (s, p) = feed(Seq::<i16>::empty(), 0, rate, prefix);
    lemma_outputs_bounds(p, rate, n);
    let avail = outputs_in_block(p, rate, n);
    assert((avail - 1) * rate == avail * rate - rate && (avail == 0 ==> avail * rate == 0)) by (
    nonlinear_arith);
    assert(p + avail * rate < n * 16000 + rate);
    assert((s.len() + avail) * rate < max_samples() * rate) by (nonlinear_arith)
        requires
            s.len() * rate == t * 16000 + p,
            p + avail * rate < n * 16000 + rate,
            (t + n) * 16000 <= (max_samples() - 1) * rate,
    ;
    assert(s.len() + avail < max_samples()) by (nonlinear_arith)
        requires
            (s.len() + avail) * rate < max_samples() * rate,
            rate > 0,
    ;
    if rate == target() {
        assert(p == 0) by (nonlinear_arith)
            requires
                0 <= p < rate,
                rate == 16000,
                s.len() * rate == t * 16000 + p,
        ;
        lemma_target_rate_copies(s, b);
        assert((n * 16000 + 16000 - 1) / 16000 == n) by (nonlinear_arith)
            requires
                n >= 0,
        ;
    }
}

proof fn lemma_total_len_nonneg(blocks: Seq<Seq<i16>>)
    ensures
        total_len(blocks) >= 0,
    decreases blocks.len(),
{
    if blocks.len() > 0 {
        lemma_total_len_nonneg(blocks.drop_last());
    }
}

/// The blocks of a stream laid end to end.
pub open spec fn concat_blocks(blocks: Seq<Seq<i16>>) -> Seq<i16>
    decreases blocks.len(),
{
    if blocks.len() == 0 {
        Seq::empty()
    } else {
        concat_blocks(blocks.drop_last()) + blocks.last()
    }
}

/// At a whole input position the resampler takes that input sample.
proof fn lemma_sample_at_whole(data: Seq<i16>, j: int)
    requires
        0 <= j < data.len(),
    ensures
        sample_at(data, j * target()) == data[j],
{
    assert((j * 16000) / 16000 == j && (j * 16000) % 16000 == 0) by (nonlinear_arith)
        requires
            j >= 0,
    ;
    if j + 1 < data.len() {
        assert(trunc_div(data[j] * 16000 + 0 * (data[j + 1] - data[j]), 16000) == data[j]) by (
        nonlinear_arith);
    }
}

/// The stream's value at whole input position `k` is input sample `k`.
proof fn lemma_stream_sample_whole(blocks: Seq<Seq<i16>>, k: int)
    requires
        0 <= k < total_len(blocks),
    ensures
        concat_blocks(blocks).len() == total_len(blocks),
        stream_sample(blocks, k * target()) == concat_blocks(blocks)[k],
    decreases blocks.len(),
{
    let prefix = blocks.drop_last();
    let t = total_len(prefix);
    lemma_concat_len(prefix);
    if k >= t {
        assert(k * 16000 >= t * 16000) by (nonlinear_arith)
            requires
                k >= t,
        ;
        assert(k * 16000 - t * 16000 == (k - t) * 16000) by (nonlinear_arith);
        lemma_sample_at_whole(blocks.last(), k - t);
    } else {
        assert(k * 16000 < t * 16000) by (nonlinear_arith)
            requires
                k < t,
        ;
        lemma_stream_sample_whole(prefix, k);
    }
}

proof fn lemma_concat_len(blocks: Seq<Seq<i16>>)
    ensures
        concat_blocks(blocks).len() == total_len(blocks),
    decreases blocks.len(),
{
    if blocks.len() > 0 {
        lemma_concat_len(blocks.drop_last());
    }
}

/// At a device rate of `m` times 16 kHz the recording is every `m`-th input
/// sample, `x[0], x[m], x[2m], ...` for the stream `x` of all blocks, how
/// ever the stream is cut into blocks: there are `len(x) / m` of them,
/// rounded up, as long as that is below the cap.
pub proof fn lemma_integer_ratio_decimates(m: int, blocks: Seq<Seq<i16>>)
    requires
        m >= 1,
        total_len(blocks) <= (max_samples() - 1) * m,
    ensures
        ({
            let out = feed(Seq::<i16>::empty(), 0, m * target(), blocks).0;
            let x = concat_blocks(blocks);
            &&& out.len() == (x.len() + m - 1) / m
            &&& forall|i: int| 0 <= i < out.len() ==> #[trigger] out[i] == x[i * m]
        }),
{
    let rate = m * 16000;
    let t = total_len(blocks);
    assert(t * 16000 <= (max_samples() - 1) * rate) by (nonlinear_arith)
        requires
            t <= (max_samples() - 1) * m,
            rate == m * 16000,
    ;
    lemma_feed_uncapped(rate, blocks);
    lemma_no_drift(rate, blocks);
    lemma_concat_len(blocks);
    lemma_total_len_nonneg(blocks);
    let (out, phase) = feed(Seq::<i16>::empty(), 0, rate, blocks);
    let x = concat_blocks(blocks);
    assert(out.len() == (t + m - 1) / m) by (nonlinear_arith)
        requires
            out.len() * rate == t * 16000 + phase,
            0 <= phase < rate,
            rate == m * 16000,
            m >= 1,
            t >= 0,
    ;
    assert forall|i: int| 0 <= i < out.len() implies #[trigger] out[i] == x[i * m] by {
        assert(i * rate == (i * m) * 16000) by (nonlinear_arith)
            requires
                rate == m * 16000,
        ;
        assert(i * m < t) by (nonlinear_arith)
            requires
                0 <= i < out.len(),
                out.len() * rate == t * 16000 + phase,
                0 <= phase < rate,
                rate == m * 16000,
                m >= 1,
        ;
        assert(i * m >= 0) by (nonlinear_arith)
            requires
                i >= 0,
                m >= 1,
        ;
        lemma_stream_sample_whole(blocks, i * m);
    }
}

/// What the capture side holds: whether it records, the samples of the
/// current recording at the target rate, the rate of the input device and
/// the resampling phase.
pub struct CaptureBuffer {
    recording: bool,
    samples: Vec<i16>,
    source_rate: u32,
    phase: u64,
}

impl CaptureBuffer {
    /// Whether input is being recorded.
    pub closed spec fn recording_spec(&self) -> bool {
        self.recording
    }

    /// The samples of the current (or last) recording.
    pub closed spec fn samples_spec(&self) -> Seq<i16> {
        self.samples@
    }

    /// The sample rate of the input device.
    pub closed spec fn source_rate_spec(&self) -> int {
        self.source_rate as int
    }

    /// Position of the next output sample, in sixteen-thousandths of an input
    /// sample from the start of the next block.
    pub closed spec fn phase_spec(&self) -> int {
        self.phase as int
    }

    /// Well-formedness: a positive input rate, a phase below one output
    /// step, and no more samples than the cap.
    pub closed spec fn wf(&self) -> bool {
        &&& self.source_rate > 0
        &&& self.phase < self.source_rate
        &&& self.samples@.len() <= max_samples()
    }

    /// A well-formed buffer holds at most `MAX_RECORDING_SAMPLES` samples.
    pub proof fn lemma_wf_capped(&self)
        requires
            self.wf(),
        ensures
            self.samples_spec().len() <= max_samples(),
            0 <= self.phase_spec() < self.source_rate_spec(),
    {
    }

    /// A buffer for an input device running at `source_rate`, not recording.
    pub fn new(source_rate: u32) -> (b: Self)
        requires
            source_rate > 0,
        ensures
            b.wf(),
            !b.recording_spec(),
            b.samples_spec() == Seq::<i16>::empty(),
            b.source_rate_spec() == source_rate,
            b.phase_spec() == 0,
    {
        CaptureBuffer { recording: false, samples: Vec::new(), source_rate, phase: 0 }
    }

    /// Whether input is being recorded.
    pub fn is_recording(&self) -> (r: bool)
        ensures
            r == self.recording_spec(),
    {
        self.recording
    }

    /// Number of samples held.
    pub fn len(&self) -> (n: usize)
        ensures
            n == self.samples_spec().len(),
    {
        self.samples.len()
    }

    /// Begins a recording: the samples are cleared and the phase reset.
    pub fn start(&mut self)
        requires
            old(self).wf(),
        ensures
            final(self).wf(),
            final(self).recording_spec(),
            final(self).samples_spec() == Seq::<i16>::empty(),
            final(self).phase_spec() == 0,
            final(self).source_rate_spec() == old(self).source_rate_spec(),
    {
        self.samples.clear();
        self.phase = 0;
        self.recording = true;
    }

    /// Ends a recording and hands back a copy of its samples; the buffer
    /// keeps them until the next start.
    pub fn stop(&mut self) -> (recorded: Vec<i16>)
        requires
            old(self).wf(),
        ensures
            final(self).wf(),
            !final(self).recording_spec(),
            final(self).samples_spec() == old(self).samples_spec(),
            final(self).phase_spec() == old(self).phase_spec(),
            final(self).source_rate_spec() == old(self).source_rate_spec(),
            recorded@ == old(self).samples_spec(),
            recorded@.len() <= max_samples(),
    {
        self.recording = false;
        let mut recorded: Vec<i16> = Vec::new();
        let n = self.samples.len();
        for i in 0..n
            invariant
                n == self.samples@.len(),
                recorded@ == self.samples@.take(i as int),
        {
            recorded.push(self.samples[i]);
        }
        proof {
            assert(self.samples@.take(n as int) == self.samples@);
        }
        recorded
    }

    /// Takes in one block of input from the device. Nothing changes unless
    /// a recording is under way and below the cap. At the target rate the
    /// block is appended as far as the cap allows; at any other rate it is
    /// resampled from the carried phase.
    pub fn push_input(&mut self, data: &[i16])
        requires
            old(self).wf(),
        ensures
            final(self).wf(),
            final(self).recording_spec() == old(self).recording_spec(),
            final(self).source_rate_spec() == old(self).source_rate_spec(),
            final(self).samples_spec() == samples_after_input(
                old(self).recording_spec(),
                old(self).samples_spec(),
                old(self).phase_spec(),
                old(self).source_rate_spec(),
                data@,
            ),
            final(self).phase_spec() == phase_after_input(
                old(self).recording_spec(),
                old(self).samples_spec(),
                old(self).phase_spec(),
                old(self).source_rate_spec(),
                data@,
            ),
    {
        if !self.recording || self.samples.len() >= MAX_RECORDING_SAMPLES {
            return;
        }
        if self.source_rate == TARGET_SAMPLE_RATE {
            self.copy_block(data);
        } else {
            self.resample_block(data);
        }
    }

    fn copy_block(&mut self, data: &[i16])
        requires
            old(self).wf(),
            old(self).samples@.len() < max_samples(),
        ensures
            final(self).wf(),
            final(self).recording == old(self).recording,
            final(self).source_rate == old(self).source_rate,
            final(self).phase == old(self).phase,
            final(self).samples@ == copy_block(old(self).samples@, data@),
    {
        let space = MAX_RECORDING_SAMPLES - self.samples.len();
        let to_add = if data.len() < space {
            data.len()
        } else {
            space
        };
        let ghost before = self.samples@;
        let ghost recording = self.recording;
        let ghost rate = self.source_rate;
        let ghost phase = self.phase;
        for i in 0..to_add
            invariant
                self.recording == recording,
                self.source_rate == rate,
                self.phase == phase,
                to_add <= data@.len(),
                before.len() + to_add <= max_samples(),
                self.samples@ == before + data@.take(i as int),
                self.source_rate > 0,
                self.phase < self.source_rate,
        {
            proof {
                assert(data@.take(i + 1) == data@.take(i as int).push(data@[i as int]));
            }
            self.samples.push(data[i]);
        }
    }

    fn resample_block(&mut self, data: &[i16])
        requires
            old(self).wf(),
            old(self).samples@.len() < max_samples(),
        ensures
            final(self).wf(),
            final(self).recording == old(self).recording,
            final(self).source_rate == old(self).source_rate,
            final(self).samples@ == resample_samples(
                old(self).samples@,
                old(self).phase as int,
                old(self).source_rate as int,
                data@,
            ),
            final(self).phase == resample_phase(
                old(self).samples@,
                old(self).phase as int,
                old(self).source_rate as int,
                data@,
            ),
    {
        let n = data.len();
        let rate: u128 = self.source_rate as u128;
        let bound: u128 = (n as u128) * 16000;
        let mut pos: u128 = self.phase as u128;
        let ghost p = self.phase as int;
        let ghost before = self.samples@;
        let ghost mut j: int = 0;
        let ghost recording = self.recording;
        while pos < bound && self.samples.len() < MAX_RECORDING_SAMPLES
            invariant
                self.recording == recording,
                n == data@.len(),
                bound == n * target(),
                rate == self.source_rate,
                rate > 0,
                0 <= p < rate,
                0 <= j,
                pos == p + j * rate,
                j == 0 || p + (j - 1) * rate < bound,
                before.len() + j <= max_samples(),
                before.len() < max_samples(),
                self.samples@ == before + Seq::new(j as nat, |i: int| sample_at(data@, p + i * rate)),
            decreases bound + rate - pos,
        {
            let idx_wide = pos / 16000;
            let r = (pos % 16000) as u64;
            assert(idx_wide < n) by (nonlinear_arith)
                requires
                    pos < bound,
                    bound == n * 16000,
                    idx_wide == pos / 16000,
            ;
            let idx = idx_wide as usize;
            let v = if idx + 1 < n {
                interpolate_exec(data[idx], data[idx + 1], r)
            } else {
                data[idx]
            };
            proof {
                assert(v == sample_at(data@, p + j * rate));
            }
            self.samples.push(v);
            proof {
                assert(self.samples@ == before + Seq::new(
                    (j + 1) as nat,
                    |i: int| sample_at(data@, p + i * rate),
                ));
                assert(p + (j + 1) * rate == p + j * rate + rate) by (nonlinear_arith);
                j = j + 1;
            }
            pos = pos + rate;
        }
        assert(pos < bound + rate) by (nonlinear_arith)
            requires
                pos == p + j * rate,
                j == 0 || p + (j - 1) * rate < bound,
                p < rate,
                0 <= j,
        ;
        proof {
            lemma_outputs_in_block(p, rate as int, n as int, j);
        }
        if pos >= bound {
            self.phase = (pos - bound) as u64;
        } else {
            self.phase = 0;
        }
    }

    /// Carries out a command: `Start` begins a recording and yields nothing;
    /// `Stop` ends it and yields the recorded samples.
    pub fn apply(&mut self, cmd: &AudioCommand) -> (out: Option<Vec<i16>>)
        requires
            old(self).wf(),
        ensures
            final(self).wf(),
            final(self).source_rate_spec() == old(self).source_rate_spec(),
            match cmd {
                AudioCommand::Start => {
                    &&& out is None
                    &&& final(self).recording_spec()
                    &&& final(self).samples_spec() == Seq::<i16>::empty()
                    &&& final(self).phase_spec() == 0
                },
                AudioCommand::Stop => {
                    &&& out matches Some(v) && v@ == old(self).samples_spec() && v@.len() <= max_samples()
                    &&& !final(self).recording_spec()
                    &&& final(self).samples_spec() == old(self).samples_spec()
                    &&& final(self).phase_spec() == old(self).phase_spec()
                },
            },
    {
        match cmd {
            AudioCommand::Start => {
                self.start();
                None
            },
            AudioCommand::Stop => Some(self.stop()),
        }
    }
}

} // verus!

verus! {

/// A recording started on a buffer that recorded before is the same as one
/// started on a new buffer: the state `start` leaves does not depend on
/// the earlier session, so feeding the same blocks gives the same samples
/// and phase, which are those fed from the empty state.
pub proof fn lemma_restart_is_fresh(restarted: CaptureBuffer, fresh: CaptureBuffer, blocks: Seq<Seq<i16>>)
    requires
        restarted.samples_spec() == Seq::<i16>::empty(),
        restarted.phase_spec() == 0,
        fresh.samples_spec() == Seq::<i16>::empty(),
        fresh.phase_spec() == 0,
        restarted.source_rate_spec() == fresh.source_rate_spec(),
    ensures
        feed(restarted.samples_spec(), restarted.phase_spec(), restarted.source_rate_spec(), blocks)
            == feed(fresh.samples_spec(), fresh.phase_spec(), fresh.source_rate_spec(), blocks),
        feed(restarted.samples_spec(), restarted.phase_spec(), restarted.source_rate_spec(), blocks)
            == feed(Seq::<i16>::empty(), 0, fresh.source_rate_spec(), blocks),
{
}

/// The magnitude sum adds up over the samples: the sum of two runs is the
/// sum of each, one sample counts as its magnitude (`x` or `-x`, never
/// negative), and the sum is zero exactly for silence.
pub proof fn lemma_abs_sum_adds_magnitudes(a: Seq<i16>, b: Seq<i16>)
    ensures
        abs_sum(a + b) == abs_sum(a) + abs_sum(b),
        forall|x: i16|
            #[trigger] abs_sum(seq![x]) >= 0 && (abs_sum(seq![x]) == x || abs_sum(seq![x]) == -x),
        0 <= abs_sum(a) <= 32768 * a.len(),
        abs_sum(a) == 0 <==> forall|i: int| 0 <= i < a.len() ==> #[trigger] a[i] == 0,
    decreases b.len(),
{
    assert forall|x: i16|
        #[trigger] abs_sum(seq![x]) >= 0 && (abs_sum(seq![x]) == x || abs_sum(seq![x]) == -x) by {
        let one = seq![x];
        assert(one.drop_last() =~= Seq::<i16>::empty());
        assert(one.last() == x);
        assert(abs_sum(Seq::<i16>::empty()) == 0);
        assert(abs_sum(one) == abs_sum(one.drop_last()) + (if x < 0 {
            -x
        } else {
            x as int
        }));
    }
    lemma_abs_sum_bounds(a);
    if b.len() > 0 {
        lemma_abs_sum_adds_magnitudes(a, b.drop_last());
        assert((a + b).drop_last() =~= a + b.drop_last());
    } else {
        assert(a + b =~= a);
    }
}

proof fn lemma_abs_sum_bounds(a: Seq<i16>)
    ensures
        0 <= abs_sum(a) <= 32768 * a.len(),
        abs_sum(a) == 0 <==> forall|i: int| 0 <= i < a.len() ==> #[trigger] a[i] == 0,
    decreases a.len(),
{
    if a.len() > 0 {
        let init = a.drop_last();
        lemma_abs_sum_bounds(init);
        if abs_sum(a) == 0 {
            assert forall|i: int| 0 <= i < a.len() implies #[trigger] a[i] == 0 by {
                if i < init.len() {
                    assert(init[i] == a[i]);
                }
            }
        }
        if forall|i: int| 0 <= i < a.len() ==> #[trigger] a[i] == 0 {
            assert forall|i: int| 0 <= i < init.len() implies #[trigger] init[i] == 0 by {
                assert(init[i] == a[i]);
            }
            assert(a[a.len() - 1] == 0);
        }
    }
}

/// Sum of the magnitudes of the samples of a block; the level shown while
/// recording is this sum divided by the block length and by 32768.
pub fn amplitude_sum(data: &[i16]) -> (sum: u64)
    requires
        data@.len() <= 0x1_0000_0000_0000,
    ensures
        sum == abs_sum(data@),
{
    let mut sum: u64 = 0;
    let n = data.len();
    for i in 0..n
        invariant
            n == data@.len(),
            n <= 0x1_0000_0000_0000,
            sum == abs_sum(data@.take(i as int)),
            sum <= i * 32768,
    {
        let s = data[i];
        let m: u64 = if s < 0 {
            (-(s as i64)) as u64
        } else {
            s as u64
        };
        proof {
            assert(data@.take(i + 1).drop_last() == data@.take(i as int));
        }
        sum = sum + m;
    }
    proof {
        assert(data@.take(n as int) == data@);
    }
    sum
}

/// The command `start_recording` sends: none while a recording is already
/// under way, `Start` otherwise.
pub fn start_request(is_recording: bool) -> (cmd: Option<AudioCommand>)
    ensures
        is_recording ==> cmd is None,
        !is_recording ==> cmd matches Some(AudioCommand::Start),
{
    if is_recording {
        None
    } else {
        Some(AudioCommand::Start)
    }
}

/// The command `stop_recording` sends: none when no recording is under way
/// (the caller then answers with an empty recording), `Stop` otherwise.
pub fn stop_request(is_recording: bool) -> (cmd: Option<AudioCommand>)
    ensures
        !is_recording ==> cmd is None,
        is_recording ==> cmd matches Some(AudioCommand::Stop),
{
    if is_recording {
        Some(AudioCommand::Stop)
    } else {
        None
    }
}

} // verus!
