//! The integer side of the offline benchmark: chunking of the input,
//! deadline accounting, the content checksum and threshold verdicts.
use std::path::PathBuf;
use vstd::prelude::*;

use crate::text::{decimal, push_decimal};

verus! {

/// A filesystem path, carried through unchanged.
#[verifier::external_type_specification]
#[verifier::external_body]
pub struct ExPathBuf(PathBuf);

/// The processing applied to each chunk.
#[derive(Clone, Copy, Debug, PartialEq, Eq, Structural)]
pub enum Stage {
    Copy,
    Gain,
    Rms,
}

pub open spec fn stage_name(s: Stage) -> Seq<char> {
    match s {
        Stage::Copy => "copy"@,
        Stage::Gain => "gain"@,
        Stage::Rms => "rms"@,
    }
}

impl Stage {
    pub fn as_str(self) -> (s: &'static str)
        ensures
            s@ == stage_name(self),
    {
        match self {
            Stage::Copy => "copy",
            Stage::Gain => "gain",
            Stage::Rms => "rms",
        }
    }
}

/// What to benchmark: a WAV file, its chunking, and the stage.
#[derive(Debug)]
pub struct BenchConfig {
    pub input_path: PathBuf,
    pub source_id: Option<String>,
    pub chunk_ms: u32,
    pub hop_ms: u32,
    pub stage: Stage,
}

/// The verdict of a benchmark report against its thresholds.
#[derive(Clone, Debug, PartialEq, Eq)]
pub struct ThresholdEvaluation {
    pub passed: bool,
    pub failures: Vec<String>,
}

impl ThresholdEvaluation {
    /// The verdict for a list of failed thresholds: passed when there are none.
    pub fn from_failures(failures: Vec<String>) -> (e: Self)
        ensures
            e.passed == (failures@.len() == 0),
            e.failures@ == failures@,
    {
        let passed = failures.len() == 0;
        ThresholdEvaluation { passed, failures }
    }
}

/// The failure text of a deadline-miss threshold.
pub open spec fn deadline_failure_text(events: u64, max: u64) -> Seq<char> {
    "deadline_miss_events "@ + decimal(events as nat) + " exceeded max "@ + decimal(max as nat)
}

/// Checks the deadline-miss count against its optional maximum.
pub fn deadline_threshold_failure(deadline_miss_events: u64, max_deadline_misses: Option<u64>) -> (r:
    Option<String>)
    ensures
        match max_deadline_misses {
            Some(max) => if deadline_miss_events > max {
                r is Some && r->0@ == deadline_failure_text(deadline_miss_events, max)
            } else {
                r is None
            },
            None => r is None,
        },
{
    match max_deadline_misses {
        Some(max) => {
            if deadline_miss_events > max {
                let mut text = String::from_str("deadline_miss_events ");
                push_decimal(&mut text, deadline_miss_events);
                text.append(" exceeded max ");
                push_decimal(&mut text, max);
                assert(text@ =~= deadline_failure_text(deadline_miss_events, max));
                Some(text)
            } else {
                None
            }
        },
        None => None,
    }
}

/// Why a benchmark run is refused.
#[derive(Clone, Copy, Debug, PartialEq, Eq, Structural)]
pub enum BenchError {
    ChunkMsZero,
    HopMsZero,
    DurationTooShort,
    FrameCountTooLarge,
    InputShorterThanChunk,
    DurationTooLarge,
}

pub open spec fn bench_error_message(e: BenchError) -> Seq<char> {
    match e {
        BenchError::ChunkMsZero => "chunk-ms must be > 0"@,
        BenchError::HopMsZero => "hop-ms must be > 0"@,
        BenchError::DurationTooShort => "chunk/hop duration is too small for input sample rate"@,
        BenchError::FrameCountTooLarge => "frame count does not fit in usize"@,
        BenchError::InputShorterThanChunk => "input WAV is shorter than one chunk"@,
        BenchError::DurationTooLarge => "duration does not fit in u64"@,
    }
}

impl BenchError {
    pub fn message(&self) -> (m: &'static str)
        ensures
            m@ == bench_error_message(*self),
    {
        match self {
            BenchError::ChunkMsZero => "chunk-ms must be > 0",
            BenchError::HopMsZero => "hop-ms must be > 0",
            BenchError::DurationTooShort => "chunk/hop duration is too small for input sample rate",
            BenchError::FrameCountTooLarge => "frame count does not fit in usize",
            BenchError::InputShorterThanChunk => "input WAV is shorter than one chunk",
            BenchError::DurationTooLarge => "duration does not fit in u64",
        }
    }
}

/// Frames in `ms` milliseconds at `sample_rate_hz`, rounded down.
pub open spec fn frames_in(sample_rate_hz: u32, ms: u32) -> int {
    (sample_rate_hz as int * ms as int) / 1000
}

pub open spec fn frames_for_ms_spec(sample_rate_hz: u32, ms: u32) -> Result<usize, BenchError> {
    if frames_in(sample_rate_hz, ms) == 0 {
        Err(BenchError::DurationTooShort)
    } else if frames_in(sample_rate_hz, ms) > usize::MAX {
        Err(BenchError::FrameCountTooLarge)
    } else {
        Ok(frames_in(sample_rate_hz, ms) as usize)
    }
}

/// The number of whole frames in `ms` milliseconds; refuses a duration
/// shorter than one frame.
pub fn frames_for_ms(sample_rate_hz: u32, ms: u32) -> (r: Result<usize, BenchError>)
    ensures
        r == frames_for_ms_spec(sample_rate_hz, ms),
{
    assert(sample_rate_hz as int * ms as int <= u64::MAX) by (nonlinear_arith)
        requires
            sample_rate_hz <= u32::MAX,
            ms <= u32::MAX,
    ;
    let frames = (sample_rate_hz as u64 * ms as u64) / 1000;
    if frames == 0 {
        return Err(BenchError::DurationTooShort);
    }
    if frames > usize::MAX as u64 {
        return Err(BenchError::FrameCountTooLarge);
    }
    Ok(frames as usize)
}

/// How an input is cut into chunks.
#[derive(Clone, Copy, Debug, PartialEq, Eq, Structural)]
pub struct BenchPlan {
    pub chunk_frames: usize,
    pub hop_frames: usize,
    pub chunk_count: usize,
    pub duration_ms: u64,
}

/// The chunking of `input_frames` frames: chunk and hop sizes, the number of
/// whole chunks, and the input's duration; or the first check that fails.
pub open spec fn bench_plan_spec(chunk_ms: u32, hop_ms: u32, sample_rate_hz: u32, input_frames: usize) -> Result<
    BenchPlan,
    BenchError,
> {
    if chunk_ms == 0 {
        Err(BenchError::ChunkMsZero)
    } else if hop_ms == 0 {
        Err(BenchError::HopMsZero)
    } else {
        match frames_for_ms_spec(sample_rate_hz, chunk_ms) {
            Err(e) => Err(e),
            Ok(chunk_frames) => match frames_for_ms_spec(sample_rate_hz, hop_ms) {
                Err(e) => Err(e),
                Ok(hop_frames) => if input_frames < chunk_frames {
                    Err(BenchError::InputShorterThanChunk)
                } else if input_frames as int * 1000 / sample_rate_hz as int > u64::MAX {
                    Err(BenchError::DurationTooLarge)
                } else {
                    Ok(
                        BenchPlan {
                            chunk_frames,
                            hop_frames,
                            chunk_count: ((input_frames - chunk_frames) / (hop_frames as int)
                                + 1) as usize,
                            duration_ms: (input_frames as int * 1000 / sample_rate_hz as int) as u64,
                        },
                    )
                },
            },
        }
    }
}

/// The checks made on the chunking before any input is read.
pub open spec fn chunk_shape_spec(chunk_ms: u32, hop_ms: u32) -> Result<(), BenchError> {
    if chunk_ms == 0 {
        Err(BenchError::ChunkMsZero)
    } else if hop_ms == 0 {
        Err(BenchError::HopMsZero)
    } else {
        Ok(())
    }
}

/// Refuses a zero chunk or hop duration.
pub fn check_chunk_shape(chunk_ms: u32, hop_ms: u32) -> (r: Result<(), BenchError>)
    ensures
        r == chunk_shape_spec(chunk_ms, hop_ms),
{
    if chunk_ms == 0 {
        return Err(BenchError::ChunkMsZero);
    }
    if hop_ms == 0 {
        return Err(BenchError::HopMsZero);
    }
    Ok(())
}

/// Cuts an input of `input_frames` frames into chunks of `chunk_ms` every
/// `hop_ms`, refusing zero durations and inputs shorter than one chunk.
pub fn plan_benchmark(chunk_ms: u32, hop_ms: u32, sample_rate_hz: u32, input_frames: usize) -> (r:
    Result<BenchPlan, BenchError>)
    ensures
        r == bench_plan_spec(chunk_ms, hop_ms, sample_rate_hz, input_frames),
        r matches Ok(p) ==> p.chunk_frames > 0 && p.hop_frames > 0 && p.chunk_count >= 1,
{
    match check_chunk_shape(chunk_ms, hop_ms) {
        Ok(()) => {},
        Err(e) => {
            return Err(e);
        },
    }
    let chunk_frames = match frames_for_ms(sample_rate_hz, chunk_ms) {
        Ok(f) => f,
        Err(e) => {
            return Err(e);
        },
    };
    let hop_frames = match frames_for_ms(sample_rate_hz, hop_ms) {
        Ok(f) => f,
        Err(e) => {
            return Err(e);
        },
    };
    if input_frames < chunk_frames {
        return Err(BenchError::InputShorterThanChunk);
    }
    let chunk_count = (input_frames - chunk_frames) / hop_frames + 1;
    assert(input_frames as int * 1000 <= u128::MAX) by (nonlinear_arith)
        requires
            input_frames <= usize::MAX,
            usize::MAX <= u64::MAX,
    ;
    let duration = (input_frames as u128 * 1000) / (sample_rate_hz as u128);
    if duration > u64::MAX as u128 {
        return Err(BenchError::DurationTooLarge);
    }
    Ok(BenchPlan { chunk_frames, hop_frames, chunk_count, duration_ms: duration as u64 })
}

impl BenchPlan {
    /// The frame range `start..end` of chunk `index`: it starts `index` hops
    /// into the input and lies within the planned input.
    pub fn chunk_range(&self, index: usize, input_frames: usize) -> (range: (usize, usize))
        requires
            index < self.chunk_count,
            self.hop_frames > 0,
            self.chunk_frames <= input_frames,
            self.chunk_count == (input_frames - self.chunk_frames) / (self.hop_frames as int) + 1,
        ensures
            range.0 == index * self.hop_frames,
            range.1 == range.0 + self.chunk_frames,
            range.1 <= input_frames,
    {
        proof {
            let h = self.hop_frames as int;
            let q = (input_frames - self.chunk_frames) / h;
            assert(index * h <= q * h) by (nonlinear_arith)
                requires
                    0 <= index <= q,
                    h > 0,
            ;
            assert(q * h <= input_frames - self.chunk_frames) by (nonlinear_arith)
                requires
                    q == (input_frames - self.chunk_frames) / h,
                    h > 0,
                    input_frames - self.chunk_frames >= 0,
            ;
        }
        let start = index * self.hop_frames;
        (start, start + self.chunk_frames)
    }
}

/// Number of chunk timings above the hop's deadline.
pub open spec fn misses_over(ns: Seq<u128>, deadline_ns: int) -> nat
    decreases ns.len(),
{
    if ns.len() == 0 {
        0
    } else {
        misses_over(ns.drop_last(), deadline_ns) + if ns.last() > deadline_ns {
            1nat
        } else {
            0nat
        }
    }
}

/// Counts the chunks whose processing took longer than one hop.
pub fn count_deadline_misses(chunk_processing_ns: &Vec<u128>, hop_ms: u32) -> (misses: u64)
    ensures
        misses == misses_over(chunk_processing_ns@, hop_ms as int * 1_000_000),
{
    let deadline_ns = hop_ms as u128 * 1_000_000;
    let mut misses: u64 = 0;
    let mut i: usize = 0;
    while i < chunk_processing_ns.len()
        invariant
            i <= chunk_processing_ns@.len(),
            deadline_ns == hop_ms as int * 1_000_000,
            misses == misses_over(chunk_processing_ns@.subrange(0, i as int), deadline_ns as int),
            misses <= i,
        decreases chunk_processing_ns@.len() - i,
    {
        let ghost prefix = chunk_processing_ns@.subrange(0, i as int + 1);
        assert(prefix.drop_last() =~= chunk_processing_ns@.subrange(0, i as int));
        if chunk_processing_ns[i] > deadline_ns {
            misses = misses + 1;
        }
        i = i + 1;
    }
    assert(chunk_processing_ns@.subrange(0, i as int) =~= chunk_processing_ns@);
    misses
}

/// The FNV-1a 64-bit prime.
pub const FNV_PRIME: u64 = 0x100_0000_01b3;

/// The FNV-1a 64-bit offset basis: the checksum of nothing.
pub const FNV_OFFSET_BASIS: u64 = 0xcbf2_9ce4_8422_2325;

/// One FNV-1a step over a byte.
pub open spec fn fnv_byte(h: u64, b: u64) -> u64 {
    (h ^ b).wrapping_mul(FNV_PRIME)
}

/// Folds the four little-endian bytes of a 32-bit pattern into a checksum.
pub open spec fn fold_word(h: u64, bits: u32) -> u64 {
    let b = bits as u64;
    fnv_byte(
        fnv_byte(fnv_byte(fnv_byte(h, b & 0xff), (b >> 8u64) & 0xff), (b >> 16u64) & 0xff),
        (b >> 24u64) & 0xff,
    )
}

/// Folds the bit pattern of one sample value into the running FNV-1a checksum,
/// byte by byte, least significant byte first.
pub fn update_checksum(current: u64, value_bits: u32) -> (checksum: u64)
    ensures
        checksum == fold_word(current, value_bits),
{
    let b = value_bits as u64;
    let mut checksum = current;
    checksum = (checksum ^ (b & 0xff)).wrapping_mul(FNV_PRIME);
    checksum = (checksum ^ ((b >> 8u64) & 0xff)).wrapping_mul(FNV_PRIME);
    checksum = (checksum ^ ((b >> 16u64) & 0xff)).wrapping_mul(FNV_PRIME);
    checksum = (checksum ^ ((b >> 24u64) & 0xff)).wrapping_mul(FNV_PRIME);
    checksum
}

/// The checksum of a sequence of sample bit patterns, folded in order from `start`.
pub open spec fn fold_words(start: u64, words: Seq<u32>) -> u64
    decreases words.len(),
{
    if words.len() == 0 {
        start
    } else {
        fold_word(fold_words(start, words.drop_last()), words.last())
    }
}

/// Folds every bit pattern of `words` into the checksum `start`, in order.
pub fn checksum_words(start: u64, words: &[u32]) -> (checksum: u64)
    ensures
        checksum == fold_words(start, words@),
{
    let mut checksum = start;
    let mut i: usize = 0;
    while i < words.len()
        invariant
            i <= words@.len(),
            checksum == fold_words(start, words@.subrange(0, i as int)),
        decreases words@.len() - i,
    {
        let ghost prefix = words@.subrange(0, i as int + 1);
        assert(prefix.drop_last() =~= words@.subrange(0, i as int));
        checksum = update_checksum(checksum, words[i]);
        i = i + 1;
    }
    assert(words@.subrange(0, i as int) =~= words@);
    checksum
}

/// Why a WAV input is refused.
#[derive(Clone, Copy, Debug, PartialEq, Eq, Structural)]
pub enum WavError {
    NoChannels,
    UnsupportedFormat,
    PartialFrame,
}

pub open spec fn wav_error_message(e: WavError) -> Seq<char> {
    match e {
        WavError::NoChannels => "WAV channel count must be > 0"@,
        WavError::UnsupportedFormat => "only 16-bit PCM WAV is supported"@,
        WavError::PartialFrame => "WAV sample count is not divisible by channel count"@,
    }
}

impl WavError {
    pub fn message(&self) -> (m: &'static str)
        ensures
            m@ == wav_error_message(*self),
    {
        match self {
            WavError::NoChannels => "WAV channel count must be > 0",
            WavError::UnsupportedFormat => "only 16-bit PCM WAV is supported",
            WavError::PartialFrame => "WAV sample count is not divisible by channel count",
        }
    }
}

pub open spec fn wav_format_spec(channels: u16, integer_samples: bool, bits_per_sample: u16) -> Result<
    (),
    WavError,
> {
    if channels == 0 {
        Err(WavError::NoChannels)
    } else if !(integer_samples && bits_per_sample == 16) {
        Err(WavError::UnsupportedFormat)
    } else {
        Ok(())
    }
}

/// Accepts the header of a WAV input: at least one channel, 16-bit integer samples.
pub fn check_wav_format(channels: u16, integer_samples: bool, bits_per_sample: u16) -> (r: Result<
    (),
    WavError,
>)
    ensures
        r == wav_format_spec(channels, integer_samples, bits_per_sample),
{
    if channels == 0 {
        return Err(WavError::NoChannels);
    }
    if !(integer_samples && bits_per_sample == 16) {
        return Err(WavError::UnsupportedFormat);
    }
    Ok(())
}

pub open spec fn wav_frames_spec(sample_count: usize, channels: u16) -> Result<usize, WavError> {
    if sample_count as int % (channels as int) != 0 {
        Err(WavError::PartialFrame)
    } else {
        Ok((sample_count as int / (channels as int)) as usize)
    }
}

/// The number of frames in `sample_count` interleaved samples; refuses a
/// count that ends in a partial frame.
pub fn wav_frame_count(sample_count: usize, channels: u16) -> (r: Result<usize, WavError>)
    requires
        channels > 0,
    ensures
        r == wav_frames_spec(sample_count, channels),
{
    let c = channels as usize;
    if sample_count % c != 0 {
        return Err(WavError::PartialFrame);
    }
    Ok(sample_count / c)
}

/// The name of the build profile the benchmark ran under.
pub fn build_profile(debug_assertions: bool) -> (name: &'static str)
    ensures
        name@ == (if debug_assertions {
            "debug"@
        } else {
            "release"@
        }),
{
    if debug_assertions {
        "debug"
    } else {
        "release"
    }
}

/// The total of a list of chunk timings.
pub open spec fn sum_ns(ns: Seq<u128>) -> int
    decreases ns.len(),
{
    if ns.len() == 0 {
        0
    } else {
        sum_ns(ns.drop_last()) + ns.last()
    }
}

proof fn lemma_sum_ns_grows(ns: Seq<u128>, k: int)
    requires
        0 <= k <= ns.len(),
    ensures
        0 <= sum_ns(ns.subrange(0, k)) <= sum_ns(ns),
    decreases ns.len() - k,
{
    if k == ns.len() {
        assert(ns.subrange(0, k) =~= ns);
        lemma_sum_ns_nonneg(ns);
    } else {
        lemma_sum_ns_grows(ns, k + 1);
        assert(ns.subrange(0, k + 1).drop_last() =~= ns.subrange(0, k));
        lemma_sum_ns_nonneg(ns.subrange(0, k));
    }
}

proof fn lemma_sum_ns_nonneg(ns: Seq<u128>)
    ensures
        sum_ns(ns) >= 0,
    decreases ns.len(),
{
    if ns.len() > 0 {
        lemma_sum_ns_nonneg(ns.drop_last());
    }
}

/// The total processing time of all chunks, or `None` when it does not fit
/// in `u128`.
pub fn total_ns(chunk_processing_ns: &Vec<u128>) -> (total: Option<u128>)
    ensures
        total == (if sum_ns(chunk_processing_ns@) <= u128::MAX {
            Some(sum_ns(chunk_processing_ns@) as u128)
        } else {
            None
        }),
{
    let mut total: u128 = 0;
    let mut i: usize = 0;
    while i < chunk_processing_ns.len()
        invariant
            i <= chunk_processing_ns@.len(),
            total == sum_ns(chunk_processing_ns@.subrange(0, i as int)),
        decreases chunk_processing_ns@.len() - i,
    {
        let ghost prefix = chunk_processing_ns@.subrange(0, i as int + 1);
        assert(prefix.drop_last() =~= chunk_processing_ns@.subrange(0, i as int));
        match total.checked_add(chunk_processing_ns[i]) {
            Some(t) => {
                total = t;
            },
            None => {
                proof {
                    lemma_sum_ns_grows(chunk_processing_ns@, i as int + 1);
                }
                return None;
            },
        }
        i = i + 1;
    }
    assert(chunk_processing_ns@.subrange(0, i as int) =~= chunk_processing_ns@);
    Some(total)
}

/// Whole microseconds in `ns` nanoseconds, or `u64::MAX` when they do not fit.
pub fn microseconds(ns: u128) -> (us: u64)
    ensures
        us == (if ns / 1000 <= u64::MAX {
            (ns / 1000) as u64
        } else {
            u64::MAX
        }),
{
    let q = ns / 1000;
    if q <= u64::MAX as u128 {
        q as u64
    } else {
        u64::MAX
    }
}

/// The frame count of a duration is the whole frames it spans: `frames`
/// frames last at most `ms` milliseconds and one frame more lasts longer.
pub proof fn law_frames_are_whole_frames_in_duration(sample_rate_hz: u32, ms: u32)
    ensures
        frames_for_ms_spec(sample_rate_hz, ms) matches Ok(frames) ==> frames * 1000 <= (
        sample_rate_hz as int) * (ms as int) < (frames + 1) * 1000 && frames >= 1,
        frames_for_ms_spec(sample_rate_hz, ms) == Err::<usize, BenchError>(
            BenchError::DurationTooShort,
        ) ==> (sample_rate_hz as int) * (ms as int) < 1000,
{
    let x = (sample_rate_hz as int) * (ms as int);
    assert(x >= 0) by (nonlinear_arith)
        requires
            x == (sample_rate_hz as int) * (ms as int),
            sample_rate_hz >= 0,
            ms >= 0,
    ;
    let q = x / 1000;
    assert(q * 1000 <= x < (q + 1) * 1000);
}

/// A plan cuts the input into every whole chunk that fits: chunk `k` starts
/// `k` hops in, the last planned chunk ends within the input, and one more
/// chunk would not.
pub proof fn law_plan_covers_whole_chunks(
    chunk_ms: u32,
    hop_ms: u32,
    sample_rate_hz: u32,
    input_frames: usize,
)
    ensures
        bench_plan_spec(chunk_ms, hop_ms, sample_rate_hz, input_frames) matches Ok(p) ==> {
            &&& p.chunk_count >= 1
            &&& (p.chunk_count - 1) * p.hop_frames + p.chunk_frames <= input_frames
            &&& p.chunk_count * p.hop_frames + p.chunk_frames > input_frames
            &&& p.duration_ms * (sample_rate_hz as int) <= (input_frames as int) * 1000
        },
{
    match bench_plan_spec(chunk_ms, hop_ms, sample_rate_hz, input_frames) {
        Ok(p) => {
            let h = p.hop_frames as int;
            let c = p.chunk_frames as int;
            let r = input_frames - c;
            let q = r / h;
            assert(h > 0);
            assert(q * h <= r < (q + 1) * h) by (nonlinear_arith)
                requires
                    h > 0,
                    r >= 0,
                    q == r / h,
            ;
            assert(p.chunk_count == q + 1);
            assert((p.chunk_count - 1) * h == q * h);
            assert(p.chunk_count * h == (q + 1) * h);
            let sr = sample_rate_hz as int;
            let x = input_frames as int * 1000;
            assert(sr > 0);
            assert((x / sr) * sr <= x) by (nonlinear_arith)
                requires
                    sr > 0,
                    x >= 0,
            ;
            assert(p.duration_ms == x / sr);
        },
        Err(_) => {},
    }
}

} // verus!
