use vc_runtime::bench::{
    build_profile, check_wav_format, checksum_words, count_deadline_misses,
    deadline_threshold_failure, frames_for_ms, microseconds, plan_benchmark, total_ns, update_checksum,
    wav_frame_count,
    BenchError, BenchPlan, Stage, ThresholdEvaluation, WavError, FNV_OFFSET_BASIS,
};

#[test]
fn stage_names_are_stable() {
    assert_eq!(Stage::Copy.as_str(), "copy");
    assert_eq!(Stage::Gain.as_str(), "gain");
    assert_eq!(Stage::Rms.as_str(), "rms");
}

#[test]
fn rejects_unsupported_chunk_shape() {
    let error = plan_benchmark(0, 50, 16_000, 16_000).unwrap_err();

    assert_eq!(error.message(), "chunk-ms must be > 0");
}

#[test]
fn plans_the_offline_fixture_chunks() {
    let plan = plan_benchmark(100, 50, 16_000, 16_000).expect("plan");
    assert_eq!(
        plan,
        BenchPlan {
            chunk_frames: 1_600,
            hop_frames: 800,
            chunk_count: 19,
            duration_ms: 1_000,
        }
    );
    assert_eq!(plan.chunk_range(0, 16_000), (0, 1_600));
    assert_eq!(plan.chunk_range(18, 16_000), (14_400, 16_000));
}

#[test]
fn plan_rejects_short_inputs_and_tiny_durations() {
    assert_eq!(plan_benchmark(100, 0, 16_000, 16_000), Err(BenchError::HopMsZero));
    assert_eq!(plan_benchmark(100, 50, 16_000, 1_000), Err(BenchError::InputShorterThanChunk));
    assert_eq!(plan_benchmark(100, 50, 5, 1_000), Err(BenchError::DurationTooShort));
    assert_eq!(
        BenchError::DurationTooShort.message(),
        "chunk/hop duration is too small for input sample rate"
    );
}

#[test]
fn frames_for_ms_rounds_down() {
    assert_eq!(frames_for_ms(44_100, 10), Ok(441));
    assert_eq!(frames_for_ms(44_100, 1), Ok(44));
    assert_eq!(frames_for_ms(999, 1), Err(BenchError::DurationTooShort));
}

#[test]
fn counts_chunks_slower_than_one_hop() {
    let ns = vec![10_000_000u128, 50_000_000, 50_000_001, 90_000_000];
    assert_eq!(count_deadline_misses(&ns, 50), 2);
    assert_eq!(count_deadline_misses(&Vec::new(), 50), 0);
}

#[test]
fn checksum_folds_little_endian_bytes() {
    let mut expected = FNV_OFFSET_BASIS;
    for byte in 1.5f32.to_bits().to_le_bytes() {
        expected ^= u64::from(byte);
        expected = expected.wrapping_mul(0x100_0000_01b3);
    }
    assert_eq!(update_checksum(FNV_OFFSET_BASIS, 1.5f32.to_bits()), expected);
    assert_ne!(update_checksum(FNV_OFFSET_BASIS, 0), FNV_OFFSET_BASIS);
}

#[test]
fn deadline_threshold_reports_excess_misses() {
    assert_eq!(
        deadline_threshold_failure(2, Some(0)),
        Some("deadline_miss_events 2 exceeded max 0".to_owned())
    );
    assert_eq!(deadline_threshold_failure(2, Some(2)), None);
    assert_eq!(deadline_threshold_failure(2, None), None);
}

#[test]
fn evaluation_passes_without_failures() {
    assert!(ThresholdEvaluation::from_failures(Vec::new()).passed);
    let failed = ThresholdEvaluation::from_failures(vec!["x".to_owned()]);
    assert!(!failed.passed);
    assert_eq!(failed.failures, vec!["x".to_owned()]);
}

#[test]
fn checksum_words_folds_in_order() {
    let words = [1.5f32.to_bits(), 0, (-0.25f32).to_bits()];
    let mut expected = FNV_OFFSET_BASIS;
    for word in words {
        expected = update_checksum(expected, word);
    }
    assert_eq!(checksum_words(FNV_OFFSET_BASIS, &words), expected);
    assert_eq!(checksum_words(FNV_OFFSET_BASIS, &[]), FNV_OFFSET_BASIS);
    assert_ne!(
        checksum_words(FNV_OFFSET_BASIS, &[words[1], words[0]]),
        checksum_words(FNV_OFFSET_BASIS, &[words[0], words[1]])
    );
}

#[test]
fn wav_header_checks() {
    assert_eq!(check_wav_format(2, true, 16), Ok(()));
    assert_eq!(check_wav_format(0, true, 16), Err(WavError::NoChannels));
    assert_eq!(check_wav_format(1, false, 16), Err(WavError::UnsupportedFormat));
    assert_eq!(check_wav_format(1, true, 24), Err(WavError::UnsupportedFormat));
    assert_eq!(WavError::NoChannels.message(), "WAV channel count must be > 0");
    assert_eq!(WavError::UnsupportedFormat.message(), "only 16-bit PCM WAV is supported");
}

#[test]
fn wav_frames_must_be_whole() {
    assert_eq!(wav_frame_count(32_000, 2), Ok(16_000));
    assert_eq!(wav_frame_count(0, 3), Ok(0));
    assert_eq!(wav_frame_count(7, 2), Err(WavError::PartialFrame));
    assert_eq!(
        WavError::PartialFrame.message(),
        "WAV sample count is not divisible by channel count"
    );
}

#[test]
fn build_profile_names() {
    assert_eq!(build_profile(true), "debug");
    assert_eq!(build_profile(false), "release");
}

#[test]
fn offline_wav_input_is_planned_and_checksummed() {
    let dir = tempfile::tempdir().expect("tempdir");
    let path = dir.path().join("speech.wav");
    let spec = hound::WavSpec {
        channels: 1,
        sample_rate: 16_000,
        bits_per_sample: 16,
        sample_format: hound::SampleFormat::Int,
    };
    let mut writer = hound::WavWriter::create(&path, spec).expect("create wav");
    for i in 0..16_000 {
        let sample = (((i % 128) as i16) - 64) * 128;
        writer.write_sample(sample).expect("write sample");
    }
    writer.finalize().expect("finalize wav");

    let mut reader = hound::WavReader::open(&path).expect("open wav");
    let read_spec = reader.spec();
    assert_eq!(
        check_wav_format(
            read_spec.channels,
            read_spec.sample_format == hound::SampleFormat::Int,
            read_spec.bits_per_sample
        ),
        Ok(())
    );
    let samples: Vec<i16> = reader.samples::<i16>().map(|s| s.unwrap()).collect();
    let frames = wav_frame_count(samples.len(), read_spec.channels).expect("whole frames");
    assert_eq!(frames, 16_000);

    let plan = plan_benchmark(100, 50, read_spec.sample_rate, frames).expect("plan");
    assert_eq!(plan.chunk_count, 19);
    assert_eq!(plan.duration_ms, 1_000);
    let (start, end) = plan.chunk_range(plan.chunk_count - 1, frames);
    assert_eq!((start, end), (14_400, 16_000));

    let mono_bits: Vec<u32> = samples
        .iter()
        .map(|s| (f32::from(*s) / f32::from(i16::MAX)).to_bits())
        .collect();
    assert_ne!(checksum_words(FNV_OFFSET_BASIS, &mono_bits), 0);
    assert_eq!(count_deadline_misses(&vec![0u128; plan.chunk_count], 50), 0);
}

#[test]
fn totals_and_microseconds() {
    assert_eq!(total_ns(&vec![1_500u128, 2_500, 1_000_000]), Some(1_004_000));
    assert_eq!(total_ns(&Vec::new()), Some(0));
    assert_eq!(total_ns(&vec![u128::MAX, 1]), None);
    assert_eq!(microseconds(1_999), 1);
    assert_eq!(microseconds(999), 0);
    assert_eq!(microseconds(u128::MAX), u64::MAX);
    assert_eq!(microseconds(u64::MAX as u128 * 1000 + 999), u64::MAX);
}
