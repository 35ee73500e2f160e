use vc_runtime::passthrough::{
    capacity_samples, validate_stream_shapes, PassthroughConfig, PassthroughError, StreamShape,
    DEFAULT_CAPACITY_FRAMES, MAX_CAPACITY_FRAMES, MAX_CAPACITY_SAMPLES,
};

#[test]
fn rejects_zero_capacity_frames() {
    let config = PassthroughConfig {
        capacity_frames: 0,
        ..PassthroughConfig::default()
    };

    let error = config.validate().unwrap_err().message();

    assert_eq!(error, "capacity-frames must be at least 1");
}

#[test]
fn rejects_capacity_frames_above_phase_limit() {
    let config = PassthroughConfig {
        capacity_frames: MAX_CAPACITY_FRAMES + 1,
        ..PassthroughConfig::default()
    };

    let error = config.validate().unwrap_err().message();

    assert_eq!(
        error,
        format!("capacity-frames must be at most {MAX_CAPACITY_FRAMES}")
    );
}

#[test]
fn rejects_total_capacity_samples_above_phase_limit() {
    let error = capacity_samples(MAX_CAPACITY_FRAMES, 9)
        .unwrap_err()
        .message();

    assert_eq!(
        error,
        format!(
            "capacity requires {} samples but Phase 0.1 allows at most {MAX_CAPACITY_SAMPLES}",
            MAX_CAPACITY_FRAMES * 9
        )
    );
}

#[test]
fn rejects_mismatched_stream_rates() {
    let error = validate_stream_shapes(
        StreamShape {
            sample_rate: 48_000,
            channels: 2,
        },
        StreamShape {
            sample_rate: 44_100,
            channels: 2,
        },
    )
    .unwrap_err()
    .message();

    assert_eq!(
        error,
        "input sample rate 48000 Hz does not match output sample rate 44100 Hz"
    );
}

#[test]
fn rejects_mismatched_channel_counts() {
    let error = validate_stream_shapes(
        StreamShape {
            sample_rate: 48_000,
            channels: 1,
        },
        StreamShape {
            sample_rate: 48_000,
            channels: 2,
        },
    )
    .unwrap_err()
    .message();

    assert_eq!(
        error,
        "input channel count 1 does not match output channel count 2"
    );
}

#[test]
fn default_config_uses_default_capacity_and_default_devices() {
    let config = PassthroughConfig::default();
    assert_eq!(config.capacity_frames, DEFAULT_CAPACITY_FRAMES);
    assert_eq!(config.input_index, None);
    assert_eq!(config.output_index, None);
    assert_eq!(config.validate(), Ok(config));
}

#[test]
fn accepts_capacity_at_the_limits() {
    for frames in [1, MAX_CAPACITY_FRAMES] {
        let config = PassthroughConfig {
            capacity_frames: frames,
            ..PassthroughConfig::default()
        };
        assert_eq!(config.validate(), Ok(config));
    }
}

#[test]
fn rejects_streams_without_channels() {
    let mono = StreamShape { sample_rate: 48_000, channels: 1 };
    let empty = StreamShape { sample_rate: 48_000, channels: 0 };
    assert_eq!(
        validate_stream_shapes(empty, mono).unwrap_err().message(),
        "input channel count must be at least 1"
    );
    assert_eq!(
        validate_stream_shapes(mono, empty).unwrap_err().message(),
        "output channel count must be at least 1"
    );
    assert_eq!(validate_stream_shapes(mono, mono), Ok(mono));
}

#[test]
fn capacity_samples_multiplies_frames_by_channels() {
    assert_eq!(capacity_samples(48_000, 2), Ok(96_000));
    assert_eq!(capacity_samples(MAX_CAPACITY_FRAMES, 8), Ok(MAX_CAPACITY_SAMPLES));
    let overflow = capacity_samples(usize::MAX, 2).unwrap_err();
    assert_eq!(
        overflow,
        PassthroughError::CapacityOverflow { frames: usize::MAX, channels: 2 }
    );
    assert_eq!(
        overflow.message(),
        format!("capacity-frames {} is too large for 2 channels", usize::MAX)
    );
}
