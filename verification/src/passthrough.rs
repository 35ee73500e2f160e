//! Checks that a passthrough session performs before it opens any stream:
//! ring-buffer capacity limits and matching input/output stream shapes.
use vstd::prelude::*;

use crate::text::{decimal, push_decimal};

verus! {

/// Ring-buffer capacity used when none is given, in frames.
pub const DEFAULT_CAPACITY_FRAMES: usize = 48_000;

/// Largest accepted ring-buffer capacity, in frames.
pub const MAX_CAPACITY_FRAMES: usize = 960_000;

/// Largest accepted ring-buffer capacity, in samples over all channels.
pub const MAX_CAPACITY_SAMPLES: usize = MAX_CAPACITY_FRAMES * 8;

/// Which devices a passthrough session uses and how much audio it buffers.
#[derive(Clone, Copy, Debug, PartialEq, Eq, Structural)]
pub struct PassthroughConfig {
    /// Index in the current input listing; the default device when absent.
    pub input_index: Option<usize>,
    /// Index in the current output listing; the default device when absent.
    pub output_index: Option<usize>,
    pub capacity_frames: usize,
}

impl Default for PassthroughConfig {
    fn default() -> (c: Self)
        ensures
            c == (PassthroughConfig {
                input_index: None,
                output_index: None,
                capacity_frames: DEFAULT_CAPACITY_FRAMES,
            }),
    {
        PassthroughConfig {
            input_index: None,
            output_index: None,
            capacity_frames: DEFAULT_CAPACITY_FRAMES,
        }
    }
}

/// Why a passthrough session cannot start.
#[derive(Clone, Copy, Debug, PartialEq, Eq, Structural)]
pub enum PassthroughError {
    CapacityTooSmall,
    CapacityTooLarge,
    InputChannelsZero,
    OutputChannelsZero,
    SampleRateMismatch { input: u32, output: u32 },
    ChannelCountMismatch { input: u16, output: u16 },
    CapacityOverflow { frames: usize, channels: usize },
    CapacityTooManySamples { samples: usize },
}

/// The text of each error.
pub open spec fn error_message(e: PassthroughError) -> Seq<char> {
    match e {
        PassthroughError::CapacityTooSmall => "capacity-frames must be at least 1"@,
        PassthroughError::CapacityTooLarge => "capacity-frames must be at most "@ + decimal(
            MAX_CAPACITY_FRAMES as nat,
        ),
        PassthroughError::InputChannelsZero => "input channel count must be at least 1"@,
        PassthroughError::OutputChannelsZero => "output channel count must be at least 1"@,
        PassthroughError::SampleRateMismatch { input, output } => "input sample rate "@
            + decimal(input as nat) + " Hz does not match output sample rate "@ + decimal(
            output as nat,
        ) + " Hz"@,
        PassthroughError::ChannelCountMismatch { input, output } => "input channel count "@
            + decimal(input as nat) + " does not match output channel count "@ + decimal(
            output as nat,
        ),
        PassthroughError::CapacityOverflow { frames, channels } => "capacity-frames "@ + decimal(
            frames as nat,
        ) + " is too large for "@ + decimal(channels as nat) + " channels"@,
        PassthroughError::CapacityTooManySamples { samples } => "capacity requires "@ + decimal(
            samples as nat,
        ) + " samples but Phase 0.1 allows at most "@ + decimal(MAX_CAPACITY_SAMPLES as nat),
    }
}

impl PassthroughError {
    /// Renders the error as text.
    pub fn message(&self) -> (m: String)
        ensures
            m@ == error_message(*self),
    {
        let mut out = String::new();
        match *self {
            PassthroughError::CapacityTooSmall => {
                out.append("capacity-frames must be at least 1");
            },
            PassthroughError::CapacityTooLarge => {
                out.append("capacity-frames must be at most ");
                push_decimal(&mut out, MAX_CAPACITY_FRAMES as u64);
            },
            PassthroughError::InputChannelsZero => {
                out.append("input channel count must be at least 1");
            },
            PassthroughError::OutputChannelsZero => {
                out.append("output channel count must be at least 1");
            },
            PassthroughError::SampleRateMismatch { input, output } => {
                out.append("input sample rate ");
                push_decimal(&mut out, input as u64);
                out.append(" Hz does not match output sample rate ");
                push_decimal(&mut out, output as u64);
                out.append(" Hz");
            },
            PassthroughError::ChannelCountMismatch { input, output } => {
                out.append("input channel count ");
                push_decimal(&mut out, input as u64);
                out.append(" does not match output channel count ");
                push_decimal(&mut out, output as u64);
            },
            PassthroughError::CapacityOverflow { frames, channels } => {
                out.append("capacity-frames ");
                push_decimal(&mut out, frames as u64);
                out.append(" is too large for ");
                push_decimal(&mut out, channels as u64);
                out.append(" channels");
            },
            PassthroughError::CapacityTooManySamples { samples } => {
                out.append("capacity requires ");
                push_decimal(&mut out, samples as u64);
                out.append(" samples but Phase 0.1 allows at most ");
                push_decimal(&mut out, MAX_CAPACITY_SAMPLES as u64);
            },
        }
        assert(out@ =~= error_message(*self));
        out
    }
}

/// The outcome of checking a configuration: the first violated limit, if any.
pub open spec fn validate_spec(c: PassthroughConfig) -> Result<PassthroughConfig, PassthroughError> {
    if c.capacity_frames == 0 {
        Err(PassthroughError::CapacityTooSmall)
    } else if c.capacity_frames > MAX_CAPACITY_FRAMES {
        Err(PassthroughError::CapacityTooLarge)
    } else {
        Ok(c)
    }
}

impl PassthroughConfig {
    /// Accepts the configuration unchanged when its capacity is between 1
    /// and `MAX_CAPACITY_FRAMES` frames.
    pub fn validate(self) -> (r: Result<Self, PassthroughError>)
        ensures
            r == validate_spec(self),
    {
        if self.capacity_frames == 0 {
            return Err(PassthroughError::CapacityTooSmall);
        }
        if self.capacity_frames > MAX_CAPACITY_FRAMES {
            return Err(PassthroughError::CapacityTooLarge);
        }
        Ok(self)
    }
}

/// What a running passthrough session reports about its streams.
#[derive(Clone, Debug, PartialEq, Eq)]
pub struct PassthroughStreamInfo {
    pub sample_rate_hz: u32,
    pub channels: u16,
    pub capacity_frames: usize,
    pub input_device_name: String,
    pub output_device_name: String,
}

/// Sample rate and channel count of a device's default stream.
#[derive(Clone, Copy, Debug, PartialEq, Eq, Structural)]
pub struct StreamShape {
    pub sample_rate: u32,
    pub channels: u16,
}

/// The outcome of checking that an input and an output stream can be joined.
pub open spec fn stream_shapes_spec(input: StreamShape, output: StreamShape) -> Result<
    StreamShape,
    PassthroughError,
> {
    if input.channels == 0 {
        Err(PassthroughError::InputChannelsZero)
    } else if output.channels == 0 {
        Err(PassthroughError::OutputChannelsZero)
    } else if input.sample_rate != output.sample_rate {
        Err(
            PassthroughError::SampleRateMismatch {
                input: input.sample_rate,
                output: output.sample_rate,
            },
        )
    } else if input.channels != output.channels {
        Err(
            PassthroughError::ChannelCountMismatch {
                input: input.channels,
                output: output.channels,
            },
        )
    } else {
        Ok(input)
    }
}

/// Accepts two stream shapes that have channels and agree in rate and
/// channel count, and returns the common shape.
pub fn validate_stream_shapes(input: StreamShape, output: StreamShape) -> (r: Result<
    StreamShape,
    PassthroughError,
>)
    ensures
        r == stream_shapes_spec(input, output),
{
    if input.channels == 0 {
        return Err(PassthroughError::InputChannelsZero);
    }
    if output.channels == 0 {
        return Err(PassthroughError::OutputChannelsZero);
    }
    if input.sample_rate != output.sample_rate {
        return Err(
            PassthroughError::SampleRateMismatch {
                input: input.sample_rate,
                output: output.sample_rate,
            },
        );
    }
    if input.channels != output.channels {
        return Err(
            PassthroughError::ChannelCountMismatch {
                input: input.channels,
                output: output.channels,
            },
        );
    }
    Ok(input)
}

/// The outcome of sizing the ring buffer in samples.
pub open spec fn capacity_samples_spec(capacity_frames: usize, channels: usize) -> Result<
    usize,
    PassthroughError,
> {
    if capacity_frames * channels > usize::MAX {
        Err(PassthroughError::CapacityOverflow { frames: capacity_frames, channels })
    } else if capacity_frames * channels > MAX_CAPACITY_SAMPLES {
        Err(
            PassthroughError::CapacityTooManySamples {
                samples: (capacity_frames * channels) as usize,
            },
        )
    } else {
        Ok((capacity_frames * channels) as usize)
    }
}

/// The ring-buffer size in samples: `capacity_frames * channels`, at most
/// `MAX_CAPACITY_SAMPLES`.
pub fn capacity_samples(capacity_frames: usize, channels: usize) -> (r: Result<
    usize,
    PassthroughError,
>)
    ensures
        r == capacity_samples_spec(capacity_frames, channels),
{
    let samples = match capacity_frames.checked_mul(channels) {
        Some(v) => v,
        None => {
            return Err(PassthroughError::CapacityOverflow { frames: capacity_frames, channels });
        },
    };
    if samples > MAX_CAPACITY_SAMPLES {
        return Err(PassthroughError::CapacityTooManySamples { samples });
    }
    Ok(samples)
}

} // verus!
