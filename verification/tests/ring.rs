use rtrb::RingBuffer;
use vc_runtime::metrics::{AudioCounters, AudioMetricsSnapshot};
use vc_runtime::passthrough::{PassthroughError, MAX_CAPACITY_FRAMES};
use vc_runtime::ring::{fill_output_samples_typed, open_ring, push_input_samples_typed};

fn bits(values: &[f32]) -> Vec<u32> {
    values.iter().map(|v| v.to_bits()).collect()
}

#[test]
fn input_callback_pushes_complete_frames_and_records_metrics() {
    let (mut producer, mut consumer) = RingBuffer::<u32>::new(4);
    let mut counters = AudioCounters::default();

    push_input_samples_typed(&bits(&[0.1, 0.2, 0.3, 0.4]), 2, &mut producer, &mut counters);

    assert_eq!(consumer.pop().unwrap(), 0.1f32.to_bits());
    assert_eq!(consumer.pop().unwrap(), 0.2f32.to_bits());
    assert_eq!(consumer.pop().unwrap(), 0.3f32.to_bits());
    assert_eq!(consumer.pop().unwrap(), 0.4f32.to_bits());
    assert_eq!(
        counters.snapshot(),
        AudioMetricsSnapshot {
            input_callbacks: 1,
            pushed_frames: 2,
            ..Default::default()
        }
    );
}

#[test]
fn input_callback_records_one_overrun_event_per_callback() {
    let (mut producer, mut consumer) = RingBuffer::<u32>::new(2);
    let mut counters = AudioCounters::default();

    push_input_samples_typed(&bits(&[0.1, 0.2, 0.3, 0.4]), 2, &mut producer, &mut counters);

    assert_eq!(consumer.pop().unwrap(), 0.1f32.to_bits());
    assert_eq!(consumer.pop().unwrap(), 0.2f32.to_bits());
    assert_eq!(
        counters.snapshot(),
        AudioMetricsSnapshot {
            input_callbacks: 1,
            pushed_frames: 1,
            overrun_events: 1,
            ..Default::default()
        }
    );
}

#[test]
fn output_callback_pops_frames_and_records_metrics() {
    let (mut producer, mut consumer) = RingBuffer::<u32>::new(4);
    for value in [0.1f32, 0.2, 0.3, 0.4] {
        producer.push(value.to_bits()).unwrap();
    }
    let mut counters = AudioCounters::default();
    let mut output = bits(&[0.0; 4]);

    fill_output_samples_typed(&mut output, 2, &mut consumer, &mut counters);

    assert_eq!(output, bits(&[0.1, 0.2, 0.3, 0.4]));
    assert_eq!(
        counters.snapshot(),
        AudioMetricsSnapshot {
            output_callbacks: 1,
            popped_frames: 2,
            ..Default::default()
        }
    );
}

#[test]
fn output_callback_writes_silence_and_records_one_underrun_event_per_callback() {
    let (_producer, mut consumer) = RingBuffer::<u32>::new(2);
    let mut counters = AudioCounters::default();
    let mut output = bits(&[1.0; 4]);

    fill_output_samples_typed(&mut output, 2, &mut consumer, &mut counters);

    assert_eq!(output, bits(&[0.0, 0.0, 0.0, 0.0]));
    assert_eq!(
        counters.snapshot(),
        AudioMetricsSnapshot {
            output_callbacks: 1,
            underrun_events: 1,
            ..Default::default()
        }
    );
}

#[test]
fn input_callback_ignores_a_trailing_partial_frame() {
    let (mut producer, mut consumer) = RingBuffer::<u32>::new(8);
    let mut counters = AudioCounters::default();
    push_input_samples_typed(&[1, 2, 3, 4, 5], 2, &mut producer, &mut counters);
    assert_eq!(consumer.slots(), 4);
    assert_eq!(counters.snapshot().pushed_frames, 2);
    assert_eq!(counters.snapshot().overrun_events, 0);
}

#[test]
fn output_callback_leaves_a_trailing_partial_frame_untouched() {
    let (mut producer, mut consumer) = RingBuffer::<u32>::new(8);
    for value in [7u32, 8, 9] {
        producer.push(value).unwrap();
    }
    let mut counters = AudioCounters::default();
    let mut output = vec![1u32, 1, 1, 1, 5];
    fill_output_samples_typed(&mut output, 2, &mut consumer, &mut counters);
    assert_eq!(output, vec![7, 8, 0, 0, 5]);
    assert_eq!(counters.snapshot().popped_frames, 1);
    assert_eq!(counters.snapshot().underrun_events, 1);
    assert_eq!(consumer.pop().unwrap(), 9);
}

#[test]
fn open_ring_sizes_the_buffer_in_samples() {
    let (mut producer, mut consumer) = open_ring(2, 2).expect("ring");
    let mut counters = AudioCounters::default();
    push_input_samples_typed(&[1, 2, 3, 4, 5, 6], 2, &mut producer, &mut counters);
    assert_eq!(counters.snapshot().pushed_frames, 2);
    assert_eq!(counters.snapshot().overrun_events, 1);
    assert_eq!(consumer.slots(), 4);
    assert_eq!(
        open_ring(MAX_CAPACITY_FRAMES, 9).unwrap_err(),
        PassthroughError::CapacityTooManySamples { samples: MAX_CAPACITY_FRAMES * 9 }
    );
}

#[test]
fn output_callback_pops_whole_frames_only() {
    let (mut producer, mut consumer) = open_ring(4, 2).expect("ring");
    for value in [7u32, 8, 9] {
        producer.push(value).unwrap();
    }
    let mut counters = AudioCounters::default();
    let mut output = vec![1u32; 4];
    fill_output_samples_typed(&mut output, 2, &mut consumer, &mut counters);
    assert_eq!(output, vec![7, 8, 0, 0]);
    assert_eq!(counters.snapshot().popped_frames, 1);
    assert_eq!(counters.snapshot().underrun_events, 1);
    assert_eq!(consumer.pop().unwrap(), 9);
}

#[test]
fn output_plays_what_input_pushed_in_order() {
    let (mut producer, mut consumer) = open_ring(4, 2).expect("ring");
    let mut input_counters = AudioCounters::default();
    let mut output_counters = AudioCounters::default();
    push_input_samples_typed(&[1, 2, 3, 4], 2, &mut producer, &mut input_counters);
    push_input_samples_typed(&[5, 6], 2, &mut producer, &mut input_counters);
    let mut output = vec![0u32; 6];
    fill_output_samples_typed(&mut output, 2, &mut consumer, &mut output_counters);
    assert_eq!(output, vec![1, 2, 3, 4, 5, 6]);
    assert_eq!(input_counters.snapshot().pushed_frames, 3);
    assert_eq!(output_counters.snapshot().popped_frames, 3);
    assert_eq!(output_counters.snapshot().underrun_events, 0);
}
