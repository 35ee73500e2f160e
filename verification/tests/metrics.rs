use vc_runtime::metrics::{AudioCounters, AudioMetricsSnapshot};

#[test]
fn snapshot_starts_at_zero() {
    let counters = AudioCounters::default();

    let snapshot = counters.snapshot();

    assert_eq!(snapshot.input_callbacks, 0);
    assert_eq!(snapshot.output_callbacks, 0);
    assert_eq!(snapshot.pushed_frames, 0);
    assert_eq!(snapshot.popped_frames, 0);
    assert_eq!(snapshot.underrun_events, 0);
    assert_eq!(snapshot.overrun_events, 0);
}

#[test]
fn snapshot_reports_recorded_counts() {
    let mut counters = AudioCounters::default();

    counters.record_input_callback();
    counters.record_input_callback();
    counters.record_output_callback();
    counters.record_pushed_frames(128);
    counters.record_popped_frames(96);
    counters.record_underrun_event();
    counters.record_overrun_event();
    counters.record_overrun_event();

    let snapshot = counters.snapshot();

    assert_eq!(snapshot.input_callbacks, 2);
    assert_eq!(snapshot.output_callbacks, 1);
    assert_eq!(snapshot.pushed_frames, 128);
    assert_eq!(snapshot.popped_frames, 96);
    assert_eq!(snapshot.underrun_events, 1);
    assert_eq!(snapshot.overrun_events, 2);
}

#[test]
fn stream_error_events_are_counted_separately() {
    let mut counters = AudioCounters::default();
    counters.record_input_stream_error_event();
    counters.record_output_stream_error_event();
    counters.record_output_stream_error_event();
    assert_eq!(
        counters.snapshot(),
        AudioMetricsSnapshot {
            input_stream_error_events: 1,
            output_stream_error_events: 2,
            ..Default::default()
        }
    );
}

#[test]
fn frame_counters_wrap_around() {
    let mut counters = AudioCounters::default();
    counters.record_pushed_frames(u64::MAX);
    counters.record_pushed_frames(3);
    assert_eq!(counters.snapshot().pushed_frames, 2);
}

#[test]
fn repeated_records_lose_no_update() {
    let mut counters = AudioCounters::default();
    for _ in 0..1000 {
        counters.record_input_callback();
    }
    counters.record_pushed_frames(u64::MAX);
    counters.record_pushed_frames(3);
    let snapshot = counters.snapshot();
    assert_eq!(snapshot.input_callbacks, 1000);
    assert_eq!(snapshot.pushed_frames, 2);
    assert_eq!(snapshot.output_callbacks, 0);
    assert_eq!(snapshot.popped_frames, 0);
}
