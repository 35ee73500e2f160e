use vc_runtime::devices::{DeviceReport, DeviceSummary};
use vc_runtime::metrics::AudioMetricsSnapshot;
use vc_runtime::passthrough::PassthroughStreamInfo;
use vc_runtime::report_text::{
    format_device_report, format_passthrough_metrics, format_passthrough_started,
};

#[test]
fn formats_input_and_output_device_sections() {
    let devices = DeviceReport {
        inputs: vec![DeviceSummary {
            index: 0,
            name: "Mic".to_owned(),
        }],
        outputs: vec![DeviceSummary {
            index: 1,
            name: "Speakers".to_owned(),
        }],
        warnings: Vec::new(),
    };

    let output = format_device_report(&devices);

    assert!(output.contains("Input devices:"));
    assert!(output.contains("  [0] Mic"));
    assert!(output.contains("Output devices:"));
    assert!(output.contains("  [1] Speakers"));
}

#[test]
fn formats_empty_device_sections() {
    let devices = DeviceReport {
        inputs: Vec::new(),
        outputs: Vec::new(),
        warnings: Vec::new(),
    };

    let output = format_device_report(&devices);

    assert!(output.contains("Input devices:"));
    assert!(output.contains("  (none found)"));
    assert!(output.contains("Output devices:"));
}

#[test]
fn formats_listing_warnings() {
    let devices = DeviceReport {
        inputs: Vec::new(),
        outputs: Vec::new(),
        warnings: vec!["failed to list input devices: unavailable".to_owned()],
    };

    let output = format_device_report(&devices);

    assert!(output.contains("Warnings:"));
    assert!(output.contains("  failed to list input devices: unavailable"));
}

#[test]
fn formats_passthrough_metrics_line() {
    let output = format_passthrough_metrics(
        3,
        AudioMetricsSnapshot {
            input_callbacks: 10,
            output_callbacks: 11,
            pushed_frames: 480,
            popped_frames: 448,
            underrun_events: 2,
            overrun_events: 1,
            input_stream_error_events: 4,
            output_stream_error_events: 5,
        },
    );

    assert_eq!(
        output,
        "t=3s input_cb=10 output_cb=11 pushed_frames=480 popped_frames=448 underrun_events=2 overrun_events=1 input_stream_error_events=4 output_stream_error_events=5"
    );
}

#[test]
fn formats_passthrough_started_line_with_selected_devices() {
    let output = format_passthrough_started(&PassthroughStreamInfo {
        sample_rate_hz: 48_000,
        channels: 2,
        capacity_frames: 48_000,
        input_device_name: "Mic".to_owned(),
        output_device_name: "Speakers".to_owned(),
    });

    assert_eq!(
        output,
        "Passthrough started: input_device=\"Mic\" output_device=\"Speakers\" sample_rate_hz=48000 channels=2 capacity_frames=48000"
    );
}

#[test]
fn full_device_report_text_is_exact() {
    let report = DeviceReport {
        inputs: vec![DeviceSummary { index: 0, name: "Mic".to_owned() }],
        outputs: Vec::new(),
        warnings: vec!["w1".to_owned(), "w2".to_owned()],
    };
    assert_eq!(
        format_device_report(&report),
        "Input devices:\n  [0] Mic\n\nOutput devices:\n  (none found)\n\nWarnings:\n  w1\n  w2\n"
    );
}

#[test]
fn started_line_escapes_quotes_in_device_names() {
    let output = format_passthrough_started(&PassthroughStreamInfo {
        sample_rate_hz: 44_100,
        channels: 1,
        capacity_frames: 10,
        input_device_name: "My \"USB\" Mic".to_owned(),
        output_device_name: "Out".to_owned(),
    });
    assert_eq!(
        output,
        "Passthrough started: input_device=\"My \\\"USB\\\" Mic\" output_device=\"Out\" sample_rate_hz=44100 channels=1 capacity_frames=10"
    );
}
