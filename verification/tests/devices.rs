use vc_runtime::devices::{
    backend_probe_warnings, build_device_report, collect_named_device_summaries, DeviceDirection,
    DeviceSummary,
};

#[test]
fn reports_device_name_failures_as_warnings() {
    let mut warnings = Vec::new();

    let devices = collect_named_device_summaries(
        DeviceDirection::Input,
        vec![Ok("Mic".to_owned()), Err("name unavailable".to_owned())],
        &mut warnings,
    );

    assert_eq!(
        devices,
        vec![
            DeviceSummary {
                index: 0,
                name: "Mic".to_owned(),
            },
            DeviceSummary {
                index: 1,
                name: "<unknown input device>".to_owned(),
            },
        ]
    );
    assert_eq!(
        warnings,
        vec!["failed to read input device name at index 1: name unavailable"]
    );
}

#[test]
fn warns_about_alsa_probe_diagnostics() {
    let warnings = backend_probe_warnings("ALSA");

    assert_eq!(warnings.len(), 1);
    assert!(warnings[0].contains("ALSA"));
    assert!(warnings[0].contains("stderr"));
}

#[test]
fn other_backends_get_no_probe_warning() {
    assert!(backend_probe_warnings("CoreAudio").is_empty());
    assert!(backend_probe_warnings("ALS").is_empty());
    assert!(backend_probe_warnings("").is_empty());
}

#[test]
fn direction_labels_are_stable() {
    assert_eq!(DeviceDirection::Input.label(), "input");
    assert_eq!(DeviceDirection::Output.label(), "output");
}

#[test]
fn report_collects_both_directions_and_listing_failures() {
    let report = build_device_report(
        "ALSA",
        Ok(vec![Ok("Mic".to_owned())]),
        Err("device enumeration failed".to_owned()),
    );
    assert_eq!(report.inputs.len(), 1);
    assert_eq!(report.inputs[0].name, "Mic");
    assert!(report.outputs.is_empty());
    assert_eq!(report.warnings.len(), 2);
    assert!(report.warnings[0].contains("ALSA"));
    assert_eq!(
        report.warnings[1],
        "failed to list output devices: device enumeration failed"
    );
}

#[test]
fn output_name_failures_name_the_output_direction() {
    let mut warnings = vec!["earlier".to_owned()];
    let devices = collect_named_device_summaries(
        DeviceDirection::Output,
        vec![Err("busy".to_owned()), Ok("Speakers".to_owned()), Err("gone".to_owned())],
        &mut warnings,
    );
    assert_eq!(devices[0].name, "<unknown output device>");
    assert_eq!(devices[1].index, 1);
    assert_eq!(devices[2].index, 2);
    assert_eq!(
        warnings,
        vec![
            "earlier",
            "failed to read output device name at index 0: busy",
            "failed to read output device name at index 2: gone"
        ]
    );
}
