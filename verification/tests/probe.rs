use vc_runtime::probe::{
    build_dry_run_report, build_fixture_report, canonical_provider, fixture_report_from,
    normalized_set, run_probe, trim_text, FixtureProbeState, ObservedWith, ProbeError,
    ProbeRequest, ProviderAssignmentGranularity, ProviderProbeStatus, AssignmentScope,
};

fn fixture_from_json(source: &str) -> FixtureProbeState {
    let value: serde_json::Value = serde_json::from_str(source).unwrap();
    let list = |key: &str| -> Vec<String> {
        value
            .get(key)
            .and_then(|v| v.as_array())
            .map(|items| {
                items
                    .iter()
                    .map(|item| item.as_str().unwrap().to_string())
                    .collect()
            })
            .unwrap_or_default()
    };
    FixtureProbeState {
        available_providers: list("available_providers"),
        fallback_chain: list("fallback_chain"),
    }
}

#[test]
fn fixture_probe_matches_expected_assignment() {
    let fixture = fixture_from_json(
        r#"{
            "available_providers": ["OpenVINOExecutionProvider"],
            "fallback_chain": ["CUDAExecutionProvider", "CPUExecutionProvider", "OpenVINOExecutionProvider"]
        }"#,
    );

    let request = ProbeRequest {
        requested_provider: "CUDAExecutionProvider".to_string(),
        fixture: None,
    };
    let report = build_fixture_report(&request.requested_provider, &fixture);

    assert_eq!(
        report.provider_probe_status,
        ProviderProbeStatus::RequestedProviderUnavailableWithFallback
    );
    assert_eq!(
        report
            .observed_provider_assignment
            .first()
            .expect("assignment")
            .observed_provider,
        Some("OpenVINOExecutionProvider".to_string())
    );
}

#[test]
fn canonical_names_cover_aliases() {
    assert_eq!(canonical_provider("cpu"), "CPUExecutionProvider");
    assert_eq!(canonical_provider("CPU EP"), "CPUExecutionProvider");
    assert_eq!(canonical_provider("cuda-gpu-ep"), "CUDAExecutionProvider");
    assert_eq!(canonical_provider("Core"), "CoreMLExecutionProvider");
    assert_eq!(canonical_provider("direct_ml"), "DmlExecutionProvider");
    assert_eq!(canonical_provider("ROCm"), "RocmExecutionProvider");
    assert_eq!(canonical_provider("TensorRT"), "TensorRTExecutionProvider");
    assert_eq!(canonical_provider("open-vino"), "OpenVINOExecutionProvider");
    assert_eq!(canonical_provider("  CUDAExecutionProvider\t"), "CUDAExecutionProvider");
    assert_eq!(canonical_provider("  Custom Provider \n"), "Custom Provider");
    assert_eq!(canonical_provider("\u{3000}Ω\u{2003}"), "Ω");
}

#[test]
fn canonical_names_are_fixed_points() {
    for name in ["cpu", " CUDA ", "dml", "  Custom Provider \n", "coreml-ep", ""] {
        let once = canonical_provider(name);
        assert_eq!(canonical_provider(&once), once);
    }
}

#[test]
fn trim_removes_unicode_whitespace() {
    assert_eq!(trim_text("\u{85} a b \u{a0}"), "a b");
    assert_eq!(trim_text("   "), "");
    assert_eq!(trim_text("x"), "x");
}

#[test]
fn normalized_set_canonicalizes_each_entry() {
    let values = vec!["cpu".to_string(), " Foo ".to_string(), "CPU-EP".to_string()];
    assert_eq!(
        normalized_set(&values),
        vec!["CPUExecutionProvider".to_string(), "Foo".to_string()]
    );
}

#[test]
fn dry_run_reports_that_nothing_was_probed() {
    let report = build_dry_run_report("TensorRTExecutionProvider");
    assert_eq!(report.provider_probe_status, ProviderProbeStatus::NotProbedDryRun);
    assert_eq!(report.requested_provider, "TensorRTExecutionProvider");
    assert_eq!(report.provider_assignment_granularity, ProviderAssignmentGranularity::DryRun);
    assert_eq!(report.errors.len(), 2);
    assert_eq!(
        report.errors[0],
        "No CUDA/ORT runtime probe executed in this prototype"
    );
    let assignment = &report.observed_provider_assignment[0];
    assert_eq!(assignment.scope, AssignmentScope::RequestedOnly);
    assert_eq!(assignment.observed_with, ObservedWith::DryRun);
    assert_eq!(assignment.observed_provider, None);
}

#[test]
fn fixture_with_requested_provider_reports_it_available() {
    let fixture = FixtureProbeState {
        available_providers: vec!["cuda".to_string(), "cpu".to_string()],
        fallback_chain: Vec::new(),
    };
    let report = build_fixture_report("CUDA", &fixture);
    assert_eq!(report.provider_probe_status, ProviderProbeStatus::RequestedProviderAvailable);
    assert_eq!(
        report.observed_provider_assignment[0].observed_provider,
        Some("CUDAExecutionProvider".to_string())
    );
    assert!(report.errors.is_empty());
}

#[test]
fn fixture_without_providers_has_no_fallback() {
    let report = build_fixture_report("cpu", &FixtureProbeState::default());
    assert_eq!(
        report.provider_probe_status,
        ProviderProbeStatus::RequestedProviderUnavailableNoFallback
    );
    assert_eq!(report.errors, vec!["Fixture simulates zero available providers".to_string()]);
}

#[test]
fn fixture_without_matching_fallback_quotes_the_request() {
    let fixture = FixtureProbeState {
        available_providers: vec!["cpu".to_string()],
        fallback_chain: vec!["rocm".to_string()],
    };
    let report = build_fixture_report("TensorRT", &fixture);
    assert_eq!(
        report.provider_probe_status,
        ProviderProbeStatus::RequestedProviderUnavailableNoFallback
    );
    assert_eq!(
        report.errors,
        vec!["requested provider \"TensorRT\" not found in available providers".to_string()]
    );
    let with_fallback = build_fixture_report(
        "TensorRT",
        &FixtureProbeState {
            available_providers: vec!["cpu".to_string()],
            fallback_chain: vec!["rocm".to_string(), "CPU".to_string()],
        },
    );
    assert_eq!(
        with_fallback.errors,
        vec!["requested provider \"TensorRT\" was not available in fixture".to_string()]
    );
    assert_eq!(
        with_fallback.observed_provider_assignment[0].observed_provider,
        Some("CPUExecutionProvider".to_string())
    );
}

#[test]
fn fixture_report_uses_the_given_quoting() {
    let fixture = FixtureProbeState {
        available_providers: vec!["cpu".to_string()],
        fallback_chain: Vec::new(),
    };
    let report = fixture_report_from("x", "<x>", &fixture);
    assert_eq!(
        report.errors,
        vec!["requested provider <x> not found in available providers".to_string()]
    );
}

#[test]
fn run_probe_distinguishes_missing_and_broken_fixtures() {
    let request = ProbeRequest {
        requested_provider: "TensorRTExecutionProvider".to_string(),
        fixture: None,
    };
    let dry = run_probe(&request, None);
    assert_eq!(dry.provider_probe_status, ProviderProbeStatus::NotProbedDryRun);

    let broken = run_probe(
        &request,
        Some(Err(ProbeError { message: "expected value at line 1 column 1".to_string() })),
    );
    assert_eq!(broken.provider_probe_status, ProviderProbeStatus::FixtureInvalid);
    assert_eq!(broken.provider_assignment_granularity, ProviderAssignmentGranularity::NotProbed);
    assert_eq!(
        broken.observed_provider_assignment[0].evidence,
        "failed to parse fixture: expected value at line 1 column 1"
    );
    assert_eq!(broken.errors, vec!["expected value at line 1 column 1".to_string()]);

    let fixture = FixtureProbeState {
        available_providers: vec!["CPUExecutionProvider".to_string()],
        fallback_chain: vec![
            "CUDAExecutionProvider".to_string(),
            "CPUExecutionProvider".to_string(),
        ],
    };
    let simulated = run_probe(&request, Some(Ok(fixture)));
    assert_eq!(
        simulated.provider_probe_status,
        ProviderProbeStatus::RequestedProviderUnavailableWithFallback
    );
    assert_eq!(
        simulated.observed_provider_assignment[0].observed_provider,
        Some("CPUExecutionProvider".to_string())
    );
    assert_eq!(simulated.errors.len(), 1);
}

#[test]
fn observed_provider_is_always_offered_by_the_fixture() {
    let fixture = FixtureProbeState {
        available_providers: vec![" openvino ".to_string(), "DirectML".to_string()],
        fallback_chain: vec!["cuda".to_string(), "dml".to_string()],
    };
    let offered = normalized_set(&fixture.available_providers);
    for request in ["cuda", "OpenVINO", "tensorrt", "dml"] {
        let report = build_fixture_report(request, &fixture);
        assert_eq!(report.observed_provider_assignment.len(), 1);
        if let Some(p) = &report.observed_provider_assignment[0].observed_provider {
            assert!(offered.contains(p), "{request}: {p}");
        }
    }
    let report = build_fixture_report("tensorrt", &fixture);
    assert_eq!(
        report.observed_provider_assignment[0].observed_provider,
        Some("DmlExecutionProvider".to_string())
    );
}
