use vc_runtime::scheduler::{check_config, run_simulation, Config, OutputEvent, OutputStatus, Policy, SimulationSummary};

fn sim_config(
    duration_ms: u64,
    chunk_ms: u64,
    hop_ms: u64,
    worker_ms: u64,
    queue_capacity: usize,
    policy: Policy,
    worker_pattern_ms: Vec<u64>,
) -> Config {
    Config {
        duration_ms,
        chunk_ms,
        hop_ms,
        worker_pattern_ms,
        worker_ms,
        worker_ms_jitter: 0,
        worker_ms_seed: 0,
        queue_capacity,
        policy,
    }
}

#[test]
fn keeps_up_without_misses_with_fast_worker() {
    let cfg = sim_config(200, 40, 50, 30, 4, Policy::DropOldest, vec![]);
    let summary = run_simulation(&cfg);

    assert_eq!(summary.accumulated_delay_ms, 0);
    assert_eq!(summary.deadline_miss_events, 0);
    assert_eq!(summary.underrun_events, 0);
    assert_eq!(summary.dropped_chunks, 0);
    assert_eq!(summary.max_queue_depth, 1);
    assert_eq!(summary.events.len(), 4);
    assert!(summary
        .events
        .iter()
        .all(|event| event.status == OutputStatus::Delivered));
}

#[test]
fn slow_model_generates_deadline_misses_and_drops_for_drop_oldest() {
    let cfg = sim_config(400, 100, 100, 300, 10, Policy::DropOldest, vec![]);
    let summary = run_simulation(&cfg);

    assert_eq!(summary.deadline_miss_events, 4);
    assert_eq!(summary.underrun_events, 4);
    assert_eq!(summary.dropped_chunks, 4);
    assert_eq!(summary.accumulated_delay_ms, 0);
    assert_eq!(summary.max_queue_depth, 2);
    assert_eq!(
        summary
            .events
            .iter()
            .map(|event| event.status)
            .collect::<Vec<_>>(),
        vec![
            OutputStatus::UnderrunDropped,
            OutputStatus::UnderrunDropped,
            OutputStatus::UnderrunDropped,
            OutputStatus::UnderrunDropped
        ]
    );
}

#[test]
fn reuse_last_policy_reuses_last_sampled_chunk() {
    let cfg = sim_config(400, 100, 100, 0, 10, Policy::ReuseLast, vec![50, 180]);
    let summary = run_simulation(&cfg);

    assert_eq!(summary.deadline_miss_events, 3);
    assert_eq!(summary.underrun_events, 0);
    assert_eq!(summary.dropped_chunks, 3);
    assert_eq!(summary.accumulated_delay_ms, 220);
    assert_eq!(summary.max_queue_depth, 1);
    assert_eq!(
        summary
            .events
            .iter()
            .map(|event| event.status)
            .collect::<Vec<_>>(),
        vec![
            OutputStatus::Delivered,
            OutputStatus::UnderrunReused,
            OutputStatus::UnderrunReused,
            OutputStatus::UnderrunReused
        ]
    );
}

#[test]
fn drop_oldest_policy_sheds_stale_work_instead_of_preserving_backlog() {
    let drop_cfg = sim_config(800, 100, 100, 260, 10, Policy::DropOldest, vec![]);
    let silence_cfg = sim_config(800, 100, 100, 260, 10, Policy::SilenceOnUnderrun, vec![]);

    let drop_summary = run_simulation(&drop_cfg);
    let silence_summary = run_simulation(&silence_cfg);

    assert!(
        drop_summary.accumulated_delay_ms < silence_summary.accumulated_delay_ms,
        "drop-oldest should cancel stale work instead of letting lateness accumulate"
    );
    assert!(
        drop_summary.max_queue_depth < silence_summary.max_queue_depth,
        "drop-oldest should keep less stale pending work than silence"
    );
}

#[test]
fn reuse_last_policy_distinguishes_deadline_misses_from_output_underruns() {
    let cfg = sim_config(400, 100, 100, 0, 10, Policy::ReuseLast, vec![50, 180]);
    let summary = run_simulation(&cfg);

    assert!(
        summary.deadline_miss_events > summary.underrun_events,
        "reuse-last should record compute misses without counting reused slots as silence underruns"
    );
}

#[test]
fn events_cover_every_output_slot_in_order() {
    let cfg = sim_config(1000, 100, 50, 80, 6, Policy::SilenceOnUnderrun, vec![]);
    let summary = run_simulation(&cfg);

    assert_eq!(summary.num_chunks, 20);
    assert_eq!(summary.events.len(), 20);
    for (i, event) in summary.events.iter().enumerate() {
        assert_eq!(event.chunk_index, i);
        assert_eq!(event.scheduled_time_ms, 100 + 50 * i as u64);
    }
    let misses = summary
        .events
        .iter()
        .filter(|event| event.status != OutputStatus::Delivered)
        .count() as u64;
    assert_eq!(summary.deadline_miss_events, misses);
    assert!(summary.max_queue_depth <= 6);
}

#[test]
fn jitter_changes_worker_times_deterministically() {
    let mut cfg = sim_config(1000, 100, 50, 45, 6, Policy::DropOldest, vec![]);
    cfg.worker_ms_jitter = 20;
    cfg.worker_ms_seed = 0xA5A5_5A5A_1234_5678;
    let first = run_simulation(&cfg);
    let second = run_simulation(&cfg);
    assert_eq!(first.accumulated_delay_ms, second.accumulated_delay_ms);
    assert_eq!(first.deadline_miss_events, second.deadline_miss_events);
    assert_eq!(first.events.len(), 20);
}

#[test]
fn reuse_last_without_history_plays_silence() {
    let cfg = sim_config(300, 100, 100, 500, 4, Policy::ReuseLast, vec![]);
    let summary = run_simulation(&cfg);
    assert_eq!(summary.events[0].status, OutputStatus::UnderrunSilence);
    assert_eq!(summary.underrun_events, summary.deadline_miss_events);
}

#[test]
fn summary_json_lists_all_totals() {
    let summary = SimulationSummary {
        accumulated_delay_ms: 12,
        deadline_miss_events: 3,
        underrun_events: 2,
        dropped_chunks: 1,
        max_queue_depth: 4,
        policy: Policy::ReuseLast,
        num_chunks: 10,
        events: Vec::new(),
    };
    assert_eq!(
        summary.to_summary_json(),
        "{\"type\":\"summary\",\"accumulated_delay_ms\":12,\"deadline_miss_events\":3,\"underrun_events\":2,\"dropped_chunks\":1,\"max_queue_depth\":4,\"policy\":\"reuse-last\",\"num_chunks\":10}"
    );
}

#[test]
fn event_json_renders_missing_done_time_as_null() {
    let delivered = OutputEvent {
        chunk_index: 7,
        scheduled_time_ms: 450,
        status: OutputStatus::Delivered,
        worker_done_time_ms: Some(430),
    };
    let missed = OutputEvent {
        chunk_index: 8,
        scheduled_time_ms: 500,
        status: OutputStatus::UnderrunDropped,
        worker_done_time_ms: None,
    };
    assert_eq!(
        SimulationSummary::event_to_json(&delivered),
        "{\"type\":\"event\",\"chunk_index\":7,\"scheduled_time_ms\":450,\"status\":\"delivered\",\"worker_done_time_ms\":430}"
    );
    assert_eq!(
        SimulationSummary::event_to_json(&missed),
        "{\"type\":\"event\",\"chunk_index\":8,\"scheduled_time_ms\":500,\"status\":\"underrun-dropped\",\"worker_done_time_ms\":null}"
    );
}

#[test]
fn policy_and_status_names_are_stable() {
    assert_eq!(Policy::DropOldest.as_str(), "drop-oldest");
    assert_eq!(Policy::SilenceOnUnderrun.as_str(), "silence-on-underrun");
    assert_eq!(Policy::ReuseLast.as_str(), "reuse-last");
    assert_eq!(OutputStatus::UnderrunReused.as_str(), "underrun-reused-last");
}

#[test]
fn check_config_accepts_ordinary_runs_and_refuses_degenerate_ones() {
    let cfg = sim_config(1000, 100, 50, 80, 6, Policy::DropOldest, vec![]);
    assert!(check_config(&cfg));
    let mut zero_hop = cfg.clone();
    zero_hop.hop_ms = 0;
    assert!(!check_config(&zero_hop));
    let mut late = cfg.clone();
    late.chunk_ms = u64::MAX;
    assert!(!check_config(&late));
    let mut huge_jitter = cfg.clone();
    huge_jitter.worker_ms = i64::MAX as u64;
    huge_jitter.worker_ms_jitter = 10;
    huge_jitter.worker_ms_seed = 1;
    assert!(!check_config(&huge_jitter) || run_simulation(&huge_jitter).events.len() == 20);
}

#[test]
fn silence_policy_counts_every_miss_as_an_underrun() {
    let cfg = sim_config(800, 100, 100, 260, 10, Policy::SilenceOnUnderrun, vec![]);
    let summary = run_simulation(&cfg);
    assert!(summary.deadline_miss_events > 0);
    assert_eq!(summary.underrun_events, summary.deadline_miss_events);
    assert!(summary
        .events
        .iter()
        .filter(|e| e.status != OutputStatus::Delivered)
        .all(|e| e.status == OutputStatus::UnderrunSilence));
}

#[test]
fn delivered_slots_carry_chunks_finished_in_time() {
    for policy in [Policy::DropOldest, Policy::SilenceOnUnderrun, Policy::ReuseLast] {
        let cfg = sim_config(1000, 100, 50, 80, 6, policy, vec![30, 140, 60]);
        let summary = run_simulation(&cfg);
        assert_eq!(summary.events.len(), summary.num_chunks);
        for event in &summary.events {
            match event.status {
                OutputStatus::Delivered => {
                    let done = event.worker_done_time_ms.expect("delivered with a time");
                    assert!(done <= event.scheduled_time_ms);
                }
                _ => assert_eq!(event.worker_done_time_ms, None),
            }
        }
    }
}

#[test]
fn jittered_worker_times_stay_within_the_jitter() {
    let mut cfg = sim_config(1000, 500, 100, 50, 10, Policy::DropOldest, vec![]);
    cfg.worker_ms_jitter = 20;
    cfg.worker_ms_seed = 0xA5A5_5A5A_1234_5678;
    assert!(check_config(&cfg));
    let summary = run_simulation(&cfg);
    let mut seen_other_than_nominal = false;
    for event in &summary.events {
        assert_eq!(event.status, OutputStatus::Delivered);
        let arrival = event.chunk_index as u64 * 100;
        let worked = event.worker_done_time_ms.unwrap() - arrival;
        assert!((30..=70).contains(&worked), "{worked}");
        seen_other_than_nominal |= worked != 50;
    }
    assert!(seen_other_than_nominal);
}

#[test]
fn every_slot_is_reported_once_in_order_and_chunks_are_accounted_for() {
    for policy in [Policy::DropOldest, Policy::SilenceOnUnderrun, Policy::ReuseLast] {
        let cfg = sim_config(1000, 100, 50, 120, 3, policy, vec![]);
        let summary = run_simulation(&cfg);
        assert_eq!(summary.num_chunks, 20);
        assert_eq!(summary.events.len(), 20);
        for (i, event) in summary.events.iter().enumerate() {
            assert_eq!(event.chunk_index, i);
            assert_eq!(event.scheduled_time_ms, 100 + i as u64 * 50);
        }
        assert!(summary.max_queue_depth <= 3);
        let delivered = summary
            .events
            .iter()
            .filter(|e| e.status == OutputStatus::Delivered)
            .count() as u64;
        assert_eq!(delivered + summary.deadline_miss_events, 20);
        assert!(summary.underrun_events <= summary.deadline_miss_events);
        assert_eq!(delivered + summary.dropped_chunks, 20);
    }
}

#[test]
fn a_run_that_reaches_the_end_of_time_can_leave_a_chunk_in_flight() {
    let cfg = sim_config(4, 100, 1, i64::MAX as u64, 10, Policy::SilenceOnUnderrun, vec![]);
    assert!(check_config(&cfg));
    let summary = run_simulation(&cfg);
    let delivered = summary
        .events
        .iter()
        .filter(|e| e.status == OutputStatus::Delivered)
        .count() as u64;
    assert_eq!(summary.num_chunks, 4);
    assert_eq!(delivered, 0);
    assert_eq!(summary.dropped_chunks, 3);
}
