//! Properties of every accepted scheduling run, proved over the model that
//! `run_simulation` is verified to compute.
use vstd::prelude::*;

use super::model::{
    admit_arrivals, arrival_time, chunk_count, current_time, drop_stale, drop_through, due_time,
    emit_output, finish_worker, has_work, initial_state, lemma_admit_keeps,
    lemma_drop_stale_suffix, lemma_drop_through_suffix, lemma_due_time_fits, lemma_emit_keeps,
    lemma_finish_keeps, lemma_start_keeps, lemma_step_decreases, measure, miss_status,
    next_arrival, next_output_at, record_miss, run_from, sim_config_ok, sim_inv, simulate,
    start_worker, step, well_indexed, SimState, offset_ok, jitter_offset, worker_time,
};
use super::{OutputEvent, OutputStatus};

verus! {

/// Number of output slots that were delivered on time.
pub open spec fn delivered_count(ev: Seq<OutputEvent>) -> nat
    decreases ev.len(),
{
    if ev.len() == 0 {
        0
    } else {
        delivered_count(ev.drop_last()) + if ev.last().status == OutputStatus::Delivered {
            1nat
        } else {
            0nat
        }
    }
}

/// Number of output slots whose chunk was not ready.
pub open spec fn miss_count(ev: Seq<OutputEvent>) -> nat
    decreases ev.len(),
{
    if ev.len() == 0 {
        0
    } else {
        miss_count(ev.drop_last()) + if ev.last().status != OutputStatus::Delivered {
            1nat
        } else {
            0nat
        }
    }
}

/// A missed slot that plays something other than the last delivered chunk.
pub open spec fn is_underrun(s: OutputStatus) -> bool {
    s == OutputStatus::UnderrunDropped || s == OutputStatus::UnderrunSilence
}

/// Number of output slots that played a drop-out or silence.
pub open spec fn underrun_count(ev: Seq<OutputEvent>) -> nat
    decreases ev.len(),
{
    if ev.len() == 0 {
        0
    } else {
        underrun_count(ev.drop_last()) + if is_underrun(ev.last().status) {
            1nat
        } else {
            0nat
        }
    }
}

/// Some slot before slot `i` was delivered on time.
pub open spec fn delivered_before(ev: Seq<OutputEvent>, i: int) -> bool {
    exists|j: int| 0 <= j < i && (#[trigger] ev[j]).status == OutputStatus::Delivered
}

/// Chunks somewhere between arrival and output: queued, in the worker, or finished.
pub open spec fn in_flight(s: SimState) -> nat {
    s.pending.len() + (if s.worker is Some {
        1nat
    } else {
        0nat
    }) + s.completed.len()
}

/// The events so far describe slots `0 .. events.len()` in order, at their deadlines.
#[verifier::opaque]
pub open spec fn events_in_order(cfg: super::Config, ev: Seq<OutputEvent>) -> bool {
    forall|i: int|
        0 <= i < ev.len() ==> (#[trigger] ev[i]).chunk_index == i && ev[i].scheduled_time_ms
            == due_time(cfg, i)
}

/// A slot carries a completion time exactly when it was delivered, and a
/// missed slot has the status its policy prescribes.
#[verifier::opaque]
pub open spec fn statuses_follow_policy(cfg: super::Config, ev: Seq<OutputEvent>) -> bool {
    forall|i: int|
        0 <= i < ev.len() ==> {
            &&& ((#[trigger] ev[i]).status == OutputStatus::Delivered)
                == (ev[i].worker_done_time_ms is Some)
            &&& (ev[i].status != OutputStatus::Delivered ==> ev[i].status == miss_status(
                cfg.policy,
                delivered_before(ev, i),
            ))
        }
}

/// What holds at every decision point of an accepted run.
pub open spec fn run_inv(cfg: super::Config, s: SimState) -> bool {
    &&& s.events.len() == s.next_output
    &&& (s.next_output < chunk_count(cfg) ==> s.next_output_time == due_time(cfg, s.next_output))
    &&& events_in_order(cfg, s.events)
    &&& statuses_follow_policy(cfg, s.events)
    &&& (s.last_delivered is Some) == delivered_before(s.events, s.events.len() as int)
    &&& s.deadline_miss_events == miss_count(s.events)
    &&& s.underrun_events == underrun_count(s.events)
    &&& s.pending.len() <= cfg.queue_capacity
    &&& s.max_queue_depth <= cfg.queue_capacity
    &&& 0 <= s.max_queue_depth
    &&& (s.next_input > 0 ==> s.max_queue_depth >= 1)
    &&& s.next_input == in_flight(s) + delivered_count(s.events) + s.dropped_chunks
}

proof fn lemma_counts(ev: Seq<OutputEvent>)
    ensures
        miss_count(ev) + delivered_count(ev) == ev.len(),
        underrun_count(ev) <= miss_count(ev),
    decreases ev.len(),
{
    if ev.len() > 0 {
        lemma_counts(ev.drop_last());
    }
}

proof fn lemma_delivered_before_push(ev: Seq<OutputEvent>, e: OutputEvent, i: int)
    requires
        0 <= i <= ev.len(),
    ensures
        delivered_before(ev.push(e), i) == delivered_before(ev, i),
{
    let ev2 = ev.push(e);
    if delivered_before(ev2, i) {
        let j = choose|j: int| 0 <= j < i && (#[trigger] ev2[j]).status == OutputStatus::Delivered;
        assert(ev[j] == ev2[j]);
    }
    if delivered_before(ev, i) {
        let j = choose|j: int| 0 <= j < i && (#[trigger] ev[j]).status == OutputStatus::Delivered;
        assert(ev[j] == ev2[j]);
    }
}

proof fn lemma_delivered_before_last(ev: Seq<OutputEvent>, e: OutputEvent)
    ensures
        delivered_before(ev.push(e), ev.len() + 1int) == (delivered_before(ev, ev.len() as int)
            || e.status == OutputStatus::Delivered),
{
    let ev2 = ev.push(e);
    if e.status == OutputStatus::Delivered {
        assert(ev2[ev.len() as int] == e);
    }
    if delivered_before(ev2, ev.len() + 1int) && !(e.status == OutputStatus::Delivered) {
        let j = choose|j: int|
            0 <= j < ev.len() + 1 && (#[trigger] ev2[j]).status == OutputStatus::Delivered;
        assert(j != ev.len());
        assert(ev[j] == ev2[j]);
    }
    if delivered_before(ev, ev.len() as int) {
        let j = choose|j: int| 0 <= j < ev.len() && (#[trigger] ev[j]).status == OutputStatus::Delivered;
        assert(ev[j] == ev2[j]);
    }
}

proof fn lemma_push_event(cfg: super::Config, ev: Seq<OutputEvent>, e: OutputEvent)
    requires
        events_in_order(cfg, ev),
        statuses_follow_policy(cfg, ev),
        e.chunk_index == ev.len(),
        e.scheduled_time_ms == due_time(cfg, ev.len() as int),
        (e.status == OutputStatus::Delivered) == (e.worker_done_time_ms is Some),
        e.status != OutputStatus::Delivered ==> e.status == miss_status(
            cfg.policy,
            delivered_before(ev, ev.len() as int),
        ),
    ensures
        events_in_order(cfg, ev.push(e)),
        statuses_follow_policy(cfg, ev.push(e)),
        delivered_before(ev.push(e), ev.len() + 1int) == (delivered_before(ev, ev.len() as int)
            || e.status == OutputStatus::Delivered),
        ev.push(e).drop_last() == ev,
{
    reveal(events_in_order);
    reveal(statuses_follow_policy);
    let ev2 = ev.push(e);
    assert(ev2.drop_last() =~= ev);
    lemma_delivered_before_last(ev, e);
    assert forall|i: int| 0 <= i < ev2.len() implies {
        &&& ((#[trigger] ev2[i]).status == OutputStatus::Delivered)
            == (ev2[i].worker_done_time_ms is Some)
        &&& (ev2[i].status != OutputStatus::Delivered ==> ev2[i].status == miss_status(
            cfg.policy,
            delivered_before(ev2, i),
        ))
    } by {
        lemma_delivered_before_push(ev, e, i);
        if i < ev.len() {
            assert(ev2[i] == ev[i]);
        }
    }
    assert forall|i: int| 0 <= i < ev2.len() implies (#[trigger] ev2[i]).chunk_index == i
        && ev2[i].scheduled_time_ms == due_time(cfg, i) by {
        if i < ev.len() {
            assert(ev2[i] == ev[i]);
        }
    }
}

proof fn lemma_admit_inv(cfg: super::Config, s: SimState, t: u64)
    requires
        sim_config_ok(cfg),
        sim_inv(cfg, s),
        run_inv(cfg, s),
    ensures
        run_inv(cfg, admit_arrivals(cfg, s, t)),
        admit_arrivals(cfg, s, t).next_input >= s.next_input,
    decreases chunk_count(cfg) - s.next_input,
{
    if s.next_input < chunk_count(cfg) && arrival_time(cfg, s.next_input) <= t {
        let full = s.pending.len() >= cfg.queue_capacity;
        let kept = if full {
            s.pending.drop_first()
        } else {
            s.pending
        };
        let pending = kept.push(super::PendingChunk { index: s.next_input as usize });
        let next = SimState {
            pending,
            dropped_chunks: if full {
                super::model::sat_add(s.dropped_chunks, 1)
            } else {
                s.dropped_chunks
            },
            max_queue_depth: if pending.len() > s.max_queue_depth {
                pending.len() as int
            } else {
                s.max_queue_depth
            },
            next_input: s.next_input + 1,
            ..s
        };
        assert(run_inv(cfg, next));
        lemma_admit_inv(cfg, next, t);
    }
}

proof fn lemma_finish_inv(cfg: super::Config, s: SimState, t: u64)
    requires
        sim_config_ok(cfg),
        sim_inv(cfg, s),
        run_inv(cfg, s),
    ensures
        run_inv(cfg, finish_worker(cfg, s, t)),
{
}

proof fn lemma_start_inv(cfg: super::Config, s: SimState, t: u64)
    requires
        sim_config_ok(cfg),
        sim_inv(cfg, s),
        run_inv(cfg, s),
    ensures
        run_inv(cfg, start_worker(cfg, s, t)),
{
}

/// The next-slot bookkeeping after slot `index` has been handled.
proof fn lemma_next_slot(cfg: super::Config, index: int, scheduled: u64)
    requires
        sim_config_ok(cfg),
        0 <= index < chunk_count(cfg),
        scheduled == due_time(cfg, index),
    ensures
        index + 1 < chunk_count(cfg) ==> super::model::sat_add(scheduled, cfg.hop_ms as int)
            == due_time(cfg, index + 1),
{
    if index + 1 < chunk_count(cfg) {
        lemma_due_time_fits(cfg, index + 1);
        assert(due_time(cfg, index + 1) == due_time(cfg, index) + cfg.hop_ms) by (nonlinear_arith)
            requires
                due_time(cfg, index + 1) == cfg.chunk_ms + (index + 1) * cfg.hop_ms,
                due_time(cfg, index) == cfg.chunk_ms + index * cfg.hop_ms,
        ;
    }
}

proof fn lemma_deliver_inv(cfg: super::Config, s: SimState, scheduled: u64)
    requires
        sim_config_ok(cfg),
        sim_inv(cfg, s),
        run_inv(cfg, s),
        s.next_output < chunk_count(cfg),
        scheduled == s.next_output_time,
        s.completed.len() > 0,
        s.completed[0].index == s.next_output,
    ensures
        run_inv(
            cfg,
            SimState {
                next_output: s.next_output + 1,
                next_output_time: super::model::sat_add(scheduled, cfg.hop_ms as int),
                completed: s.completed.drop_first(),
                last_delivered: Some(s.next_output as usize),
                events: s.events.push(
                    OutputEvent {
                        chunk_index: s.next_output as usize,
                        scheduled_time_ms: scheduled,
                        status: OutputStatus::Delivered,
                        worker_done_time_ms: Some(s.completed[0].done_time_ms),
                    },
                ),
                ..s
            },
        ),
{
    let e = OutputEvent {
        chunk_index: s.next_output as usize,
        scheduled_time_ms: scheduled,
        status: OutputStatus::Delivered,
        worker_done_time_ms: Some(s.completed[0].done_time_ms),
    };
    lemma_push_event(cfg, s.events, e);
    lemma_next_slot(cfg, s.next_output, scheduled);
}

proof fn lemma_miss_inv(cfg: super::Config, s: SimState, scheduled: u64)
    requires
        sim_config_ok(cfg),
        sim_inv(cfg, s),
        run_inv(cfg, s),
        s.next_output < chunk_count(cfg),
        scheduled == s.next_output_time,
    ensures
        run_inv(
            cfg,
            SimState {
                next_output: s.next_output + 1,
                next_output_time: super::model::sat_add(scheduled, cfg.hop_ms as int),
                ..record_miss(cfg, s, s.next_output, scheduled)
            },
        ),
{
    let index = s.next_output;
    let status = miss_status(cfg.policy, s.last_delivered is Some);
    let e = OutputEvent {
        chunk_index: index as usize,
        scheduled_time_ms: scheduled,
        status,
        worker_done_time_ms: None,
    };
    lemma_counts(s.events);
    lemma_push_event(cfg, s.events, e);
    lemma_drop_through_suffix(s.pending, index);
    lemma_next_slot(cfg, index, scheduled);
    assert(s.events.push(e).drop_last() == s.events);
}

proof fn lemma_emit_inv(cfg: super::Config, s: SimState, scheduled: u64)
    requires
        sim_config_ok(cfg),
        sim_inv(cfg, s),
        run_inv(cfg, s),
        s.next_output < chunk_count(cfg),
        scheduled == s.next_output_time,
    ensures
        run_inv(cfg, emit_output(cfg, s, scheduled)),
{
    let index = s.next_output;
    let kept = drop_stale(s.completed, index);
    lemma_drop_stale_suffix(s.completed, index);
    let base = SimState {
        completed: kept,
        dropped_chunks: super::model::sat_add(s.dropped_chunks, s.completed.len() - kept.len()),
        ..s
    };
    assert(run_inv(cfg, base));
    if kept.len() > 0 && kept[0].index == index {
        lemma_deliver_inv(cfg, base, scheduled);
    } else {
        lemma_miss_inv(cfg, base, scheduled);
    }
}

/// One decision point of an accepted run keeps the run invariant.
proof fn lemma_step_inv(cfg: super::Config, s: SimState)
    requires
        sim_config_ok(cfg),
        sim_inv(cfg, s),
        well_indexed(cfg, s),
        run_inv(cfg, s),
    ensures
        sim_inv(cfg, step(cfg, s)),
        well_indexed(cfg, step(cfg, s)),
        run_inv(cfg, step(cfg, s)),
{
    let t = current_time(cfg, s);
    let output_at = next_output_at(cfg, s);
    let s1 = admit_arrivals(cfg, s, t);
    lemma_admit_keeps(cfg, s, t);
    lemma_admit_inv(cfg, s, t);
    super::model::lemma_admit_frame(cfg, s, t);
    let s2 = finish_worker(cfg, s1, t);
    lemma_finish_keeps(cfg, s1, t);
    lemma_finish_inv(cfg, s1, t);
    let s3 = start_worker(cfg, s2, t);
    lemma_start_keeps(cfg, s2, t);
    lemma_start_inv(cfg, s2, t);
    if t == output_at && s3.next_output < chunk_count(cfg) {
        lemma_emit_keeps(cfg, s3, output_at);
        lemma_emit_inv(cfg, s3, output_at);
    }
}

/// Every chunk arrives before time runs out.
proof fn lemma_arrivals_before_end(cfg: super::Config, i: int)
    requires
        sim_config_ok(cfg),
        0 <= i < chunk_count(cfg),
    ensures
        arrival_time(cfg, i) < u64::MAX,
{
    lemma_due_time_fits(cfg, i);
    let h = cfg.hop_ms as int;
    assert(h * i == i * h && i * h >= 0) by (nonlinear_arith)
        requires
            i >= 0,
            h >= 0,
    ;
}

/// A deadline at the end of time belongs to the last slot.
proof fn lemma_max_deadline_is_last(cfg: super::Config, i: int)
    requires
        sim_config_ok(cfg),
        0 <= i < chunk_count(cfg),
        due_time(cfg, i) == u64::MAX,
    ensures
        i == chunk_count(cfg) - 1,
{
    let n = chunk_count(cfg);
    let h = cfg.hop_ms as int;
    if i < n - 1 {
        assert((n - 1) * h >= (i + 1) * h) by (nonlinear_arith)
            requires
                i + 1 <= n - 1,
                h >= 0,
        ;
        assert((i + 1) * h == i * h + h) by (nonlinear_arith);
    }
}

/// A decision point at the end of time handles every remaining arrival and slot.
proof fn lemma_last_step(cfg: super::Config, s: SimState)
    requires
        sim_config_ok(cfg),
        sim_inv(cfg, s),
        s.next_output < chunk_count(cfg) ==> s.next_output_time == due_time(cfg, s.next_output),
        current_time(cfg, s) == u64::MAX,
    ensures
        step(cfg, s).next_output == chunk_count(cfg),
        step(cfg, s).next_input == chunk_count(cfg),
{
    let n = chunk_count(cfg);
    let t = current_time(cfg, s);
    let output_at = next_output_at(cfg, s);
    if s.next_input < n {
        lemma_arrivals_before_end(cfg, s.next_input);
    }
    super::model::lemma_admit_frame(cfg, s, t);
    let s1 = admit_arrivals(cfg, s, t);
    assert(s1.next_input == n);
    let s2 = finish_worker(cfg, s1, t);
    let s3 = start_worker(cfg, s2, t);
    assert(s3.next_input == n);
    assert(s3.next_output == s.next_output);
    if s.next_output < n {
        assert(output_at == u64::MAX);
        lemma_max_deadline_is_last(cfg, s.next_output);
        assert(step(cfg, s) == emit_output(cfg, s3, output_at));
    } else {
        assert(step(cfg, s) == s3);
    }
}

/// From any reachable decision point, the run ends with every chunk arrived,
/// every slot handled, and the invariant intact.
proof fn lemma_run_from_inv(cfg: super::Config, s: SimState)
    requires
        sim_config_ok(cfg),
        sim_inv(cfg, s),
        well_indexed(cfg, s),
        run_inv(cfg, s),
    ensures
        run_inv(cfg, run_from(cfg, s)),
        run_from(cfg, s).next_output == chunk_count(cfg),
        run_from(cfg, s).next_input == chunk_count(cfg),
    decreases measure(cfg, s),
{
    if has_work(cfg, s) {
        lemma_step_inv(cfg, s);
        if current_time(cfg, s) == u64::MAX {
            lemma_last_step(cfg, s);
        } else {
            lemma_step_decreases(cfg, s);
            lemma_run_from_inv(cfg, step(cfg, s));
        }
    }
}

/// The whole run: its final state satisfies the invariant, with every chunk
/// arrived and every output slot handled.
pub proof fn lemma_simulation_complete(cfg: super::Config)
    requires
        sim_config_ok(cfg),
    ensures
        run_inv(cfg, simulate(cfg)),
        simulate(cfg).next_output == chunk_count(cfg),
        simulate(cfg).next_input == chunk_count(cfg),
{
    let s = initial_state(cfg);
    reveal(events_in_order);
    reveal(statuses_follow_policy);
    assert(s.events =~= Seq::<OutputEvent>::empty());
    assert(delivered_count(s.events) == 0);
    assert(!delivered_before(s.events, 0));
    lemma_run_from_inv(cfg, s);
}

/// Every output slot is reported exactly once, in order: the run has one
/// event per chunk, and event `i` is slot `i` at its deadline
/// `chunk_ms + i * hop_ms`.
pub proof fn law_one_event_per_slot(cfg: super::Config)
    requires
        sim_config_ok(cfg),
    ensures
        simulate(cfg).events.len() == chunk_count(cfg),
        forall|i: int|
            0 <= i < chunk_count(cfg) ==> (#[trigger] simulate(cfg).events[i]).chunk_index == i
                && simulate(cfg).events[i].scheduled_time_ms == cfg.chunk_ms + i * cfg.hop_ms,
{
    lemma_simulation_complete(cfg);
    reveal(events_in_order);
}

/// The deadline-miss count is the number of slots not delivered on time; the
/// underrun count is the number of those that played a drop-out or silence,
/// so it never exceeds the deadline-miss count (reused slots are misses but
/// not underruns).
pub proof fn law_miss_and_underrun_counts(cfg: super::Config)
    requires
        sim_config_ok(cfg),
    ensures
        simulate(cfg).deadline_miss_events == miss_count(simulate(cfg).events),
        simulate(cfg).underrun_events == underrun_count(simulate(cfg).events),
        simulate(cfg).underrun_events <= simulate(cfg).deadline_miss_events,
        simulate(cfg).deadline_miss_events + delivered_count(simulate(cfg).events) == chunk_count(
            cfg,
        ),
{
    lemma_simulation_complete(cfg);
    lemma_counts(simulate(cfg).events);
}

/// A slot carries the worker's completion time exactly when it was
/// delivered; a missed slot plays what the policy prescribes: a drop-out
/// under drop-oldest, silence under silence-on-underrun, and under
/// reuse-last the last delivered chunk, or silence before any delivery.
pub proof fn law_statuses_follow_policy(cfg: super::Config)
    requires
        sim_config_ok(cfg),
    ensures
        statuses_follow_policy(cfg, simulate(cfg).events),
{
    lemma_simulation_complete(cfg);
}

/// The input queue never holds more than `queue_capacity` chunks, and every
/// run queues at least one chunk.
pub proof fn law_queue_depth_bounded(cfg: super::Config)
    requires
        sim_config_ok(cfg),
    ensures
        1 <= simulate(cfg).max_queue_depth <= cfg.queue_capacity,
{
    lemma_simulation_complete(cfg);
}

/// Every chunk of the run is accounted for exactly once: delivered on time,
/// dropped, or still in flight when the run stopped. A run stops with work in
/// flight only when its clock reaches the end of the 64-bit millisecond
/// range; a run that stops because no work is left has delivered or dropped
/// every chunk.
pub proof fn law_chunks_conserved(cfg: super::Config)
    requires
        sim_config_ok(cfg),
    ensures
        chunk_count(cfg) == delivered_count(simulate(cfg).events) + simulate(cfg).dropped_chunks
            + in_flight(simulate(cfg)),
        !has_work(cfg, simulate(cfg)) ==> in_flight(simulate(cfg)) == 0
            && chunk_count(cfg) == delivered_count(simulate(cfg).events)
            + simulate(cfg).dropped_chunks,
{
    lemma_simulation_complete(cfg);
}

proof fn lemma_all_misses_underrun(ev: Seq<OutputEvent>)
    requires
        forall|i: int|
            0 <= i < ev.len() ==> ((#[trigger] ev[i]).status != OutputStatus::Delivered
                ==> is_underrun(ev[i].status)),
    ensures
        underrun_count(ev) == miss_count(ev),
    decreases ev.len(),
{
    if ev.len() > 0 {
        let rest = ev.drop_last();
        assert forall|i: int|
            0 <= i < rest.len() && (#[trigger] rest[i]).status != OutputStatus::Delivered implies is_underrun(
            rest[i].status,
        ) by {
            assert(rest[i] == ev[i]);
        }
        lemma_all_misses_underrun(rest);
        assert(ev.last() == ev[ev.len() - 1]);
    }
}

/// Under drop-oldest and silence-on-underrun every deadline miss is also an
/// output underrun; only reuse-last can play a missed slot without one.
pub proof fn law_underruns_by_policy(cfg: super::Config)
    requires
        sim_config_ok(cfg),
        cfg.policy != super::Policy::ReuseLast,
    ensures
        simulate(cfg).underrun_events == simulate(cfg).deadline_miss_events,
{
    lemma_simulation_complete(cfg);
    let ev = simulate(cfg).events;
    reveal(statuses_follow_policy);
    assert forall|i: int|
        0 <= i < ev.len() && (#[trigger] ev[i]).status != OutputStatus::Delivered implies is_underrun(
        ev[i].status,
    ) by {
        assert(ev[i].status == miss_status(cfg.policy, delivered_before(ev, i)));
    }
    lemma_all_misses_underrun(ev);
}

/// Every finished chunk waiting for its slot was finished by time `t`.
pub open spec fn finished_by(s: SimState, t: u64) -> bool {
    forall|i: int| 0 <= i < s.completed.len() ==> (#[trigger] s.completed[i]).done_time_ms <= t
}

/// Every delivered slot played a chunk that the worker had finished by the
/// slot's time.
pub open spec fn delivered_in_time(ev: Seq<OutputEvent>) -> bool {
    forall|i: int|
        0 <= i < ev.len() && (#[trigger] ev[i]).status == OutputStatus::Delivered ==> (
        ev[i].worker_done_time_ms matches Some(d) && d <= ev[i].scheduled_time_ms)
}

/// One decision point at time `t` delivers only chunks finished by `t`, and
/// leaves only such chunks waiting.
proof fn lemma_step_in_time(cfg: super::Config, s: SimState)
    requires
        sim_inv(cfg, s),
        finished_by(s, current_time(cfg, s)),
        delivered_in_time(s.events),
    ensures
        finished_by(step(cfg, s), current_time(cfg, s)),
        delivered_in_time(step(cfg, s).events),
{
    let t = current_time(cfg, s);
    let output_at = next_output_at(cfg, s);
    let s1 = admit_arrivals(cfg, s, t);
    super::model::lemma_admit_frame(cfg, s, t);
    let s2 = finish_worker(cfg, s1, t);
    assert(finished_by(s2, t)) by {
        assert forall|i: int| 0 <= i < s2.completed.len() implies (
        #[trigger] s2.completed[i]).done_time_ms <= t by {
            if i < s1.completed.len() {
                assert(s2.completed[i] == s1.completed[i]);
            }
        }
    }
    let s3 = start_worker(cfg, s2, t);
    if t == output_at && s3.next_output < chunk_count(cfg) {
        let index = s3.next_output;
        let kept = drop_stale(s3.completed, index);
        lemma_drop_stale_suffix(s3.completed, index);
        let off = s3.completed.len() - kept.len();
        assert forall|i: int| 0 <= i < kept.len() implies (#[trigger] kept[i]).done_time_ms
            <= t by {
            assert(kept[i] == s3.completed[i + off]);
        }
        let e = emit_output(cfg, s3, output_at);
        assert forall|i: int| 0 <= i < e.completed.len() implies (
        #[trigger] e.completed[i]).done_time_ms <= t by {
            if kept.len() > 0 && kept[0].index == index {
                assert(e.completed[i] == kept[i + 1]);
            } else {
                assert(e.completed[i] == kept[i]);
            }
        }
        assert forall|i: int|
            0 <= i < e.events.len() && (#[trigger] e.events[i]).status
                == OutputStatus::Delivered implies (e.events[i].worker_done_time_ms matches Some(d)
            && d <= e.events[i].scheduled_time_ms) by {
            if i < s3.events.len() {
                assert(e.events[i] == s3.events[i]);
            }
        }
    }
}

/// Time never runs backwards from one decision point to the next.
proof fn lemma_time_monotone(cfg: super::Config, s: SimState)
    requires
        sim_inv(cfg, s),
    ensures
        current_time(cfg, step(cfg, s)) >= current_time(cfg, s),
{
    let t = current_time(cfg, s);
    let output_at = next_output_at(cfg, s);
    let s1 = admit_arrivals(cfg, s, t);
    super::model::lemma_admit_frame(cfg, s, t);
    let s2 = finish_worker(cfg, s1, t);
    let s3 = start_worker(cfg, s2, t);
    assert(next_arrival(cfg, s3) >= t);
    assert(super::model::next_worker_done(s3) >= t);
    let s4 = step(cfg, s);
    if t == output_at && s3.next_output < chunk_count(cfg) {
        assert(super::model::next_worker_done(s4) >= t);
        assert(next_arrival(cfg, s4) >= t);
    } else {
        assert(s4 == s3);
        assert(next_output_at(cfg, s3) == output_at);
    }
}

proof fn lemma_run_from_in_time(cfg: super::Config, s: SimState)
    requires
        sim_inv(cfg, s),
        finished_by(s, current_time(cfg, s)),
        delivered_in_time(s.events),
    ensures
        delivered_in_time(run_from(cfg, s).events),
    decreases measure(cfg, s),
{
    if has_work(cfg, s) {
        lemma_step_in_time(cfg, s);
        if current_time(cfg, s) < u64::MAX {
            lemma_step_decreases(cfg, s);
            lemma_time_monotone(cfg, s);
            lemma_run_from_in_time(cfg, step(cfg, s));
        }
    }
}

/// A slot is delivered only with a chunk that the worker finished no later
/// than the slot's scheduled time.
pub proof fn law_delivered_chunks_were_ready(cfg: super::Config)
    requires
        sim_config_ok(cfg),
    ensures
        delivered_in_time(simulate(cfg).events),
{
    let s = initial_state(cfg);
    assert(s.events =~= Seq::<OutputEvent>::empty());
    lemma_run_from_in_time(cfg, s);
}

/// The deterministic jitter stays within `-jitter ..= jitter` of the nominal
/// worker time, for every seed and chunk, whenever `2 * jitter` fits in `i64`;
/// and the worker time of a chunk is never below 1 ms.
pub proof fn law_jitter_bounded(cfg: super::Config, i: int)
    requires
        cfg.worker_ms_jitter <= 0x3FFF_FFFF_FFFF_FFFF,
    ensures
        offset_ok(cfg.worker_ms_seed, i as u64, cfg.worker_ms_jitter),
        -(cfg.worker_ms_jitter as int) <= jitter_offset(
            cfg.worker_ms_seed,
            i as u64,
            cfg.worker_ms_jitter,
        ) <= cfg.worker_ms_jitter,
        worker_time(cfg, i) >= 1,
{
    let j = cfg.worker_ms_jitter;
    if j > 0 {
        let span = super::model::jitter_span(j);
        assert(span == 2 * j + 1);
        let m = super::model::mix(cfg.worker_ms_seed, i as u64);
        let raw = super::model::raw_offset(cfg.worker_ms_seed, i as u64, j);
        assert(raw == m % span);
        assert(m % span < span) by (nonlinear_arith)
            requires
                span > 0,
        ;
        assert(raw as i64 == raw);
    }
}

/// The chunks `from .. to`, in index order, as they join the queue.
pub open spec fn arrivals(from: int, to: int) -> Seq<super::PendingChunk> {
    Seq::new((to - from) as nat, |k: int| super::PendingChunk { index: (from + k) as usize })
}

/// A full queue makes room by dropping its oldest chunk, never the newcomer:
/// admitting arrivals up to time `t` queues every chunk that has arrived by
/// then, in index order, and leaves the queue holding the newest
/// `min(queued + arrived, queue_capacity)` of the old queue followed by the
/// arrivals. Every admitted chunk has arrived by `t`, and the next chunk has
/// not (or there is none).
pub proof fn law_admit_keeps_newest(cfg: super::Config, s: SimState, t: u64)
    requires
        sim_inv(cfg, s),
        s.pending.len() <= cfg.queue_capacity,
    ensures
        ({
            let r = admit_arrivals(cfg, s, t);
            let all = s.pending + arrivals(s.next_input, r.next_input);
            let keep = if all.len() <= cfg.queue_capacity {
                all.len() as int
            } else {
                cfg.queue_capacity as int
            };
            &&& s.next_input <= r.next_input <= chunk_count(cfg)
            &&& r.pending == all.subrange(all.len() - keep, all.len() as int)
            &&& forall|i: int| s.next_input <= i < r.next_input ==> #[trigger] arrival_time(cfg, i) <= t
            &&& (r.next_input == chunk_count(cfg) || arrival_time(cfg, r.next_input) > t)
        }),
    decreases chunk_count(cfg) - s.next_input,
{
    super::model::lemma_admit_frame(cfg, s, t);
    let r = admit_arrivals(cfg, s, t);
    let cap = cfg.queue_capacity as int;
    if s.next_input < chunk_count(cfg) && arrival_time(cfg, s.next_input) <= t {
        let full = s.pending.len() >= cfg.queue_capacity;
        let kept = if full {
            s.pending.drop_first()
        } else {
            s.pending
        };
        let pending = kept.push(super::PendingChunk { index: s.next_input as usize });
        let next = SimState {
            pending,
            dropped_chunks: if full {
                super::model::sat_add(s.dropped_chunks, 1)
            } else {
                s.dropped_chunks
            },
            max_queue_depth: if pending.len() > s.max_queue_depth {
                pending.len() as int
            } else {
                s.max_queue_depth
            },
            next_input: s.next_input + 1,
            ..s
        };
        assert(r == admit_arrivals(cfg, next, t));
        law_admit_keeps_newest(cfg, next, t);
        let all = s.pending + arrivals(s.next_input, r.next_input);
        let all2 = next.pending + arrivals(next.next_input, r.next_input);
        assert(arrivals(s.next_input, r.next_input) =~= seq![
            super::PendingChunk { index: s.next_input as usize },
        ] + arrivals(next.next_input, r.next_input));
        if full {
            assert(all2 =~= all.drop_first());
        } else {
            assert(all2 =~= all);
        }
        let keep2 = if all2.len() <= cfg.queue_capacity {
            all2.len() as int
        } else {
            cap
        };
        assert(r.pending == all2.subrange(all2.len() - keep2, all2.len() as int));
        if full {
            assert(all2.subrange(all2.len() - keep2, all2.len() as int) =~= all.subrange(
                all.len() - cap,
                all.len() as int,
            ));
        }
    } else {
        let all = s.pending + arrivals(s.next_input, r.next_input);
        assert(arrivals(s.next_input, r.next_input) =~= Seq::<super::PendingChunk>::empty());
        assert(all =~= s.pending);
        assert(all.subrange(0, all.len() as int) =~= all);
    }
}

/// Handling an output slot reports exactly that slot, and delivers it only
/// with the finished chunk of the same index: a delivered slot carries the
/// completion time of a finished chunk whose index is the slot's.
pub proof fn law_slot_delivers_its_own_chunk(cfg: super::Config, s: SimState, scheduled: u64)
    ensures
        emit_output(cfg, s, scheduled).events.len() == s.events.len() + 1,
        emit_output(cfg, s, scheduled).events.last().chunk_index == s.next_output as usize,
        emit_output(cfg, s, scheduled).events.last().status == OutputStatus::Delivered ==> exists|
            k: int,
        |
            0 <= k < s.completed.len() && (#[trigger] s.completed[k]).index == s.next_output
                && emit_output(cfg, s, scheduled).events.last().worker_done_time_ms == Some(
                s.completed[k].done_time_ms,
            ),
{
    let index = s.next_output;
    let kept = drop_stale(s.completed, index);
    lemma_drop_stale_suffix(s.completed, index);
    let off = s.completed.len() - kept.len();
    if kept.len() > 0 && kept[0].index == index {
        assert(s.completed[off] == kept[0]);
    }
}

/// Chunk `i` finishing at `done` had its full worker time after it arrived.
pub open spec fn served(cfg: super::Config, i: int, done: u64) -> bool {
    done >= super::model::sat_add(arrival_time(cfg, i), worker_time(cfg, i) as int)
}

/// Queued chunks arrived by `t`; the worker's and every finished chunk's
/// completion came a full worker time after the chunk's arrival.
pub open spec fn honest_work(cfg: super::Config, s: SimState, t: u64) -> bool {
    &&& forall|i: int|
        0 <= i < s.pending.len() ==> arrival_time(cfg, (#[trigger] s.pending[i]).index as int) <= t
    &&& (s.worker matches Some(w) ==> served(cfg, w.idx as int, w.done_at_ms))
    &&& forall|i: int|
        0 <= i < s.completed.len() ==> served(
            cfg,
            (#[trigger] s.completed[i]).index as int,
            s.completed[i].done_time_ms,
        )
}

/// Every delivered slot carries a completion time that came a full worker
/// time after its chunk arrived.
pub open spec fn delivered_served(cfg: super::Config, ev: Seq<OutputEvent>) -> bool {
    forall|i: int|
        0 <= i < ev.len() && (#[trigger] ev[i]).status == OutputStatus::Delivered ==> (
        ev[i].worker_done_time_ms matches Some(d) && served(cfg, ev[i].chunk_index as int, d))
}

proof fn lemma_step_honest(cfg: super::Config, s: SimState)
    requires
        sim_config_ok(cfg),
        sim_inv(cfg, s),
        run_inv(cfg, s),
        honest_work(cfg, s, current_time(cfg, s)),
        delivered_served(cfg, s.events),
    ensures
        honest_work(cfg, step(cfg, s), current_time(cfg, s)),
        delivered_served(cfg, step(cfg, s).events),
{
    let t = current_time(cfg, s);
    let output_at = next_output_at(cfg, s);
    let s1 = admit_arrivals(cfg, s, t);
    law_admit_keeps_newest(cfg, s, t);
    super::model::lemma_admit_frame(cfg, s, t);
    let all = s.pending + arrivals(s.next_input, s1.next_input);
    let keep = s1.pending.len() as int;
    assert forall|i: int| 0 <= i < s1.pending.len() implies arrival_time(
        cfg,
        (#[trigger] s1.pending[i]).index as int,
    ) <= t by {
        let j = all.len() - keep + i;
        assert(s1.pending[i] == all[j]);
        if j < s.pending.len() {
            assert(all[j] == s.pending[j]);
        } else {
            assert(all[j] == arrivals(s.next_input, s1.next_input)[j - s.pending.len()]);
        }
    }
    let s2 = finish_worker(cfg, s1, t);
    assert(honest_work(cfg, s2, t)) by {
        assert forall|i: int| 0 <= i < s2.completed.len() implies served(
            cfg,
            (#[trigger] s2.completed[i]).index as int,
            s2.completed[i].done_time_ms,
        ) by {
            if i < s1.completed.len() {
                assert(s2.completed[i] == s1.completed[i]);
            }
        }
    }
    let s3 = start_worker(cfg, s2, t);
    assert(honest_work(cfg, s3, t)) by {
        if s2.worker is None && s2.pending.len() > 0 {
            assert(arrival_time(cfg, s2.pending[0].index as int) <= t);
            assert forall|i: int| 0 <= i < s3.pending.len() implies arrival_time(
                cfg,
                (#[trigger] s3.pending[i]).index as int,
            ) <= t by {
                assert(s3.pending[i] == s2.pending[i + 1]);
            }
        }
    }
    if t == output_at && s3.next_output < chunk_count(cfg) {
        let index = s3.next_output;
        let kept = drop_stale(s3.completed, index);
        lemma_drop_stale_suffix(s3.completed, index);
        let off = s3.completed.len() - kept.len();
        assert forall|i: int| 0 <= i < kept.len() implies served(
            cfg,
            (#[trigger] kept[i]).index as int,
            kept[i].done_time_ms,
        ) by {
            assert(kept[i] == s3.completed[i + off]);
        }
        let pending = drop_through(s3.pending, index);
        lemma_drop_through_suffix(s3.pending, index);
        let poff = s3.pending.len() - pending.len();
        assert forall|i: int| 0 <= i < pending.len() implies arrival_time(
            cfg,
            (#[trigger] pending[i]).index as int,
        ) <= t by {
            assert(pending[i] == s3.pending[i + poff]);
        }
        let e = emit_output(cfg, s3, output_at);
        assert forall|i: int| 0 <= i < e.completed.len() implies served(
            cfg,
            (#[trigger] e.completed[i]).index as int,
            e.completed[i].done_time_ms,
        ) by {
            if kept.len() > 0 && kept[0].index == index {
                assert(e.completed[i] == kept[i + 1]);
            } else {
                assert(e.completed[i] == kept[i]);
            }
        }
        assert forall|i: int|
            0 <= i < e.events.len() && (#[trigger] e.events[i]).status
                == OutputStatus::Delivered implies (e.events[i].worker_done_time_ms matches Some(d)
            && served(cfg, e.events[i].chunk_index as int, d)) by {
            if i < s3.events.len() {
                assert(e.events[i] == s3.events[i]);
            }
        }
    }
}

proof fn lemma_run_from_honest(cfg: super::Config, s: SimState)
    requires
        sim_config_ok(cfg),
        sim_inv(cfg, s),
        well_indexed(cfg, s),
        run_inv(cfg, s),
        honest_work(cfg, s, current_time(cfg, s)),
        delivered_served(cfg, s.events),
    ensures
        delivered_served(cfg, run_from(cfg, s).events),
    decreases measure(cfg, s),
{
    if has_work(cfg, s) {
        lemma_step_honest(cfg, s);
        if current_time(cfg, s) < u64::MAX {
            lemma_step_inv(cfg, s);
            lemma_step_decreases(cfg, s);
            lemma_time_monotone(cfg, s);
            let n = step(cfg, s);
            let t = current_time(cfg, s);
            let t2 = current_time(cfg, n);
            assert forall|i: int| 0 <= i < n.pending.len() implies arrival_time(
                cfg,
                (#[trigger] n.pending[i]).index as int,
            ) <= t2 by {
                assert(arrival_time(cfg, n.pending[i].index as int) <= t);
            }
            lemma_run_from_honest(cfg, n);
        }
    }
}

/// A slot is delivered only with its own chunk, once the worker has spent
/// that chunk's full worker time on it: the completion time carried by
/// delivered slot `i` is at least chunk `i`'s arrival `i * hop_ms` plus its
/// worker time (or the end of the 64-bit range).
pub proof fn law_delivered_chunk_was_worked(cfg: super::Config)
    requires
        sim_config_ok(cfg),
    ensures
        forall|i: int|
            0 <= i < simulate(cfg).events.len() && (#[trigger] simulate(cfg).events[i]).status
                == OutputStatus::Delivered ==> (simulate(cfg).events[i].worker_done_time_ms matches Some(
                d,
            ) && d >= super::model::sat_add(arrival_time(cfg, i), worker_time(cfg, i) as int)),
{
    let s = initial_state(cfg);
    reveal(events_in_order);
    reveal(statuses_follow_policy);
    assert(s.events =~= Seq::<OutputEvent>::empty());
    assert(delivered_count(s.events) == 0);
    assert(!delivered_before(s.events, 0));
    lemma_run_from_honest(cfg, s);
    law_one_event_per_slot(cfg);
}

/// Without jitter the worker time follows the pattern, cycling: chunk `i`
/// takes the pattern's entry `i mod len` (or `worker_ms` with no pattern),
/// at least 1 ms, and chunks one pattern length apart take the same time.
pub proof fn law_worker_time_follows_pattern(cfg: super::Config, i: int)
    requires
        cfg.worker_ms_jitter == 0,
        i >= 0,
    ensures
        cfg.worker_pattern_ms@.len() > 0 ==> worker_time(cfg, i + cfg.worker_pattern_ms@.len())
            == worker_time(cfg, i),
        cfg.worker_pattern_ms@.len() > 0 && 1 <= cfg.worker_pattern_ms@[i % (
        cfg.worker_pattern_ms@.len() as int)] <= i64::MAX ==> worker_time(cfg, i)
            == cfg.worker_pattern_ms@[i % (cfg.worker_pattern_ms@.len() as int)],
        cfg.worker_pattern_ms@.len() == 0 && 1 <= cfg.worker_ms <= i64::MAX ==> worker_time(cfg, i)
            == cfg.worker_ms,
        worker_time(cfg, i) >= 1,
{
    let n = cfg.worker_pattern_ms@.len() as int;
    if n > 0 {
        assert((i + n) % n == i % n) by (nonlinear_arith)
            requires
                n > 0,
                i >= 0,
        ;
    }
}

} // verus!
