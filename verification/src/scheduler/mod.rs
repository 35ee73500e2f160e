//! Discrete-event simulation of realtime chunk scheduling with a single slow
//! worker, a bounded input queue and a policy for missed output slots.
use std::collections::VecDeque;
use vstd::prelude::*;

use crate::text::{decimal, push_decimal};

pub mod laws;
pub mod model;

use self::model::{
    admit_arrivals, cancel_through, current_time, drop_stale, drop_through, due_time,
    emit_output, finish_worker, initial_state, jitter_offset, lemma_admit_keeps,
    lemma_due_time_fits, lemma_emit_keeps, lemma_finish_keeps, lemma_start_keeps,
    lemma_step_decreases, measure, min_u64, miss_status, mix, chunk_count, offset_ok,
    record_miss, run_from, sat_mul, sim_config_ok, sim_inv, simulate, start_worker, step,
    well_indexed, worker_time, worker_time_ok, base_worker_time, SimState,
};

verus! {

/// What an output slot plays when its chunk is not ready.
#[derive(Clone, Copy, Debug, PartialEq, Eq, Structural)]
pub enum Policy {
    DropOldest,
    SilenceOnUnderrun,
    ReuseLast,
}

/// The name of a policy as it appears in reports.
pub open spec fn policy_name(p: Policy) -> Seq<char> {
    match p {
        Policy::DropOldest => "drop-oldest"@,
        Policy::SilenceOnUnderrun => "silence-on-underrun"@,
        Policy::ReuseLast => "reuse-last"@,
    }
}

impl Policy {
    pub fn as_str(self) -> (s: &'static str)
        ensures
            s@ == policy_name(self),
    {
        match self {
            Policy::DropOldest => "drop-oldest",
            Policy::SilenceOnUnderrun => "silence-on-underrun",
            Policy::ReuseLast => "reuse-last",
        }
    }
}

/// Parameters of one simulated run; all times are in milliseconds.
#[derive(Clone, Debug)]
pub struct Config {
    pub duration_ms: u64,
    pub chunk_ms: u64,
    pub hop_ms: u64,
    pub worker_pattern_ms: Vec<u64>,
    pub worker_ms: u64,
    pub worker_ms_jitter: u64,
    pub worker_ms_seed: u64,
    pub queue_capacity: usize,
    pub policy: Policy,
}

/// What happened at one output slot.
#[derive(Clone, Copy, Debug, PartialEq, Eq, Structural)]
pub enum OutputStatus {
    Delivered,
    UnderrunDropped,
    UnderrunSilence,
    UnderrunReused,
}

/// The name of a status as it appears in reports.
pub open spec fn status_name(s: OutputStatus) -> Seq<char> {
    match s {
        OutputStatus::Delivered => "delivered"@,
        OutputStatus::UnderrunDropped => "underrun-dropped"@,
        OutputStatus::UnderrunSilence => "underrun-silence"@,
        OutputStatus::UnderrunReused => "underrun-reused-last"@,
    }
}

impl OutputStatus {
    pub fn as_str(self) -> (s: &'static str)
        ensures
            s@ == status_name(self),
    {
        match self {
            OutputStatus::Delivered => "delivered",
            OutputStatus::UnderrunDropped => "underrun-dropped",
            OutputStatus::UnderrunSilence => "underrun-silence",
            OutputStatus::UnderrunReused => "underrun-reused-last",
        }
    }
}

/// The record of one output slot.
#[derive(Clone, Copy, Debug)]
pub struct OutputEvent {
    pub chunk_index: usize,
    pub scheduled_time_ms: u64,
    pub status: OutputStatus,
    pub worker_done_time_ms: Option<u64>,
}

/// Totals of a run and the event of every output slot.
#[derive(Clone, Debug)]
pub struct SimulationSummary {
    pub accumulated_delay_ms: u64,
    pub deadline_miss_events: u64,
    pub underrun_events: u64,
    pub dropped_chunks: u64,
    pub max_queue_depth: usize,
    pub policy: Policy,
    pub num_chunks: usize,
    pub events: Vec<OutputEvent>,
}


/// The one-line JSON summary of a run.
pub open spec fn summary_json(s: SimulationSummary) -> Seq<char> {
    "{\"type\":\"summary\",\"accumulated_delay_ms\":"@ + decimal(s.accumulated_delay_ms as nat)
        + ",\"deadline_miss_events\":"@ + decimal(s.deadline_miss_events as nat)
        + ",\"underrun_events\":"@ + decimal(s.underrun_events as nat) + ",\"dropped_chunks\":"@
        + decimal(s.dropped_chunks as nat) + ",\"max_queue_depth\":"@ + decimal(
        s.max_queue_depth as nat,
    ) + ",\"policy\":\""@ + policy_name(s.policy) + "\",\"num_chunks\":"@ + decimal(
        s.num_chunks as nat,
    ) + "}"@
}

/// The JSON value of an optional completion time: the number, or `null`.
pub open spec fn done_time_json(t: Option<u64>) -> Seq<char> {
    match t {
        Some(v) => decimal(v as nat),
        None => "null"@,
    }
}

/// The one-line JSON record of an output event.
pub open spec fn event_json(e: OutputEvent) -> Seq<char> {
    "{\"type\":\"event\",\"chunk_index\":"@ + decimal(e.chunk_index as nat)
        + ",\"scheduled_time_ms\":"@ + decimal(e.scheduled_time_ms as nat) + ",\"status\":\""@
        + status_name(e.status) + "\",\"worker_done_time_ms\":"@ + done_time_json(
        e.worker_done_time_ms,
    ) + "}"@
}

impl SimulationSummary {
    /// Renders the totals of the run as one line of JSON.
    pub fn to_summary_json(&self) -> (json: String)
        ensures
            json@ == summary_json(*self),
    {
        let mut out = String::from_str("{\"type\":\"summary\",\"accumulated_delay_ms\":");
        push_decimal(&mut out, self.accumulated_delay_ms);
        out.append(",\"deadline_miss_events\":");
        push_decimal(&mut out, self.deadline_miss_events);
        out.append(",\"underrun_events\":");
        push_decimal(&mut out, self.underrun_events);
        out.append(",\"dropped_chunks\":");
        push_decimal(&mut out, self.dropped_chunks);
        out.append(",\"max_queue_depth\":");
        push_decimal(&mut out, self.max_queue_depth as u64);
        out.append(",\"policy\":\"");
        out.append(self.policy.as_str());
        out.append("\",\"num_chunks\":");
        push_decimal(&mut out, self.num_chunks as u64);
        out.append("}");
        assert(out@ =~= summary_json(*self));
        out
    }

    /// Renders one output event as one line of JSON.
    pub fn event_to_json(event: &OutputEvent) -> (json: String)
        ensures
            json@ == event_json(*event),
    {
        let mut out = String::from_str("{\"type\":\"event\",\"chunk_index\":");
        push_decimal(&mut out, event.chunk_index as u64);
        out.append(",\"scheduled_time_ms\":");
        push_decimal(&mut out, event.scheduled_time_ms);
        out.append(",\"status\":\"");
        out.append(event.status.as_str());
        out.append("\",\"worker_done_time_ms\":");
        match event.worker_done_time_ms {
            Some(value) => push_decimal(&mut out, value),
            None => out.append("null"),
        }
        out.append("}");
        assert(out@ =~= event_json(*event));
        out
    }
}

/// A chunk that has arrived and waits for the worker.
#[derive(Clone, Copy, Debug)]
pub struct PendingChunk {
    pub index: usize,
}

/// A chunk that the worker has finished.
#[derive(Clone, Copy, Debug)]
pub struct DoneChunk {
    pub index: usize,
    pub done_time_ms: u64,
}

/// The chunk the worker is processing and when it will be done.
#[derive(Clone, Copy, Debug)]
pub struct WorkerState {
    pub idx: usize,
    pub done_at_ms: u64,
}

fn saturating_mul_u64(a: u64, b: u64) -> (r: u64)
    ensures
        r == sat_mul(a, b as int),
{
    match a.checked_mul(b) {
        Some(v) => v,
        None => u64::MAX,
    }
}

fn min_u64_exec(a: u64, b: u64) -> (r: u64)
    ensures
        r == min_u64(a, b),
{
    if a <= b {
        a
    } else {
        b
    }
}

/// The jitter offset of a chunk, derived deterministically from the seed.
fn deterministic_offset(seed: u64, chunk_index: usize, jitter: u64) -> (r: i64)
    requires
        offset_ok(seed, chunk_index as u64, jitter),
    ensures
        r == jitter_offset(seed, chunk_index as u64, jitter),
{
    if jitter == 0 {
        return 0;
    }
    let mut x = seed ^ (chunk_index as u64).wrapping_mul(0x9E37_79B9_7F4A_7C15u64);
    x = x ^ (x >> 12u64);
    x = x ^ (x << 25u64);
    x = x ^ (x >> 27u64);
    x = x.wrapping_mul(0x2545_F491_4F6C_DD1Du64);
    let span = saturating_mul_u64(jitter, 2).saturating_add(1);
    assert(x == mix(seed, chunk_index as u64));
    ((x % span) as i64) - (jitter as i64)
}

/// The deadline of a chunk: the time of its output slot.
fn due_time_ms(cfg: &Config, chunk_index: usize) -> (r: u64)
    requires
        due_time(*cfg, chunk_index as int) <= u64::MAX,
    ensures
        r == due_time(*cfg, chunk_index as int),
{
    let offset = saturating_mul_u64(chunk_index as u64, cfg.hop_ms);
    cfg.chunk_ms + offset
}

/// The time the worker spends on a chunk.
fn worker_time_ms(cfg: &Config, chunk_index: usize) -> (r: u64)
    requires
        worker_time_ok(*cfg, chunk_index as int),
    ensures
        r == worker_time(*cfg, chunk_index as int),
{
    let base = if cfg.worker_pattern_ms.len() == 0 {
        cfg.worker_ms
    } else {
        let idx = chunk_index % cfg.worker_pattern_ms.len();
        cfg.worker_pattern_ms[idx]
    };
    assert(base == base_worker_time(*cfg, chunk_index as int));
    let adjusted = (base as i64) + deterministic_offset(
        cfg.worker_ms_seed,
        chunk_index,
        cfg.worker_ms_jitter,
    );
    if adjusted < 1 {
        1
    } else {
        adjusted as u64
    }
}

/// Removes the finished chunks whose output slot has passed; returns how many.
fn drop_stale_completed(completed: &mut VecDeque<DoneChunk>, next_output_index: usize) -> (dropped:
    u64)
    ensures
        final(completed)@ == drop_stale(old(completed)@, next_output_index as int),
        dropped == old(completed)@.len() - final(completed)@.len(),
{
    let ghost start = completed@;
    let start_len = completed.len();
    let mut dropped = 0u64;
    loop
        invariant
            drop_stale(completed@, next_output_index as int) == drop_stale(
                start,
                next_output_index as int,
            ),
            start_len == start.len(),
            completed@.len() <= start.len(),
            dropped == start.len() - completed@.len(),
        ensures
            completed@ == drop_stale(start, next_output_index as int),
            dropped == start.len() - completed@.len(),
        decreases completed@.len(),
    {
        if completed.len() == 0 || completed[0].index >= next_output_index {
            break;
        }
        let ghost before = completed@;
        completed.pop_front();
        assert(completed@ =~= before.drop_first());
        dropped = dropped.saturating_add(1);
    }
    dropped
}

/// Removes the queued chunks with index up to `chunk_index`; returns how many.
fn drop_pending_through(pending: &mut VecDeque<PendingChunk>, chunk_index: usize) -> (dropped:
    u64)
    ensures
        final(pending)@ == drop_through(old(pending)@, chunk_index as int),
        dropped == old(pending)@.len() - final(pending)@.len(),
{
    let ghost start = pending@;
    let start_len = pending.len();
    let mut dropped = 0u64;
    loop
        invariant
            drop_through(pending@, chunk_index as int) == drop_through(start, chunk_index as int),
            start_len == start.len(),
            pending@.len() <= start.len(),
            dropped == start.len() - pending@.len(),
        ensures
            pending@ == drop_through(start, chunk_index as int),
            dropped == start.len() - pending@.len(),
        decreases pending@.len(),
    {
        if pending.len() == 0 || pending[0].index > chunk_index {
            break;
        }
        let ghost before = pending@;
        pending.pop_front();
        assert(pending@ =~= before.drop_first());
        dropped = dropped.saturating_add(1);
    }
    dropped
}

/// Cancels the worker's chunk if its index is at most `chunk_index`; returns
/// 1 when it did.
fn cancel_worker_through(worker: &mut Option<WorkerState>, chunk_index: usize) -> (dropped: u64)
    ensures
        *final(worker) == cancel_through(*old(worker), chunk_index as int),
        dropped == (if *final(worker) == *old(worker) {
            0u64
        } else {
            1u64
        }),
{
    let cancel = match worker {
        Some(work) => work.idx <= chunk_index,
        None => false,
    };
    if cancel {
        *worker = None;
        1
    } else {
        0
    }
}

/// The status of a missed output slot under `policy`.
fn policy_to_status(policy: Policy, has_last: bool) -> (s: OutputStatus)
    ensures
        s == miss_status(policy, has_last),
{
    match policy {
        Policy::DropOldest => OutputStatus::UnderrunDropped,
        Policy::SilenceOnUnderrun => OutputStatus::UnderrunSilence,
        Policy::ReuseLast => {
            if has_last {
                OutputStatus::UnderrunReused
            } else {
                OutputStatus::UnderrunSilence
            }
        },
    }
}


/// Whether the jitter offset of chunk `chunk_index` can be centred without overflow.
fn offset_fits(seed: u64, chunk_index: usize, jitter: u64) -> (r: bool)
    ensures
        r == offset_ok(seed, chunk_index as u64, jitter),
{
    if jitter == 0 {
        return true;
    }
    let mut x = seed ^ (chunk_index as u64).wrapping_mul(0x9E37_79B9_7F4A_7C15u64);
    x = x ^ (x >> 12u64);
    x = x ^ (x << 25u64);
    x = x ^ (x >> 27u64);
    x = x.wrapping_mul(0x2545_F491_4F6C_DD1Du64);
    let span = saturating_mul_u64(jitter, 2).saturating_add(1);
    assert(x == mix(seed, chunk_index as u64));
    ((x % span) as i64).checked_sub(jitter as i64).is_some()
}

/// Whether `run_simulation` accepts `cfg`: positive durations and capacity, a
/// chunk count that fits in `usize`, deadlines that fit in `u64`, and worker
/// times free of `i64` overflow for every chunk.
pub fn check_config(cfg: &Config) -> (ok: bool)
    ensures
        ok == sim_config_ok(*cfg),
{
    if cfg.duration_ms == 0 || cfg.chunk_ms == 0 || cfg.hop_ms == 0 || cfg.queue_capacity == 0 {
        return false;
    }
    let last = (cfg.duration_ms - 1) / cfg.hop_ms;
    if last >= usize::MAX as u64 {
        return false;
    }
    let span = match last.checked_mul(cfg.hop_ms) {
        Some(v) => v,
        None => {
            return false;
        },
    };
    if span > u64::MAX - cfg.chunk_ms {
        return false;
    }
    let num_chunks = last as usize + 1;
    let mut i: usize = 0;
    while i < num_chunks
        invariant
            num_chunks == chunk_count(*cfg),
            cfg.duration_ms > 0,
            cfg.hop_ms > 0,
            i <= num_chunks,
            forall|j: int| 0 <= j < i ==> #[trigger] worker_time_ok(*cfg, j),
        decreases num_chunks - i,
    {
        if !offset_fits(cfg.worker_ms_seed, i, cfg.worker_ms_jitter) {
            assert(!worker_time_ok(*cfg, i as int));
            return false;
        }
        let offset = deterministic_offset(cfg.worker_ms_seed, i, cfg.worker_ms_jitter);
        let base = if cfg.worker_pattern_ms.len() == 0 {
            cfg.worker_ms
        } else {
            cfg.worker_pattern_ms[i % cfg.worker_pattern_ms.len()]
        };
        assert(base == base_worker_time(*cfg, i as int));
        if (base as i64).checked_add(offset).is_none() {
            assert(!worker_time_ok(*cfg, i as int));
            return false;
        }
        i = i + 1;
    }
    true
}

/// The mutable state of a run.
struct Engine {
    pending: VecDeque<PendingChunk>,
    completed: VecDeque<DoneChunk>,
    worker: Option<WorkerState>,
    next_input_index: usize,
    next_output_index: usize,
    next_output_time: u64,
    max_queue_depth: usize,
    accumulated_delay_ms: u64,
    deadline_miss_events: u64,
    underrun_events: u64,
    dropped_chunks: u64,
    events: Vec<OutputEvent>,
    last_delivered: Option<usize>,
}

impl Engine {
    spec fn model(&self) -> SimState {
        SimState {
            pending: self.pending@,
            completed: self.completed@,
            worker: self.worker,
            next_input: self.next_input_index as int,
            next_output: self.next_output_index as int,
            next_output_time: self.next_output_time,
            max_queue_depth: self.max_queue_depth as int,
            accumulated_delay_ms: self.accumulated_delay_ms,
            deadline_miss_events: self.deadline_miss_events,
            underrun_events: self.underrun_events,
            dropped_chunks: self.dropped_chunks,
            events: self.events@,
            last_delivered: self.last_delivered,
        }
    }

    fn admit_arrivals(&mut self, cfg: &Config, num_chunks: usize, current_time: u64)
        requires
            num_chunks == chunk_count(*cfg),
            sim_inv(*cfg, old(self).model()),
        ensures
            final(self).model() == admit_arrivals(*cfg, old(self).model(), current_time),
    {
        let ghost start = self.model();
        loop
            invariant
                num_chunks == chunk_count(*cfg),
                sim_inv(*cfg, self.model()),
                admit_arrivals(*cfg, self.model(), current_time) == admit_arrivals(
                    *cfg,
                    start,
                    current_time,
                ),
            ensures
                self.model() == admit_arrivals(*cfg, start, current_time),
            decreases num_chunks - self.next_input_index,
        {
            if self.next_input_index >= num_chunks {
                break;
            }
            let arrival_time = saturating_mul_u64(cfg.hop_ms, self.next_input_index as u64);
            if arrival_time > current_time {
                break;
            }
            let ghost before = self.model();
            let full = self.pending.len() >= cfg.queue_capacity;
            if full {
                self.pending.pop_front();
                self.dropped_chunks = self.dropped_chunks.saturating_add(1);
            }
            self.pending.push_back(PendingChunk { index: self.next_input_index });
            if self.pending.len() > self.max_queue_depth {
                self.max_queue_depth = self.pending.len();
            }
            self.next_input_index = self.next_input_index + 1;
            proof {
                let kept = if full {
                    before.pending.drop_first()
                } else {
                    before.pending
                };
                assert(self.pending@ =~= kept.push(
                    PendingChunk { index: before.next_input as usize },
                ));
            }
        }
    }

    fn finish_worker(&mut self, cfg: &Config, num_chunks: usize, current_time: u64)
        requires
            num_chunks == chunk_count(*cfg),
            sim_config_ok(*cfg),
            well_indexed(*cfg, old(self).model()),
        ensures
            final(self).model() == finish_worker(*cfg, old(self).model(), current_time),
    {
        if let Some(work) = self.worker {
            if work.done_at_ms <= current_time {
                self.worker = None;
                proof {
                    lemma_due_time_fits(*cfg, work.idx as int);
                }
                let due = due_time_ms(cfg, work.idx);
                let lateness = work.done_at_ms.saturating_sub(due);
                self.accumulated_delay_ms = self.accumulated_delay_ms.saturating_add(lateness);
                if work.idx >= self.next_output_index {
                    self.completed.push_back(
                        DoneChunk { index: work.idx, done_time_ms: work.done_at_ms },
                    );
                } else {
                    self.dropped_chunks = self.dropped_chunks.saturating_add(1);
                }
            }
        }
    }

    fn start_worker(&mut self, cfg: &Config, num_chunks: usize, current_time: u64)
        requires
            num_chunks == chunk_count(*cfg),
            sim_config_ok(*cfg),
            well_indexed(*cfg, old(self).model()),
        ensures
            final(self).model() == start_worker(*cfg, old(self).model(), current_time),
    {
        if self.worker.is_none() {
            let ghost before = self.pending@;
            match self.pending.pop_front() {
                Some(chunk) => {
                    assert(self.pending@ =~= before.drop_first());
                    assert(worker_time_ok(*cfg, chunk.index as int));
                    let done_at = current_time.saturating_add(worker_time_ms(cfg, chunk.index));
                    self.worker = Some(WorkerState { idx: chunk.index, done_at_ms: done_at });
                },
                None => {},
            }
        }
    }

    fn record_miss(&mut self, cfg: &Config, chunk_index: usize, scheduled_time_ms: u64)
        ensures
            final(self).model() == record_miss(
                *cfg,
                old(self).model(),
                chunk_index as int,
                scheduled_time_ms,
            ),
    {
        self.deadline_miss_events = self.deadline_miss_events.saturating_add(1);
        let status = policy_to_status(cfg.policy, self.last_delivered.is_some());
        if status != OutputStatus::UnderrunReused {
            self.underrun_events = self.underrun_events.saturating_add(1);
        }
        match cfg.policy {
            Policy::DropOldest => {
                let dropped = drop_pending_through(&mut self.pending, chunk_index);
                self.dropped_chunks = self.dropped_chunks.saturating_add(dropped);
                let cancelled = cancel_worker_through(&mut self.worker, chunk_index);
                self.dropped_chunks = self.dropped_chunks.saturating_add(cancelled);
            },
            _ => {},
        }
        self.events.push(
            OutputEvent {
                chunk_index,
                scheduled_time_ms,
                status,
                worker_done_time_ms: None,
            },
        );
    }

    fn emit_output(&mut self, cfg: &Config, num_chunks: usize, scheduled_time_ms: u64)
        requires
            num_chunks == chunk_count(*cfg),
            old(self).next_output_index < num_chunks,
        ensures
            final(self).model() == emit_output(*cfg, old(self).model(), scheduled_time_ms),
    {
        let chunk_index = self.next_output_index;
        let stale = drop_stale_completed(&mut self.completed, chunk_index);
        self.dropped_chunks = self.dropped_chunks.saturating_add(stale);
        if self.completed.len() > 0 && self.completed[0].index == chunk_index {
            let ghost kept = self.completed@;
            match self.completed.pop_front() {
                Some(done) => {
                    assert(self.completed@ =~= kept.drop_first());
                    self.last_delivered = Some(chunk_index);
                    self.events.push(
                        OutputEvent {
                            chunk_index,
                            scheduled_time_ms,
                            status: OutputStatus::Delivered,
                            worker_done_time_ms: Some(done.done_time_ms),
                        },
                    );
                },
                None => {},
            }
        } else {
            self.record_miss(cfg, chunk_index, scheduled_time_ms);
        }
        self.next_output_index = self.next_output_index + 1;
        self.next_output_time = scheduled_time_ms.saturating_add(cfg.hop_ms);
    }
}

/// Runs the scheduling simulation described by `cfg`.
///
/// Chunks arrive every `hop_ms`; output slot `i` is due at `chunk_ms + i *
/// hop_ms`. A single worker processes queued chunks one at a time. A chunk
/// that is not finished by its slot counts as a deadline miss and is handled
/// by the policy.
pub fn run_simulation(cfg: &Config) -> (summary: SimulationSummary)
    requires
        sim_config_ok(*cfg),
    ensures
        summary.num_chunks == chunk_count(*cfg),
        summary.policy == cfg.policy,
        summary.accumulated_delay_ms == simulate(*cfg).accumulated_delay_ms,
        summary.deadline_miss_events == simulate(*cfg).deadline_miss_events,
        summary.underrun_events == simulate(*cfg).underrun_events,
        summary.dropped_chunks == simulate(*cfg).dropped_chunks,
        summary.max_queue_depth == simulate(*cfg).max_queue_depth,
        summary.events@ == simulate(*cfg).events,
{
    let num_chunks = ((cfg.duration_ms.saturating_sub(1)) / cfg.hop_ms) as usize + 1;
    let mut e = Engine {
        pending: VecDeque::new(),
        completed: VecDeque::new(),
        worker: None,
        next_input_index: 0,
        next_output_index: 0,
        next_output_time: 0,
        max_queue_depth: 0,
        accumulated_delay_ms: 0,
        deadline_miss_events: 0,
        underrun_events: 0,
        dropped_chunks: 0,
        events: Vec::new(),
        last_delivered: None,
    };
    e.next_output_time = due_time_ms(cfg, 0);
    assert(e.model() =~= initial_state(*cfg));
    loop
        invariant_except_break
            run_from(*cfg, e.model()) == simulate(*cfg),
        invariant
            num_chunks == chunk_count(*cfg),
            sim_config_ok(*cfg),
            sim_inv(*cfg, e.model()),
            well_indexed(*cfg, e.model()),
        ensures
            e.model() == simulate(*cfg),
        decreases measure(*cfg, e.model()),
    {
        if !(e.next_output_index < num_chunks || e.next_input_index < num_chunks
            || e.worker.is_some() || e.pending.len() > 0 || e.completed.len() > 0) {
            break;
        }
        let ghost s0 = e.model();
        let next_arrival = if e.next_input_index < num_chunks {
            saturating_mul_u64(cfg.hop_ms, e.next_input_index as u64)
        } else {
            u64::MAX
        };
        let next_output = if e.next_output_index < num_chunks {
            e.next_output_time
        } else {
            u64::MAX
        };
        let next_worker_done = match e.worker {
            Some(state) => state.done_at_ms,
            None => u64::MAX,
        };
        let current_time = min_u64_exec(next_arrival, min_u64_exec(next_worker_done, next_output));
        assert(current_time == model::current_time(*cfg, s0));
        e.admit_arrivals(cfg, num_chunks, current_time);
        proof {
            lemma_admit_keeps(*cfg, s0, current_time);
        }
        e.finish_worker(cfg, num_chunks, current_time);
        proof {
            lemma_finish_keeps(*cfg, admit_arrivals(*cfg, s0, current_time), current_time);
        }
        e.start_worker(cfg, num_chunks, current_time);
        proof {
            lemma_start_keeps(
                *cfg,
                finish_worker(*cfg, admit_arrivals(*cfg, s0, current_time), current_time),
                current_time,
            );
        }
        if current_time == next_output && e.next_output_index < num_chunks {
            let ghost s3 = e.model();
            e.emit_output(cfg, num_chunks, next_output);
            proof {
                lemma_emit_keeps(*cfg, s3, next_output);
            }
        }
        assert(e.model() == step(*cfg, s0));
        if current_time == u64::MAX {
            break;
        }
        proof {
            lemma_step_decreases(*cfg, s0);
        }
    }
    let events = e.events;
    SimulationSummary {
        accumulated_delay_ms: e.accumulated_delay_ms,
        deadline_miss_events: e.deadline_miss_events,
        underrun_events: e.underrun_events,
        dropped_chunks: e.dropped_chunks,
        max_queue_depth: e.max_queue_depth,
        policy: cfg.policy,
        num_chunks,
        events,
    }
}

} // verus!
