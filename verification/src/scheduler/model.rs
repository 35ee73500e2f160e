//! The mathematical model of the chunk scheduler: one state record and the
//! functions that take it from one decision point to the next.
use vstd::prelude::*;

use super::{Config, DoneChunk, OutputEvent, OutputStatus, PendingChunk, Policy, WorkerState};

verus! {

/// `a + b`, or `u64::MAX` when the sum does not fit.
pub open spec fn sat_add(a: u64, b: int) -> u64 {
    if a + b > u64::MAX {
        u64::MAX
    } else {
        (a + b) as u64
    }
}

/// `a * b`, or `u64::MAX` when the product does not fit.
pub open spec fn sat_mul(a: u64, b: int) -> u64 {
    if a * b > u64::MAX {
        u64::MAX
    } else {
        (a * b) as u64
    }
}

pub open spec fn min_u64(a: u64, b: u64) -> u64 {
    if a <= b {
        a
    } else {
        b
    }
}

/// Number of input chunks (and of output slots) of a run.
pub open spec fn chunk_count(cfg: Config) -> int {
    (cfg.duration_ms - 1) / (cfg.hop_ms as int) + 1
}

/// Time at which input chunk `i` arrives.
pub open spec fn arrival_time(cfg: Config, i: int) -> u64 {
    sat_mul(cfg.hop_ms, i)
}

/// Deadline of chunk `i`: the time of its output slot.
pub open spec fn due_time(cfg: Config, i: int) -> int {
    cfg.chunk_ms + i * cfg.hop_ms
}

/// The deterministic pseudo-random mixing of a seed and a chunk index.
pub open spec fn mix(seed: u64, index: u64) -> u64 {
    let x0 = seed ^ index.wrapping_mul(0x9E37_79B9_7F4A_7C15u64);
    let x1 = x0 ^ (x0 >> 12u64);
    let x2 = x1 ^ (x1 << 25u64);
    let x3 = x2 ^ (x2 >> 27u64);
    x3.wrapping_mul(0x2545_F491_4F6C_DD1Du64)
}

/// Number of distinct jitter offsets: `2 * jitter + 1`, saturating.
pub open spec fn jitter_span(jitter: u64) -> u64 {
    sat_add(sat_mul(jitter, 2), 1)
}

/// The offset before it is centred: the mixed value reduced modulo the span.
pub open spec fn raw_offset(seed: u64, index: u64, jitter: u64) -> u64 {
    mix(seed, index) % jitter_span(jitter)
}

/// The centring subtraction of the jitter offset does not overflow `i64`.
pub open spec fn offset_ok(seed: u64, index: u64, jitter: u64) -> bool {
    jitter == 0 || (i64::MIN <= (raw_offset(seed, index, jitter) as i64) - (jitter as i64)
        <= i64::MAX)
}

/// The jitter offset of chunk `index`, in `-jitter ..= jitter` when no wrapping occurs.
pub open spec fn jitter_offset(seed: u64, index: u64, jitter: u64) -> i64 {
    if jitter == 0 {
        0
    } else {
        ((raw_offset(seed, index, jitter) as i64) - (jitter as i64)) as i64
    }
}

/// The nominal worker time of chunk `i`: the pattern entry, cycling, or the constant.
pub open spec fn base_worker_time(cfg: Config, i: int) -> u64 {
    if cfg.worker_pattern_ms@.len() == 0 {
        cfg.worker_ms
    } else {
        cfg.worker_pattern_ms@[i % (cfg.worker_pattern_ms@.len() as int)]
    }
}

/// The worker time of chunk `i` can be computed without `i64` overflow.
pub open spec fn worker_time_ok(cfg: Config, i: int) -> bool {
    &&& offset_ok(cfg.worker_ms_seed, i as u64, cfg.worker_ms_jitter)
    &&& i64::MIN <= (base_worker_time(cfg, i) as i64) + jitter_offset(
        cfg.worker_ms_seed,
        i as u64,
        cfg.worker_ms_jitter,
    ) <= i64::MAX
}

/// Worker time of chunk `i`: nominal time plus jitter, at least 1 ms.
pub open spec fn worker_time(cfg: Config, i: int) -> u64 {
    let adjusted = (base_worker_time(cfg, i) as i64) + jitter_offset(
        cfg.worker_ms_seed,
        i as u64,
        cfg.worker_ms_jitter,
    );
    if adjusted < 1 {
        1
    } else {
        adjusted as u64
    }
}

/// The configurations that a run accepts: positive durations and capacity,
/// a chunk count that fits in `usize`, deadlines that fit in `u64`, and
/// worker times free of `i64` overflow.
pub open spec fn sim_config_ok(cfg: Config) -> bool {
    &&& cfg.duration_ms > 0
    &&& cfg.chunk_ms > 0
    &&& cfg.hop_ms > 0
    &&& cfg.queue_capacity > 0
    &&& chunk_count(cfg) <= usize::MAX
    &&& due_time(cfg, chunk_count(cfg) - 1) <= u64::MAX
    &&& forall|i: int| 0 <= i < chunk_count(cfg) ==> #[trigger] worker_time_ok(cfg, i)
}

/// Status of an output slot whose chunk is not ready.
pub open spec fn miss_status(policy: Policy, has_last: bool) -> OutputStatus {
    match policy {
        Policy::DropOldest => OutputStatus::UnderrunDropped,
        Policy::SilenceOnUnderrun => OutputStatus::UnderrunSilence,
        Policy::ReuseLast => if has_last {
            OutputStatus::UnderrunReused
        } else {
            OutputStatus::UnderrunSilence
        },
    }
}

/// The scheduler's whole state between two decision points.
#[verifier::ext_equal]
pub struct SimState {
    /// Chunks that have arrived and wait for the worker, oldest first.
    pub pending: Seq<PendingChunk>,
    /// Chunks the worker has finished, waiting for their output slot.
    pub completed: Seq<DoneChunk>,
    /// The chunk the worker is processing, with its completion time.
    pub worker: Option<WorkerState>,
    /// Index of the next chunk to arrive.
    pub next_input: int,
    /// Index of the next output slot.
    pub next_output: int,
    /// Time of the next output slot.
    pub next_output_time: u64,
    pub max_queue_depth: int,
    pub accumulated_delay_ms: u64,
    pub deadline_miss_events: u64,
    pub underrun_events: u64,
    pub dropped_chunks: u64,
    /// One event per output slot handled so far.
    pub events: Seq<OutputEvent>,
    /// Index of the last chunk delivered on time, if any.
    pub last_delivered: Option<usize>,
}

/// The state before the first decision point.
pub open spec fn initial_state(cfg: Config) -> SimState {
    SimState {
        pending: Seq::empty(),
        completed: Seq::empty(),
        worker: None,
        next_input: 0,
        next_output: 0,
        next_output_time: cfg.chunk_ms,
        max_queue_depth: 0,
        accumulated_delay_ms: 0,
        deadline_miss_events: 0,
        underrun_events: 0,
        dropped_chunks: 0,
        events: Seq::empty(),
        last_delivered: None,
    }
}

pub open spec fn next_arrival(cfg: Config, s: SimState) -> u64 {
    if s.next_input < chunk_count(cfg) {
        arrival_time(cfg, s.next_input)
    } else {
        u64::MAX
    }
}

pub open spec fn next_output_at(cfg: Config, s: SimState) -> u64 {
    if s.next_output < chunk_count(cfg) {
        s.next_output_time
    } else {
        u64::MAX
    }
}

pub open spec fn next_worker_done(s: SimState) -> u64 {
    match s.worker {
        Some(w) => w.done_at_ms,
        None => u64::MAX,
    }
}

/// The time of the next decision point: the earliest of the next arrival,
/// the worker's completion and the next output slot.
pub open spec fn current_time(cfg: Config, s: SimState) -> u64 {
    min_u64(next_arrival(cfg, s), min_u64(next_worker_done(s), next_output_at(cfg, s)))
}

/// Some work is left: an output slot, an arrival, a busy worker or a queued chunk.
pub open spec fn has_work(cfg: Config, s: SimState) -> bool {
    ||| s.next_output < chunk_count(cfg)
    ||| s.next_input < chunk_count(cfg)
    ||| s.worker is Some
    ||| s.pending.len() > 0
    ||| s.completed.len() > 0
}

/// Queues every chunk that has arrived by time `t`; a full queue loses its oldest chunk.
pub open spec fn admit_arrivals(cfg: Config, s: SimState, t: u64) -> SimState
    decreases chunk_count(cfg) - s.next_input,
{
    if s.next_input < chunk_count(cfg) && arrival_time(cfg, s.next_input) <= t {
        let full = s.pending.len() >= cfg.queue_capacity;
        let kept = if full {
            s.pending.drop_first()
        } else {
            s.pending
        };
        let pending = kept.push(PendingChunk { index: s.next_input as usize });
        let next = SimState {
            pending,
            dropped_chunks: if full {
                sat_add(s.dropped_chunks, 1)
            } else {
                s.dropped_chunks
            },
            max_queue_depth: if pending.len() > s.max_queue_depth {
                pending.len() as int
            } else {
                s.max_queue_depth
            },
            next_input: s.next_input + 1,
            ..s
        };
        admit_arrivals(cfg, next, t)
    } else {
        s
    }
}

/// Collects the worker's chunk if it is done by time `t`: its lateness is
/// accumulated, and it is kept for output unless its slot has passed.
pub open spec fn finish_worker(cfg: Config, s: SimState, t: u64) -> SimState {
    match s.worker {
        Some(w) => if w.done_at_ms <= t {
            let late = if w.done_at_ms > due_time(cfg, w.idx as int) {
                w.done_at_ms - due_time(cfg, w.idx as int)
            } else {
                0
            };
            let base = SimState {
                worker: None,
                accumulated_delay_ms: sat_add(s.accumulated_delay_ms, late),
                ..s
            };
            if w.idx >= s.next_output {
                SimState {
                    completed: s.completed.push(
                        DoneChunk { index: w.idx, done_time_ms: w.done_at_ms },
                    ),
                    ..base
                }
            } else {
                SimState { dropped_chunks: sat_add(s.dropped_chunks, 1), ..base }
            }
        } else {
            s
        },
        None => s,
    }
}

/// Hands the oldest queued chunk to an idle worker at time `t`.
pub open spec fn start_worker(cfg: Config, s: SimState, t: u64) -> SimState {
    if s.worker is None && s.pending.len() > 0 {
        let c = s.pending[0];
        SimState {
            pending: s.pending.drop_first(),
            worker: Some(
                WorkerState {
                    idx: c.index,
                    done_at_ms: sat_add(t, worker_time(cfg, c.index as int) as int),
                },
            ),
            ..s
        }
    } else {
        s
    }
}

/// Removes the finished chunks at the front whose output slot has passed.
pub open spec fn drop_stale(c: Seq<DoneChunk>, index: int) -> Seq<DoneChunk>
    decreases c.len(),
{
    if c.len() > 0 && c[0].index < index {
        drop_stale(c.drop_first(), index)
    } else {
        c
    }
}

/// Removes the queued chunks at the front whose index is at most `index`.
pub open spec fn drop_through(p: Seq<PendingChunk>, index: int) -> Seq<PendingChunk>
    decreases p.len(),
{
    if p.len() > 0 && p[0].index <= index {
        drop_through(p.drop_first(), index)
    } else {
        p
    }
}

/// The worker after cancelling work on chunks up to `index`.
pub open spec fn cancel_through(w: Option<WorkerState>, index: int) -> Option<WorkerState> {
    match w {
        Some(work) => if work.idx <= index {
            None
        } else {
            w
        },
        None => w,
    }
}

/// Records a missed output slot for chunk `index` scheduled at `scheduled`.
pub open spec fn record_miss(cfg: Config, s: SimState, index: int, scheduled: u64) -> SimState {
    let status = miss_status(cfg.policy, s.last_delivered is Some);
    let underrun = if status != OutputStatus::UnderrunReused {
        sat_add(s.underrun_events, 1)
    } else {
        s.underrun_events
    };
    let event = OutputEvent {
        chunk_index: index as usize,
        scheduled_time_ms: scheduled,
        status,
        worker_done_time_ms: None,
    };
    let base = SimState {
        deadline_miss_events: sat_add(s.deadline_miss_events, 1),
        underrun_events: underrun,
        events: s.events.push(event),
        ..s
    };
    if cfg.policy == Policy::DropOldest {
        let pending = drop_through(s.pending, index);
        let worker = cancel_through(s.worker, index);
        let d1 = sat_add(s.dropped_chunks, s.pending.len() - pending.len());
        let d2 = if worker == s.worker {
            d1
        } else {
            sat_add(d1, 1)
        };
        SimState { pending, worker, dropped_chunks: d2, ..base }
    } else {
        base
    }
}

/// Handles the output slot of chunk `next_output`, scheduled at `scheduled`.
pub open spec fn emit_output(cfg: Config, s: SimState, scheduled: u64) -> SimState {
    let index = s.next_output;
    let kept = drop_stale(s.completed, index);
    let base = SimState {
        completed: kept,
        dropped_chunks: sat_add(s.dropped_chunks, s.completed.len() - kept.len()),
        ..s
    };
    let handled = if kept.len() > 0 && kept[0].index == index {
        SimState {
            completed: kept.drop_first(),
            last_delivered: Some(index as usize),
            events: s.events.push(
                OutputEvent {
                    chunk_index: index as usize,
                    scheduled_time_ms: scheduled,
                    status: OutputStatus::Delivered,
                    worker_done_time_ms: Some(kept[0].done_time_ms),
                },
            ),
            ..base
        }
    } else {
        record_miss(cfg, base, index, scheduled)
    };
    SimState {
        next_output: index + 1,
        next_output_time: sat_add(scheduled, cfg.hop_ms as int),
        ..handled
    }
}

/// One decision point: arrivals, worker completion, worker start, output slot.
pub open spec fn step(cfg: Config, s: SimState) -> SimState {
    let t = current_time(cfg, s);
    let output_at = next_output_at(cfg, s);
    let s1 = admit_arrivals(cfg, s, t);
    let s2 = finish_worker(cfg, s1, t);
    let s3 = start_worker(cfg, s2, t);
    if t == output_at && s3.next_output < chunk_count(cfg) {
        emit_output(cfg, s3, output_at)
    } else {
        s3
    }
}

/// The counters stay within the run: this makes `measure` a natural number.
pub open spec fn sim_inv(cfg: Config, s: SimState) -> bool {
    &&& cfg.queue_capacity > 0
    &&& 0 <= s.next_input <= chunk_count(cfg)
    &&& 0 <= s.next_output <= chunk_count(cfg)
}

/// A quantity that every decision point with work lowers.
pub open spec fn measure(cfg: Config, s: SimState) -> int {
    4 * (chunk_count(cfg) - s.next_input) + 3 * s.pending.len() + 2 * (if s.worker is Some {
        1int
    } else {
        0int
    }) + s.completed.len() + (chunk_count(cfg) - s.next_output)
}

/// Runs decision points from `s` until no work is left or time has run out.
pub open spec fn run_from(cfg: Config, s: SimState) -> SimState
    decreases measure(cfg, s),
    when sim_inv(cfg, s)
{
    if has_work(cfg, s) {
        let next = step(cfg, s);
        if current_time(cfg, s) == u64::MAX {
            next
        } else {
            proof {
                lemma_step_decreases(cfg, s);
            }
            run_from(cfg, next)
        }
    } else {
        s
    }
}

/// The final state of a whole run.
pub open spec fn simulate(cfg: Config) -> SimState {
    run_from(cfg, initial_state(cfg))
}

proof fn lemma_admit_decreases(cfg: Config, s: SimState, t: u64)
    requires
        sim_inv(cfg, s),
    ensures
        sim_inv(cfg, admit_arrivals(cfg, s, t)),
        measure(cfg, admit_arrivals(cfg, s, t)) <= measure(cfg, s),
        s.next_input < chunk_count(cfg) && arrival_time(cfg, s.next_input) <= t ==> measure(
            cfg,
            admit_arrivals(cfg, s, t),
        ) < measure(cfg, s),
        admit_arrivals(cfg, s, t).worker == s.worker,
        admit_arrivals(cfg, s, t).next_output == s.next_output,
        admit_arrivals(cfg, s, t).next_output_time == s.next_output_time,
    decreases chunk_count(cfg) - s.next_input,
{
    if s.next_input < chunk_count(cfg) && arrival_time(cfg, s.next_input) <= t {
        let full = s.pending.len() >= cfg.queue_capacity;
        let kept = if full {
            s.pending.drop_first()
        } else {
            s.pending
        };
        let pending = kept.push(PendingChunk { index: s.next_input as usize });
        let next = SimState {
            pending,
            dropped_chunks: if full {
                sat_add(s.dropped_chunks, 1)
            } else {
                s.dropped_chunks
            },
            max_queue_depth: if pending.len() > s.max_queue_depth {
                pending.len() as int
            } else {
                s.max_queue_depth
            },
            next_input: s.next_input + 1,
            ..s
        };
        assert(measure(cfg, next) < measure(cfg, s));
        lemma_admit_decreases(cfg, next, t);
    }
}

proof fn lemma_drop_stale_len(c: Seq<DoneChunk>, index: int)
    ensures
        drop_stale(c, index).len() <= c.len(),
    decreases c.len(),
{
    if c.len() > 0 && c[0].index < index {
        lemma_drop_stale_len(c.drop_first(), index);
    }
}

proof fn lemma_drop_through_len(p: Seq<PendingChunk>, index: int)
    ensures
        drop_through(p, index).len() <= p.len(),
    decreases p.len(),
{
    if p.len() > 0 && p[0].index <= index {
        lemma_drop_through_len(p.drop_first(), index);
    }
}

proof fn lemma_emit_decreases(cfg: Config, s: SimState, scheduled: u64)
    requires
        sim_inv(cfg, s),
        s.next_output < chunk_count(cfg),
    ensures
        sim_inv(cfg, emit_output(cfg, s, scheduled)),
        measure(cfg, emit_output(cfg, s, scheduled)) < measure(cfg, s),
{
    lemma_drop_stale_len(s.completed, s.next_output);
    lemma_drop_through_len(s.pending, s.next_output);
}


/// Every chunk index held in the state names a chunk of the run.
pub open spec fn well_indexed(cfg: Config, s: SimState) -> bool {
    &&& forall|i: int|
        0 <= i < s.pending.len() ==> (#[trigger] s.pending[i]).index < chunk_count(cfg)
    &&& (s.worker matches Some(w) ==> w.idx < chunk_count(cfg))
    &&& forall|i: int|
        0 <= i < s.completed.len() ==> (#[trigger] s.completed[i]).index < chunk_count(cfg)
}

/// The deadline of every chunk of an accepted run fits in `u64`.
pub proof fn lemma_due_time_fits(cfg: Config, i: int)
    requires
        sim_config_ok(cfg),
        0 <= i < chunk_count(cfg),
    ensures
        due_time(cfg, i) <= u64::MAX,
        due_time(cfg, i) <= due_time(cfg, chunk_count(cfg) - 1),
{
    let n = chunk_count(cfg);
    let h = cfg.hop_ms as int;
    assert(i * h <= (n - 1) * h) by (nonlinear_arith)
        requires
            0 <= i <= n - 1,
            h >= 0,
    ;
}

pub proof fn lemma_drop_stale_suffix(c: Seq<DoneChunk>, index: int)
    ensures
        drop_stale(c, index).len() <= c.len(),
        drop_stale(c, index) == c.subrange(c.len() - drop_stale(c, index).len(), c.len() as int),
    decreases c.len(),
{
    if c.len() > 0 && c[0].index < index {
        lemma_drop_stale_suffix(c.drop_first(), index);
        assert(c.drop_first().subrange(
            c.drop_first().len() - drop_stale(c, index).len(),
            c.drop_first().len() as int,
        ) =~= c.subrange(c.len() - drop_stale(c, index).len(), c.len() as int));
    } else {
        assert(c =~= c.subrange(0, c.len() as int));
    }
}

pub proof fn lemma_drop_through_suffix(p: Seq<PendingChunk>, index: int)
    ensures
        drop_through(p, index).len() <= p.len(),
        drop_through(p, index) == p.subrange(
            p.len() - drop_through(p, index).len(),
            p.len() as int,
        ),
    decreases p.len(),
{
    if p.len() > 0 && p[0].index <= index {
        lemma_drop_through_suffix(p.drop_first(), index);
        assert(p.drop_first().subrange(
            p.drop_first().len() - drop_through(p, index).len(),
            p.drop_first().len() as int,
        ) =~= p.subrange(p.len() - drop_through(p, index).len(), p.len() as int));
    } else {
        assert(p =~= p.subrange(0, p.len() as int));
    }
}

/// Admitting arrivals keeps the state within the run.
pub proof fn lemma_admit_keeps(cfg: Config, s: SimState, t: u64)
    requires
        sim_inv(cfg, s),
        well_indexed(cfg, s),
    ensures
        sim_inv(cfg, admit_arrivals(cfg, s, t)),
        well_indexed(cfg, admit_arrivals(cfg, s, t)),
    decreases chunk_count(cfg) - s.next_input,
{
    if s.next_input < chunk_count(cfg) && arrival_time(cfg, s.next_input) <= t {
        let full = s.pending.len() >= cfg.queue_capacity;
        let kept = if full {
            s.pending.drop_first()
        } else {
            s.pending
        };
        let pending = kept.push(PendingChunk { index: s.next_input as usize });
        let next = SimState {
            pending,
            dropped_chunks: if full {
                sat_add(s.dropped_chunks, 1)
            } else {
                s.dropped_chunks
            },
            max_queue_depth: if pending.len() > s.max_queue_depth {
                pending.len() as int
            } else {
                s.max_queue_depth
            },
            next_input: s.next_input + 1,
            ..s
        };
        assert forall|i: int| 0 <= i < next.pending.len() implies (
        #[trigger] next.pending[i]).index < chunk_count(cfg) by {
            if i < kept.len() {
                if full {
                    assert(kept[i] == s.pending[i + 1]);
                } else {
                    assert(kept[i] == s.pending[i]);
                }
            }
        }
        lemma_admit_keeps(cfg, next, t);
    }
}

/// Collecting the worker's chunk keeps the state within the run.
pub proof fn lemma_finish_keeps(cfg: Config, s: SimState, t: u64)
    requires
        sim_inv(cfg, s),
        well_indexed(cfg, s),
    ensures
        sim_inv(cfg, finish_worker(cfg, s, t)),
        well_indexed(cfg, finish_worker(cfg, s, t)),
{
    let f = finish_worker(cfg, s, t);
    assert forall|i: int| 0 <= i < f.completed.len() implies (#[trigger] f.completed[i]).index
        < chunk_count(cfg) by {
        if i < s.completed.len() {
            assert(f.completed[i] == s.completed[i]);
        }
    }
}

/// Starting the worker keeps the state within the run.
pub proof fn lemma_start_keeps(cfg: Config, s: SimState, t: u64)
    requires
        sim_inv(cfg, s),
        well_indexed(cfg, s),
    ensures
        sim_inv(cfg, start_worker(cfg, s, t)),
        well_indexed(cfg, start_worker(cfg, s, t)),
{
    let f = start_worker(cfg, s, t);
    if s.worker is None && s.pending.len() > 0 {
        assert(s.pending[0].index < chunk_count(cfg));
        assert forall|i: int| 0 <= i < f.pending.len() implies (#[trigger] f.pending[i]).index
            < chunk_count(cfg) by {
            assert(f.pending[i] == s.pending[i + 1]);
        }
    }
}

/// Handling an output slot keeps the state within the run.
pub proof fn lemma_emit_keeps(cfg: Config, s: SimState, scheduled: u64)
    requires
        sim_inv(cfg, s),
        well_indexed(cfg, s),
        s.next_output < chunk_count(cfg),
    ensures
        sim_inv(cfg, emit_output(cfg, s, scheduled)),
        well_indexed(cfg, emit_output(cfg, s, scheduled)),
{
    let index = s.next_output;
    let kept = drop_stale(s.completed, index);
    lemma_drop_stale_suffix(s.completed, index);
    let off = s.completed.len() - kept.len();
    assert forall|i: int| 0 <= i < kept.len() implies (#[trigger] kept[i]).index < chunk_count(
        cfg,
    ) by {
        assert(kept[i] == s.completed[i + off]);
    }
    let pending = drop_through(s.pending, index);
    lemma_drop_through_suffix(s.pending, index);
    let poff = s.pending.len() - pending.len();
    assert forall|i: int| 0 <= i < pending.len() implies (#[trigger] pending[i]).index
        < chunk_count(cfg) by {
        assert(pending[i] == s.pending[i + poff]);
    }
    let e = emit_output(cfg, s, scheduled);
    assert forall|i: int| 0 <= i < e.completed.len() implies (#[trigger] e.completed[i]).index
        < chunk_count(cfg) by {
        if kept.len() > 0 && kept[0].index == index {
            assert(e.completed[i] == kept[i + 1]);
        } else {
            assert(e.completed[i] == kept[i]);
        }
    }
}


/// Admitting arrivals touches only the queue, the input index, the drop
/// count and the queue-depth maximum, and stops at the first chunk that has
/// not arrived by `t`.
pub proof fn lemma_admit_frame(cfg: Config, s: SimState, t: u64)
    requires
        sim_inv(cfg, s),
    ensures
        admit_arrivals(cfg, s, t).worker == s.worker,
        admit_arrivals(cfg, s, t).completed == s.completed,
        admit_arrivals(cfg, s, t).events == s.events,
        admit_arrivals(cfg, s, t).next_output == s.next_output,
        admit_arrivals(cfg, s, t).next_output_time == s.next_output_time,
        admit_arrivals(cfg, s, t).last_delivered == s.last_delivered,
        admit_arrivals(cfg, s, t).deadline_miss_events == s.deadline_miss_events,
        admit_arrivals(cfg, s, t).underrun_events == s.underrun_events,
        admit_arrivals(cfg, s, t).accumulated_delay_ms == s.accumulated_delay_ms,
        admit_arrivals(cfg, s, t).next_input == chunk_count(cfg) || arrival_time(
            cfg,
            admit_arrivals(cfg, s, t).next_input,
        ) > t,
    decreases chunk_count(cfg) - s.next_input,
{
    if s.next_input < chunk_count(cfg) && arrival_time(cfg, s.next_input) <= t {
        let full = s.pending.len() >= cfg.queue_capacity;
        let kept = if full {
            s.pending.drop_first()
        } else {
            s.pending
        };
        let pending = kept.push(PendingChunk { index: s.next_input as usize });
        let next = SimState {
            pending,
            dropped_chunks: if full {
                sat_add(s.dropped_chunks, 1)
            } else {
                s.dropped_chunks
            },
            max_queue_depth: if pending.len() > s.max_queue_depth {
                pending.len() as int
            } else {
                s.max_queue_depth
            },
            next_input: s.next_input + 1,
            ..s
        };
        lemma_admit_frame(cfg, next, t);
    }
}

/// Every decision point of a run with work left and time remaining lowers `measure`.
pub proof fn lemma_step_decreases(cfg: Config, s: SimState)
    requires
        sim_inv(cfg, s),
        has_work(cfg, s),
        current_time(cfg, s) < u64::MAX,
    ensures
        sim_inv(cfg, step(cfg, s)),
        measure(cfg, step(cfg, s)) < measure(cfg, s),
{
    let t = current_time(cfg, s);
    let output_at = next_output_at(cfg, s);
    let s1 = admit_arrivals(cfg, s, t);
    lemma_admit_decreases(cfg, s, t);
    let s2 = finish_worker(cfg, s1, t);
    let s3 = start_worker(cfg, s2, t);
    assert(measure(cfg, s2) <= measure(cfg, s1));
    assert(measure(cfg, s3) <= measure(cfg, s2));
    if t == output_at && s3.next_output < chunk_count(cfg) {
        lemma_emit_decreases(cfg, s3, output_at);
    }
    if t == next_arrival(cfg, s) {
        assert(measure(cfg, s1) < measure(cfg, s));
    } else if t == next_worker_done(s) {
        assert(measure(cfg, s2) < measure(cfg, s1));
    } else {
        assert(t == output_at);
    }
}

} // verus!
