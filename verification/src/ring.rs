//! The realtime side of passthrough: moving whole audio frames between the
//! device callbacks and the lock-free ring buffer, and counting what happened.
//!
//! Samples travel through the ring buffer as the bit patterns of `f32`
//! values; the callbacks convert device samples to and from those patterns.
use rtrb::{Consumer, Producer, RingBuffer};
use vstd::prelude::*;

use crate::metrics::{wrap_add, AudioCounters, AudioMetricsSnapshot};
use crate::passthrough::{
    capacity_samples, capacity_samples_spec, PassthroughError, MAX_CAPACITY_SAMPLES,
};

verus! {

/// The writing end of a ring buffer.
#[verifier::external_type_specification]
#[verifier::external_body]
#[verifier::reject_recursive_types(T)]
pub struct ExProducer<T>(Producer<T>);

/// The reading end of a ring buffer.
#[verifier::external_type_specification]
#[verifier::external_body]
#[verifier::reject_recursive_types(T)]
pub struct ExConsumer<T>(Consumer<T>);

/// Every value this producer has written into the ring buffer, oldest first.
pub uninterp spec fn written(p: Producer<u32>) -> Seq<u32>;

/// Every value this consumer has taken out of the ring buffer, oldest first.
pub uninterp spec fn taken(c: Consumer<u32>) -> Seq<u32>;

/// The free slots this producer has seen: the capacity less the values
/// between the read position it last loaded and its own write position. The
/// consumer thread can only free more slots, so the true free count is never
/// below it.
pub uninterp spec fn room(p: Producer<u32>) -> nat;

/// The values this consumer has seen ready: those between its own read
/// position and the write position it last loaded. The producer thread can
/// only add more, so the true count is never below it.
pub uninterp spec fn ready(c: Consumer<u32>) -> nat;

/// The ring buffer this producer writes into. Both ends of one buffer share
/// it; it identifies the buffer, not anything stored in it.
pub uninterp spec fn producer_ring(p: Producer<u32>) -> nat;

/// The ring buffer this consumer reads from; see `producer_ring`.
pub uninterp spec fn consumer_ring(c: Consumer<u32>) -> nat;

/// The number of values the producer's ring buffer was made to hold.
pub uninterp spec fn ring_capacity(p: Producer<u32>) -> nat;

/// The values taken from position `from` on agree with what the producer
/// wrote, as far as `written` reaches: a read gives back the write at the
/// same position.
pub open spec fn reads_back(written: Seq<u32>, from: int, taken: Seq<u32>) -> bool {
    forall|i: int| from <= i < taken.len() && i < written.len() ==> #[trigger] taken[i] == written[i]
}

/// Creates a ring buffer of `capacity` values and returns its two ends.
///
/// Trusted: calls `rtrb::RingBuffer::new`, which allocates the slots and
/// starts both positions at zero: nothing written or taken, every slot free
/// as the producer sees it, nothing ready as the consumer sees it. The two
/// ends share the new buffer.
#[verifier::external_body]
fn new_ring_buffer(capacity: usize) -> (ends: (Producer<u32>, Consumer<u32>))
    requires
        capacity <= MAX_CAPACITY_SAMPLES,
    ensures
        producer_ring(ends.0) == consumer_ring(ends.1),
        ring_capacity(ends.0) == capacity,
        written(ends.0) == Seq::<u32>::empty(),
        taken(ends.1) == Seq::<u32>::empty(),
        room(ends.0) == capacity,
        ready(ends.1) == 0,
{
    RingBuffer::<u32>::new(capacity)
}

/// Free slots of the ring buffer as the producer sees them now.
///
/// Trusted: calls `rtrb::Producer::slots`, which loads the consumer's read
/// position, keeps it as the producer's view, and returns the free count from
/// that view. The count can only have grown since the last view and never
/// exceeds the capacity; writing nothing, it leaves `written` as it was.
#[verifier::external_body]
fn producer_slots(producer: &mut Producer<u32>) -> (n: usize)
    ensures
        room(*final(producer)) == n,
        n >= room(*old(producer)),
        n <= ring_capacity(*old(producer)),
        producer_ring(*final(producer)) == producer_ring(*old(producer)),
        ring_capacity(*final(producer)) == ring_capacity(*old(producer)),
        written(*final(producer)) == written(*old(producer)),
{
    producer.slots()
}

/// Writes one value if the ring buffer has room.
///
/// Trusted: calls `rtrb::Producer::push`, which stores the value at the tail
/// and returns `Ok` when a slot is free, and returns the value back in
/// `Err` without storing anything when the buffer is full. When the
/// producer's view already shows a free slot, the write succeeds without
/// reloading the view, which then shows one slot fewer.
#[verifier::external_body]
fn producer_push(producer: &mut Producer<u32>, value: u32) -> (ok: bool)
    ensures
        ok ==> written(*final(producer)) == written(*old(producer)).push(value),
        !ok ==> written(*final(producer)) == written(*old(producer)),
        room(*old(producer)) > 0 ==> ok && room(*final(producer)) == room(*old(producer)) - 1,
        producer_ring(*final(producer)) == producer_ring(*old(producer)),
        ring_capacity(*final(producer)) == ring_capacity(*old(producer)),
{
    producer.push(value).is_ok()
}

/// Values ready for the consumer, as it sees them now.
///
/// Trusted: calls `rtrb::Consumer::slots`, which loads the producer's write
/// position, keeps it as the consumer's view, and returns the ready count
/// from that view. The count can only have grown since the last view;
/// reading it takes nothing.
#[verifier::external_body]
fn consumer_slots(consumer: &mut Consumer<u32>) -> (n: usize)
    ensures
        ready(*final(consumer)) == n,
        n >= ready(*old(consumer)),
        taken(*final(consumer)) == taken(*old(consumer)),
        consumer_ring(*final(consumer)) == consumer_ring(*old(consumer)),
{
    consumer.slots()
}

/// Takes the oldest value if there is one.
///
/// Trusted: calls `rtrb::Consumer::pop`, which removes and returns the value
/// at the head, or returns `Err` and removes nothing when the buffer is empty.
/// When the consumer's view already shows a ready value, the read succeeds
/// without reloading the view, which then shows one value fewer. The buffer
/// is first in, first out: the value taken is the one the producer of the
/// same buffer wrote at the consumer's position. This holds against every
/// state of that producer whose writes reach the position, since writes and
/// reads only ever extend.
#[verifier::external_body]
fn consumer_pop(consumer: &mut Consumer<u32>) -> (value: Option<u32>)
    ensures
        consumer_ring(*final(consumer)) == consumer_ring(*old(consumer)),
        forall|p: Producer<u32>|
            #[trigger] producer_ring(p) == consumer_ring(*old(consumer)) ==> reads_back(
                written(p),
                taken(*old(consumer)).len() as int,
                taken(*final(consumer)),
            ),
        value matches Some(v) ==> taken(*final(consumer)) == taken(*old(consumer)).push(v),
        value is None ==> taken(*final(consumer)) == taken(*old(consumer)),
        ready(*old(consumer)) > 0 ==> value is Some && ready(*final(consumer)) == ready(
            *old(consumer),
        ) - 1,
{
    consumer.pop().ok()
}

/// The ring buffer of a passthrough session: `capacity_frames` frames of
/// `channels` samples, sized by `capacity_samples`; or why it cannot be made.
pub fn open_ring(capacity_frames: usize, channels: usize) -> (r: Result<
    (Producer<u32>, Consumer<u32>),
    PassthroughError,
>)
    ensures
        match capacity_samples_spec(capacity_frames, channels) {
            Ok(n) => r matches Ok(ends) && written(ends.0) == Seq::<u32>::empty() && taken(ends.1)
                == Seq::<u32>::empty() && room(ends.0) == n && ready(ends.1) == 0
                && producer_ring(ends.0) == consumer_ring(ends.1) && ring_capacity(ends.0) == n,
            Err(e) => r matches Err(e2) && e2 == e,
        },
{
    match capacity_samples(capacity_frames, channels) {
        Ok(n) => Ok(new_ring_buffer(n)),
        Err(e) => Err(e),
    }
}

/// The counters after an input callback that stored `stored` of its samples,
/// which held `frames` whole frames of `channels` samples.
pub open spec fn after_input_callback(
    before: AudioMetricsSnapshot,
    stored: int,
    frames: int,
    channels: int,
) -> AudioMetricsSnapshot {
    AudioMetricsSnapshot {
        input_callbacks: wrap_add(before.input_callbacks, 1),
        pushed_frames: wrap_add(before.pushed_frames, (stored / channels) as u64),
        overrun_events: if stored < frames * channels {
            wrap_add(before.overrun_events, 1)
        } else {
            before.overrun_events
        },
        ..before
    }
}

/// What an input callback did, with `k` the number of whole frames it stored:
/// the first `k` frames went into the ring buffer in order, the counters
/// record the callback, the `k` frames and an overrun when a frame was left
/// out. The producer's view of its room dropped by at most the stored
/// samples; a frame was left out only when the view then showed room for
/// less than a frame, and the view before the call showed room for fewer
/// than `k + 1` frames.
pub open spec fn input_outcome(
    samples: Seq<u32>,
    channels: int,
    p0: Producer<u32>,
    p1: Producer<u32>,
    m0: AudioMetricsSnapshot,
    m1: AudioMetricsSnapshot,
    k: int,
) -> bool {
    let frames = samples.len() as int / channels;
    &&& 0 <= k <= frames
    &&& written(p1) == written(p0) + samples.subrange(0, k * channels)
    &&& m1 == after_input_callback(m0, k * channels, frames, channels)
    &&& room(p1) + k * channels >= room(p0)
    &&& k < frames ==> room(p1) < channels
    &&& k < frames ==> room(p0) < k * channels + channels
}

/// Stores the whole frames of `samples` in the ring buffer, in order, for as
/// long as the producer sees room for a whole frame. Counts the callback,
/// the frames stored, and one overrun if a whole frame was left out.
/// Samples after the last whole frame are ignored.
pub fn push_input_samples_typed(
    samples: &[u32],
    channels: usize,
    producer: &mut Producer<u32>,
    counters: &mut AudioCounters,
)
    requires
        channels > 0,
    ensures
        exists|k: int|
            #[trigger] input_outcome(
                samples@,
                channels as int,
                *old(producer),
                *final(producer),
                old(counters)@,
                final(counters)@,
                k,
            ),
        producer_ring(*final(producer)) == producer_ring(*old(producer)),
        ring_capacity(*final(producer)) == ring_capacity(*old(producer)),
{
    let ghost c_start = counters@;
    let ghost p_start = *producer;
    counters.record_input_callback();
    let ghost c0 = counters@;
    let frames = samples.len() / channels;
    proof {
        assert(frames * channels <= samples.len()) by (nonlinear_arith)
            requires
                frames == samples.len() / channels,
                channels > 0,
        ;
    }
    let mut pushed_frames: u64 = 0;
    let mut overrun = false;
    let mut frame: usize = 0;
    while frame < frames
        invariant_except_break
            !overrun,
        invariant
            channels > 0,
            frames == samples@.len() as int / channels as int,
            frames * channels <= samples@.len(),
            samples@.len() <= usize::MAX,
            frame <= frames,
            pushed_frames == frame,
            written(*producer) == written(p_start) + samples@.subrange(0, frame * channels),
            room(*producer) + frame * channels >= room(p_start),
            counters@ == c0,
            producer_ring(*producer) == producer_ring(p_start),
            ring_capacity(*producer) == ring_capacity(p_start),
        ensures
            producer_ring(*producer) == producer_ring(p_start),
            ring_capacity(*producer) == ring_capacity(p_start),
            frame <= frames,
            pushed_frames == frame,
            overrun == (frame < frames),
            written(*producer) == written(p_start) + samples@.subrange(0, frame * channels),
            room(*producer) + frame * channels >= room(p_start),
            overrun ==> room(*producer) < channels,
            overrun ==> room(p_start) < frame * channels + channels,
            counters@ == c0,
        decreases frames - frame,
    {
        proof {
            assert(frame * channels + channels <= samples@.len()) by (nonlinear_arith)
                requires
                    frame < frames,
                    frames * channels <= samples@.len(),
                    channels > 0,
            ;
            assert((frame + 1) * channels == frame * channels + channels) by (nonlinear_arith);
        }
        let seen = producer_slots(producer);
        if seen < channels {
            overrun = true;
            break;
        }
        let base = frame * channels;
        let mut pushed_whole_frame = true;
        let mut j: usize = 0;
        while j < channels
            invariant_except_break
                pushed_whole_frame,
            invariant
                channels > 0,
                base == frame * channels,
                base + channels <= samples@.len(),
                samples@.len() <= usize::MAX,
                j <= channels,
                seen >= channels,
                room(*producer) == seen - j,
                written(*producer) == written(p_start) + samples@.subrange(0, base + j),
                producer_ring(*producer) == producer_ring(p_start),
                ring_capacity(*producer) == ring_capacity(p_start),
            ensures
                producer_ring(*producer) == producer_ring(p_start),
                ring_capacity(*producer) == ring_capacity(p_start),
                pushed_whole_frame,
                j == channels,
                room(*producer) == seen - channels,
                written(*producer) == written(p_start) + samples@.subrange(0, base + channels),
            decreases channels - j,
        {
            if !producer_push(producer, samples[base + j]) {
                pushed_whole_frame = false;
                break;
            }
            proof {
                assert(samples@.subrange(0, base + j + 1) =~= samples@.subrange(0, base + j).push(
                    samples@[base + j],
                ));
            }
            j = j + 1;
        }
        if pushed_whole_frame {
            pushed_frames = pushed_frames + 1;
        } else {
            overrun = true;
            break;
        }
        frame = frame + 1;
    }
    if pushed_frames > 0 {
        counters.record_pushed_frames(pushed_frames);
    }
    if overrun {
        counters.record_overrun_event();
    }
    proof {
        assert((frame * channels) as int / channels as int == frame) by (nonlinear_arith)
            requires
                channels > 0,
        ;
        assert((frame * channels < frames * channels) == (frame < frames)) by (nonlinear_arith)
            requires
                channels > 0,
        ;
        assert(wrap_add(c0.pushed_frames, 0) == c0.pushed_frames);
        assert(input_outcome(
            samples@,
            channels as int,
            p_start,
            *producer,
            c_start,
            counters@,
            frame as int,
        ));
    }
}

/// What one output sample slot received: a value taken from the ring buffer,
/// or nothing (silence).
pub open spec fn slot_value(slot: Option<u32>) -> u32 {
    match slot {
        Some(v) => v,
        None => 0u32,
    }
}

/// The samples played for a sequence of slots; silence is the all-zero pattern.
pub open spec fn played(slots: Seq<Option<u32>>) -> Seq<u32> {
    slots.map_values(|s: Option<u32>| slot_value(s))
}

/// The values taken from the ring buffer for a sequence of slots, in order.
pub open spec fn taken_values(slots: Seq<Option<u32>>) -> Seq<u32>
    decreases slots.len(),
{
    if slots.len() == 0 {
        Seq::empty()
    } else {
        taken_values(slots.drop_last()) + match slots.last() {
            Some(v) => seq![v],
            None => Seq::empty(),
        }
    }
}

/// Number of frames of `channels` slots that were filled entirely from the buffer.
pub open spec fn full_frames(slots: Seq<Option<u32>>, channels: int) -> nat
    decreases slots.len(),
{
    if slots.len() < channels || channels <= 0 {
        0
    } else {
        let f = slots.subrange(slots.len() - channels, slots.len() as int);
        full_frames(slots.subrange(0, slots.len() - channels), channels) + if has_gap(f) {
            0nat
        } else {
            1nat
        }
    }
}

/// Some slot played silence.
pub open spec fn has_gap(slots: Seq<Option<u32>>) -> bool {
    exists|i: int| 0 <= i < slots.len() && (#[trigger] slots[i]) is None
}

/// The counters after an output callback whose whole frames received `slots`.
pub open spec fn after_output_callback(
    before: AudioMetricsSnapshot,
    slots: Seq<Option<u32>>,
    channels: int,
) -> AudioMetricsSnapshot {
    AudioMetricsSnapshot {
        output_callbacks: wrap_add(before.output_callbacks, 1),
        popped_frames: wrap_add(before.popped_frames, full_frames(slots, channels) as u64),
        underrun_events: if has_gap(slots) {
            wrap_add(before.underrun_events, 1)
        } else {
            before.underrun_events
        },
        ..before
    }
}

/// What is left of a reported ready count once its frame has been handled:
/// a frame is popped whole when at least `channels` values were reported,
/// and nothing is popped otherwise.
pub open spec fn leftover(reported: usize, channels: int) -> int {
    if reported >= channels {
        reported - channels
    } else {
        reported as int
    }
}

/// The count reported for frame `f` is at least what the consumer's view held
/// after frame `f - 1`: the producer can only add values.
pub open spec fn counts_follow(reported: Seq<usize>, channels: int, f: int) -> bool {
    reported[f] >= leftover(reported[f - 1], channels)
}

/// What an output callback did over its whole frames, given the ready counts
/// the consumer reported before each frame (`reported`) and what each sample
/// slot received (`slots`):
/// - a frame is popped whole when its reported count covers a frame, and
///   plays silence otherwise; the played and taken values follow `slots`;
/// - the first count is at least what the consumer's view held before the
///   call, and each later one at least what the previous frame left;
/// - so frame `f` is popped whenever the view before the call held
///   `(f + 1) * channels` values;
/// - the view after the call holds what the last frame left;
/// - the counters record the callback, the frames popped whole, and one
///   underrun if anything played silence.
pub open spec fn output_outcome(
    out0: Seq<u32>,
    out1: Seq<u32>,
    channels: int,
    c0: Consumer<u32>,
    c1: Consumer<u32>,
    m0: AudioMetricsSnapshot,
    m1: AudioMetricsSnapshot,
    slots: Seq<Option<u32>>,
    reported: Seq<usize>,
) -> bool {
    let frames = out0.len() as int / channels;
    &&& slots.len() == frames * channels
    &&& reported.len() == frames
    &&& out1 == played(slots) + out0.subrange(slots.len() as int, out0.len() as int)
    &&& taken(c1) == taken(c0) + taken_values(slots)
    &&& m1 == after_output_callback(m0, slots, channels)
    &&& forall|i: int|
        0 <= i < slots.len() ==> ((#[trigger] slots[i]) is Some <==> reported[i / channels]
            >= channels)
    &&& (frames > 0 ==> reported[0] >= ready(c0))
    &&& forall|f: int| 0 < f < frames ==> #[trigger] counts_follow(reported, channels, f)
    &&& forall|f: int| 0 <= f < frames ==> #[trigger] reported[f] + f * channels >= ready(c0)
    &&& ready(c1) == if frames == 0 {
        ready(c0) as int
    } else {
        leftover(reported[frames - 1], channels)
    }
}

proof fn lemma_frame_index(i: int, f: int, c: int)
    requires
        c > 0,
        f * c <= i < f * c + c,
    ensures
        i / c == f,
{
    assert(i / c == f) by (nonlinear_arith)
        requires
            c > 0,
            f * c <= i < f * c + c,
    ;
}

/// Fills the whole frames of `output` from the ring buffer. Before each
/// frame it asks how many values are ready: with at least a frame's worth it
/// pops the frame whole, otherwise the frame plays silence. Samples after the
/// last whole frame are left as they are. Counts the callback, the frames
/// popped whole, and one underrun if anything played silence.
pub fn fill_output_samples_typed(
    output: &mut Vec<u32>,
    channels: usize,
    consumer: &mut Consumer<u32>,
    counters: &mut AudioCounters,
)
    requires
        channels > 0,
    ensures
        exists|slots: Seq<Option<u32>>, reported: Seq<usize>|
            #[trigger] output_outcome(
                old(output)@,
                final(output)@,
                channels as int,
                *old(consumer),
                *final(consumer),
                old(counters)@,
                final(counters)@,
                slots,
                reported,
            ),
        consumer_ring(*final(consumer)) == consumer_ring(*old(consumer)),
        forall|p: Producer<u32>|
            #[trigger] producer_ring(p) == consumer_ring(*old(consumer)) ==> reads_back(
                written(p),
                taken(*old(consumer)).len() as int,
                taken(*final(consumer)),
            ),
{
    let ghost c_start = counters@;
    let ghost k0 = *consumer;
    counters.record_output_callback();
    let ghost start = output@;
    let ghost t0 = taken(*consumer);
    let ghost c0 = counters@;
    let frames = output.len() / channels;
    proof {
        assert(frames * channels <= output@.len()) by (nonlinear_arith)
            requires
                frames == output@.len() as int / channels as int,
                channels > 0,
        ;
    }
    let mut popped_frames: u64 = 0;
    let mut underrun = false;
    let ghost mut slots: Seq<Option<u32>> = Seq::empty();
    let ghost mut reported: Seq<usize> = Seq::empty();
    assert(slots =~= Seq::<Option<u32>>::empty());
    assert(output@ =~= played(slots) + start.subrange(0, start.len() as int));
    let mut frame: usize = 0;
    while frame < frames
        invariant
            channels > 0,
            start.len() <= usize::MAX,
            frames == start.len() as int / channels as int,
            frames * channels <= start.len(),
            frame <= frames,
            output@.len() == start.len(),
            slots.len() == frame * channels,
            reported.len() == frame,
            output@ == played(slots) + start.subrange(slots.len() as int, start.len() as int),
            taken(*consumer) == t0 + taken_values(slots),
            popped_frames == full_frames(slots, channels as int),
            popped_frames <= frame,
            underrun == has_gap(slots),
            counters@ == c0,
            forall|i: int|
                0 <= i < slots.len() ==> ((#[trigger] slots[i]) is Some <==> reported[i
                    / (channels as int)] >= channels),
            consumer_ring(*consumer) == consumer_ring(k0),
            forall|p: Producer<u32>|
                #[trigger] producer_ring(p) == consumer_ring(k0) ==> reads_back(
                    written(p),
                    t0.len() as int,
                    taken(*consumer),
                ),
            frame > 0 ==> reported[0] >= ready(k0),
            forall|f: int| 0 < f < frame ==> #[trigger] counts_follow(reported, channels as int, f),
            forall|f: int| 0 <= f < frame ==> #[trigger] reported[f] + f * channels >= ready(k0),
            ready(*consumer) == if frame == 0 {
                ready(k0) as int
            } else {
                leftover(reported[frame - 1], channels as int)
            },
        decreases frames - frame,
    {
        proof {
            assert((frame + 1) * channels <= frames * channels) by (nonlinear_arith)
                requires
                    frame < frames,
                    channels > 0,
            ;
            assert((frame + 1) * channels == frame * channels + channels) by (nonlinear_arith);
        }
        let base = frame * channels;
        let ghost before = slots;
        let ghost rbefore = reported;
        let ghost ready_before: int = ready(*consumer) as int;
        let seen = consumer_slots(consumer);
        let silent = seen < channels;
        proof {
            reported = rbefore.push(seen);
            if frame > 0 {
                assert(ready_before >= rbefore[frame - 1] - channels);
                assert(rbefore[frame - 1] + (frame - 1) * channels >= ready(k0));
                assert((frame - 1) * channels + channels == frame * channels) by (nonlinear_arith);
            }
            assert(reported[frame as int] + frame * channels >= ready(k0));
            assert forall|i: int| 0 <= i < slots.len() implies ((#[trigger] slots[i]) is Some
                <==> reported[i / (channels as int)] >= channels) by {
                assert(i / (channels as int) < frame) by (nonlinear_arith)
                    requires
                        0 <= i < frame * channels,
                        channels > 0,
                ;
                assert(i / (channels as int) >= 0) by (nonlinear_arith)
                    requires
                        0 <= i,
                        channels > 0,
                ;
                assert(reported[i / (channels as int)] == rbefore[i / (channels as int)]);
            }
            assert forall|f: int| 0 < f < frame + 1 implies #[trigger] counts_follow(
                reported,
                channels as int,
                f,
            ) by {
                if f < frame {
                    assert(counts_follow(rbefore, channels as int, f));
                    assert(reported[f] == rbefore[f] && reported[f - 1] == rbefore[f - 1]);
                }
            }
            assert forall|f: int| 0 <= f < frame + 1 implies #[trigger] reported[f] + f * channels
                >= ready(k0) by {
                if f < frame {
                    assert(reported[f] == rbefore[f]);
                }
            }
        }
        let mut whole = true;
        let mut j: usize = 0;
        while j < channels
            invariant
                channels > 0,
                start.len() <= usize::MAX,
                base == frame * channels,
                base + channels <= start.len(),
                before.len() == base,
                j <= channels,
                slots.len() == base + j,
                slots.subrange(0, base as int) == before,
                reported.len() == frame + 1,
                reported[frame as int] == seen,
                silent == (seen < channels),
                ready(*consumer) == if silent {
                    seen as int
                } else {
                    seen - j
                },
                forall|i: int|
                    0 <= i < slots.len() ==> ((#[trigger] slots[i]) is Some <==> reported[i
                        / (channels as int)] >= channels),
                output@.len() == start.len(),
                output@ == played(slots) + start.subrange(slots.len() as int, start.len() as int),
                taken(*consumer) == t0 + taken_values(slots),
                whole == !has_gap(slots.subrange(base as int, slots.len() as int)),
                underrun == has_gap(before),
                popped_frames == full_frames(before, channels as int),
                popped_frames <= frame,
                counters@ == c0,
                consumer_ring(*consumer) == consumer_ring(k0),
                forall|p: Producer<u32>|
                    #[trigger] producer_ring(p) == consumer_ring(k0) ==> reads_back(
                        written(p),
                        t0.len() as int,
                        taken(*consumer),
                    ),
            decreases channels - j,
        {
            let k = base + j;
            let ghost prev = slots;
            let ghost before_pop = *consumer;
            let slot = if silent {
                None
            } else {
                consumer_pop(consumer)
            };
            match slot {
                Some(v) => {
                    output.set(k, v);
                },
                None => {
                    output.set(k, 0);
                    whole = false;
                },
            }
            proof {
                assert forall|p: Producer<u32>|
                    #[trigger] producer_ring(p) == consumer_ring(k0) implies reads_back(
                    written(p),
                    t0.len() as int,
                    taken(*consumer),
                ) by {
                    assert(reads_back(written(p), t0.len() as int, taken(before_pop)));
                    if !silent {
                        assert(reads_back(
                            written(p),
                            taken(before_pop).len() as int,
                            taken(*consumer),
                        ));
                    }
                    assert forall|i: int|
                        t0.len() <= i < taken(*consumer).len() && i < written(p).len() implies #[trigger] taken(
                        *consumer,
                    )[i] == written(p)[i] by {
                        if i < taken(before_pop).len() {
                            assert(taken(*consumer)[i] == taken(before_pop)[i]);
                        }
                    }
                }
                slots = prev.push(slot);
                lemma_slots_push(prev, slot);
                lemma_frame_index(k as int, frame as int, channels as int);
                assert forall|i: int| 0 <= i < slots.len() implies ((#[trigger] slots[i]) is Some
                    <==> reported[i / (channels as int)] >= channels) by {
                    if i < prev.len() {
                        assert(slots[i] == prev[i]);
                    }
                }
                assert(output@ =~= played(slots) + start.subrange(
                    slots.len() as int,
                    start.len() as int,
                ));
                assert(slots.subrange(0, base as int) =~= before);
                let old_part = prev.subrange(base as int, prev.len() as int);
                assert(slots.subrange(base as int, slots.len() as int) =~= old_part + seq![slot]);
                lemma_has_gap_append(old_part, seq![slot]);
                if slot is None {
                    assert(seq![slot][0] is None);
                } else {
                    assert forall|i: int| 0 <= i < 1 implies !(#[trigger] seq![slot][i] is None) by {
                        assert(seq![slot][i] == slot);
                    }
                }
            }
            j = j + 1;
        }
        proof {
            let part = slots.subrange(base as int, slots.len() as int);
            lemma_full_frames_append(before, part, channels as int);
            assert(before + part =~= slots);
            lemma_has_gap_append(before, part);
        }
        if whole {
            popped_frames = popped_frames + 1;
        } else {
            underrun = true;
        }
        frame = frame + 1;
    }
    if popped_frames > 0 {
        counters.record_popped_frames(popped_frames);
    }
    if underrun {
        counters.record_underrun_event();
    }
    proof {
        assert(wrap_add(c0.popped_frames, 0) == c0.popped_frames);
        assert(output_outcome(
            start,
            output@,
            channels as int,
            k0,
            *consumer,
            c_start,
            counters@,
            slots,
            reported,
        ));
    }
}

proof fn lemma_slots_push(slots: Seq<Option<u32>>, x: Option<u32>)
    ensures
        played(slots.push(x)) == played(slots).push(slot_value(x)),
        taken_values(slots.push(x)) == taken_values(slots) + match x {
            Some(v) => seq![v],
            None => Seq::<u32>::empty(),
        },
{
    assert(played(slots.push(x)) =~= played(slots).push(slot_value(x)));
    assert(slots.push(x).drop_last() =~= slots);
}

proof fn lemma_has_gap_append(a: Seq<Option<u32>>, b: Seq<Option<u32>>)
    ensures
        has_gap(a + b) == (has_gap(a) || has_gap(b)),
{
    if has_gap(a + b) {
        let i = choose|i: int| 0 <= i < (a + b).len() && (#[trigger] (a + b)[i]) is None;
        if i < a.len() {
            assert(a[i] == (a + b)[i]);
        } else {
            assert(b[i - a.len()] == (a + b)[i]);
        }
    }
    if has_gap(a) {
        let i = choose|i: int| 0 <= i < a.len() && (#[trigger] a[i]) is None;
        assert((a + b)[i] == a[i]);
    }
    if has_gap(b) {
        let i = choose|i: int| 0 <= i < b.len() && (#[trigger] b[i]) is None;
        assert((a + b)[i + a.len()] == b[i]);
    }
}

proof fn lemma_full_frames_append(a: Seq<Option<u32>>, f: Seq<Option<u32>>, channels: int)
    requires
        channels > 0,
        f.len() == channels,
    ensures
        full_frames(a + f, channels) == full_frames(a, channels) + if has_gap(f) {
            0nat
        } else {
            1nat
        },
{
    let s = a + f;
    assert(s.subrange(s.len() - channels, s.len() as int) =~= f);
    assert(s.subrange(0, s.len() - channels) =~= a);
}


} // verus!
