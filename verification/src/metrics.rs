//! Counters that the audio callbacks update and the reporting side reads.
use vstd::prelude::*;

verus! {

/// Event counters of an audio passthrough session.
///
/// Each counter wraps around on overflow, as a 64-bit hardware counter does.
#[derive(Debug)]
pub struct AudioCounters {
    input_callbacks: u64,
    output_callbacks: u64,
    pushed_frames: u64,
    popped_frames: u64,
    underrun_events: u64,
    overrun_events: u64,
    input_stream_error_events: u64,
    output_stream_error_events: u64,
}

/// A copy of every counter, taken at one moment.
#[derive(Clone, Copy, Debug, PartialEq, Eq, Structural)]
pub struct AudioMetricsSnapshot {
    pub input_callbacks: u64,
    pub output_callbacks: u64,
    pub pushed_frames: u64,
    pub popped_frames: u64,
    pub underrun_events: u64,
    pub overrun_events: u64,
    pub input_stream_error_events: u64,
    pub output_stream_error_events: u64,
}

/// The snapshot whose counters are all zero.
pub open spec fn zero_snapshot() -> AudioMetricsSnapshot {
    AudioMetricsSnapshot {
        input_callbacks: 0,
        output_callbacks: 0,
        pushed_frames: 0,
        popped_frames: 0,
        underrun_events: 0,
        overrun_events: 0,
        input_stream_error_events: 0,
        output_stream_error_events: 0,
    }
}

/// `a + b` modulo 2^64.
pub open spec fn wrap_add(a: u64, b: u64) -> u64 {
    ((a as int + b as int) % 0x1_0000_0000_0000_0000) as u64
}

impl Default for AudioMetricsSnapshot {
    fn default() -> (s: Self)
        ensures
            s == zero_snapshot(),
    {
        AudioMetricsSnapshot {
            input_callbacks: 0,
            output_callbacks: 0,
            pushed_frames: 0,
            popped_frames: 0,
            underrun_events: 0,
            overrun_events: 0,
            input_stream_error_events: 0,
            output_stream_error_events: 0,
        }
    }
}

impl View for AudioCounters {
    type V = AudioMetricsSnapshot;

    /// The counters' current values.
    closed spec fn view(&self) -> AudioMetricsSnapshot {
        AudioMetricsSnapshot {
            input_callbacks: self.input_callbacks,
            output_callbacks: self.output_callbacks,
            pushed_frames: self.pushed_frames,
            popped_frames: self.popped_frames,
            underrun_events: self.underrun_events,
            overrun_events: self.overrun_events,
            input_stream_error_events: self.input_stream_error_events,
            output_stream_error_events: self.output_stream_error_events,
        }
    }
}

fn wrapping_add_u64(a: u64, b: u64) -> (r: u64)
    ensures
        r == wrap_add(a, b),
{
    if a <= u64::MAX - b {
        a + b
    } else {
        let r = b - (u64::MAX - a) - 1;
        assert(r == wrap_add(a, b));
        r
    }
}

impl Default for AudioCounters {
    fn default() -> (c: Self)
        ensures
            c@ == zero_snapshot(),
    {
        AudioCounters {
            input_callbacks: 0,
            output_callbacks: 0,
            pushed_frames: 0,
            popped_frames: 0,
            underrun_events: 0,
            overrun_events: 0,
            input_stream_error_events: 0,
            output_stream_error_events: 0,
        }
    }
}

impl AudioCounters {
    /// Returns every counter's current value.
    pub fn snapshot(&self) -> (s: AudioMetricsSnapshot)
        ensures
            s == self@,
    {
        AudioMetricsSnapshot {
            input_callbacks: self.input_callbacks,
            output_callbacks: self.output_callbacks,
            pushed_frames: self.pushed_frames,
            popped_frames: self.popped_frames,
            underrun_events: self.underrun_events,
            overrun_events: self.overrun_events,
            input_stream_error_events: self.input_stream_error_events,
            output_stream_error_events: self.output_stream_error_events,
        }
    }

    /// Counts one input callback.
    pub fn record_input_callback(&mut self)
        ensures
            final(self)@ == (AudioMetricsSnapshot {
                input_callbacks: wrap_add(old(self)@.input_callbacks, 1),
                ..old(self)@
            }),
            final(self)@ == apply_event(old(self)@, CounterEvent::InputCallback),
    {
        self.input_callbacks = wrapping_add_u64(self.input_callbacks, 1);
    }

    /// Counts one output callback.
    pub fn record_output_callback(&mut self)
        ensures
            final(self)@ == (AudioMetricsSnapshot {
                output_callbacks: wrap_add(old(self)@.output_callbacks, 1),
                ..old(self)@
            }),
            final(self)@ == apply_event(old(self)@, CounterEvent::OutputCallback),
    {
        self.output_callbacks = wrapping_add_u64(self.output_callbacks, 1);
    }

    /// Adds `frames` to the frames pushed into the ring buffer.
    pub fn record_pushed_frames(&mut self, frames: u64)
        ensures
            final(self)@ == (AudioMetricsSnapshot {
                pushed_frames: wrap_add(old(self)@.pushed_frames, frames),
                ..old(self)@
            }),
            final(self)@ == apply_event(old(self)@, CounterEvent::PushedFrames(frames)),
    {
        self.pushed_frames = wrapping_add_u64(self.pushed_frames, frames);
    }

    /// Adds `frames` to the frames popped from the ring buffer.
    pub fn record_popped_frames(&mut self, frames: u64)
        ensures
            final(self)@ == (AudioMetricsSnapshot {
                popped_frames: wrap_add(old(self)@.popped_frames, frames),
                ..old(self)@
            }),
            final(self)@ == apply_event(old(self)@, CounterEvent::PoppedFrames(frames)),
    {
        self.popped_frames = wrapping_add_u64(self.popped_frames, frames);
    }

    /// Counts one output callback that could not be filled completely.
    pub fn record_underrun_event(&mut self)
        ensures
            final(self)@ == (AudioMetricsSnapshot {
                underrun_events: wrap_add(old(self)@.underrun_events, 1),
                ..old(self)@
            }),
            final(self)@ == apply_event(old(self)@, CounterEvent::UnderrunEvent),
    {
        self.underrun_events = wrapping_add_u64(self.underrun_events, 1);
    }

    /// Counts one input callback that could not be stored completely.
    pub fn record_overrun_event(&mut self)
        ensures
            final(self)@ == (AudioMetricsSnapshot {
                overrun_events: wrap_add(old(self)@.overrun_events, 1),
                ..old(self)@
            }),
            final(self)@ == apply_event(old(self)@, CounterEvent::OverrunEvent),
    {
        self.overrun_events = wrapping_add_u64(self.overrun_events, 1);
    }

    /// Counts one error reported by the input stream.
    pub fn record_input_stream_error_event(&mut self)
        ensures
            final(self)@ == (AudioMetricsSnapshot {
                input_stream_error_events: wrap_add(old(self)@.input_stream_error_events, 1),
                ..old(self)@
            }),
            final(self)@ == apply_event(old(self)@, CounterEvent::InputStreamErrorEvent),
    {
        self.input_stream_error_events = wrapping_add_u64(self.input_stream_error_events, 1);
    }

    /// Counts one error reported by the output stream.
    pub fn record_output_stream_error_event(&mut self)
        ensures
            final(self)@ == (AudioMetricsSnapshot {
                output_stream_error_events: wrap_add(old(self)@.output_stream_error_events, 1),
                ..old(self)@
            }),
            final(self)@ == apply_event(old(self)@, CounterEvent::OutputStreamErrorEvent),
    {
        self.output_stream_error_events = wrapping_add_u64(self.output_stream_error_events, 1);
    }
}


/// One update that an audio callback makes to the counters.
#[derive(Clone, Copy, Debug, PartialEq, Eq, Structural)]
pub enum CounterEvent {
    InputCallback,
    OutputCallback,
    PushedFrames(u64),
    PoppedFrames(u64),
    UnderrunEvent,
    OverrunEvent,
    InputStreamErrorEvent,
    OutputStreamErrorEvent,
}

/// The counters after one update: the `record_*` method of the event adds
/// to its counter, wrapping, and leaves the others unchanged.
pub open spec fn apply_event(s: AudioMetricsSnapshot, e: CounterEvent) -> AudioMetricsSnapshot {
    match e {
        CounterEvent::InputCallback => AudioMetricsSnapshot {
            input_callbacks: wrap_add(s.input_callbacks, 1),
            ..s
        },
        CounterEvent::OutputCallback => AudioMetricsSnapshot {
            output_callbacks: wrap_add(s.output_callbacks, 1),
            ..s
        },
        CounterEvent::PushedFrames(n) => AudioMetricsSnapshot {
            pushed_frames: wrap_add(s.pushed_frames, n),
            ..s
        },
        CounterEvent::PoppedFrames(n) => AudioMetricsSnapshot {
            popped_frames: wrap_add(s.popped_frames, n),
            ..s
        },
        CounterEvent::UnderrunEvent => AudioMetricsSnapshot {
            underrun_events: wrap_add(s.underrun_events, 1),
            ..s
        },
        CounterEvent::OverrunEvent => AudioMetricsSnapshot {
            overrun_events: wrap_add(s.overrun_events, 1),
            ..s
        },
        CounterEvent::InputStreamErrorEvent => AudioMetricsSnapshot {
            input_stream_error_events: wrap_add(s.input_stream_error_events, 1),
            ..s
        },
        CounterEvent::OutputStreamErrorEvent => AudioMetricsSnapshot {
            output_stream_error_events: wrap_add(s.output_stream_error_events, 1),
            ..s
        },
    }
}

/// The counters after a sequence of updates, in order.
pub open spec fn apply_events(s: AudioMetricsSnapshot, es: Seq<CounterEvent>) -> AudioMetricsSnapshot
    decreases es.len(),
{
    if es.len() == 0 {
        s
    } else {
        apply_event(apply_events(s, es.drop_last()), es.last())
    }
}

/// Counter `i` of a snapshot, in the order of its fields.
pub open spec fn counter(s: AudioMetricsSnapshot, i: int) -> u64 {
    if i == 0 {
        s.input_callbacks
    } else if i == 1 {
        s.output_callbacks
    } else if i == 2 {
        s.pushed_frames
    } else if i == 3 {
        s.popped_frames
    } else if i == 4 {
        s.underrun_events
    } else if i == 5 {
        s.overrun_events
    } else if i == 6 {
        s.input_stream_error_events
    } else {
        s.output_stream_error_events
    }
}

/// How much one update adds to counter `i`.
pub open spec fn increment(e: CounterEvent, i: int) -> nat {
    match e {
        CounterEvent::InputCallback => if i == 0 { 1 } else { 0 },
        CounterEvent::OutputCallback => if i == 1 { 1 } else { 0 },
        CounterEvent::PushedFrames(n) => if i == 2 { n as nat } else { 0 },
        CounterEvent::PoppedFrames(n) => if i == 3 { n as nat } else { 0 },
        CounterEvent::UnderrunEvent => if i == 4 { 1 } else { 0 },
        CounterEvent::OverrunEvent => if i == 5 { 1 } else { 0 },
        CounterEvent::InputStreamErrorEvent => if i == 6 { 1 } else { 0 },
        CounterEvent::OutputStreamErrorEvent => if i == 7 { 1 } else { 0 },
    }
}

/// The total that a sequence of updates adds to counter `i`.
pub open spec fn total(es: Seq<CounterEvent>, i: int) -> nat
    decreases es.len(),
{
    if es.len() == 0 {
        0
    } else {
        total(es.drop_last(), i) + increment(es.last(), i)
    }
}

proof fn lemma_apply_event_counter(s: AudioMetricsSnapshot, e: CounterEvent, i: int)
    requires
        0 <= i < 8,
    ensures
        counter(apply_event(s, e), i) == (counter(s, i) + increment(e, i)) % 0x1_0000_0000_0000_0000,
{
    let c = counter(s, i) as nat;
    vstd::arithmetic::div_mod::lemma_small_mod(c, 0x1_0000_0000_0000_0000);
}

/// No update is lost: after any sequence of `record_*` calls, each counter
/// has grown by exactly the total those calls added to it, modulo 2^64, and
/// by nothing else. In particular `k` calls of `record_input_callback` add
/// `k` to the input-callback count and leave the other counters unchanged,
/// and while no counter passes `u64::MAX` no counter ever decreases.
pub proof fn law_counters_accumulate(s: AudioMetricsSnapshot, es: Seq<CounterEvent>, i: int)
    requires
        0 <= i < 8,
    ensures
        counter(apply_events(s, es), i) == (counter(s, i) + total(es, i)) % 0x1_0000_0000_0000_0000,
    decreases es.len(),
{
    let m: int = 0x1_0000_0000_0000_0000;
    if es.len() == 0 {
        vstd::arithmetic::div_mod::lemma_small_mod(counter(s, i) as nat, m as nat);
    } else {
        let rest = es.drop_last();
        law_counters_accumulate(s, rest, i);
        let t = apply_events(s, rest);
        lemma_apply_event_counter(t, es.last(), i);
        let a = counter(s, i) + total(rest, i);
        let d = increment(es.last(), i) as int;
        vstd::arithmetic::div_mod::lemma_add_mod_noop(a, d, m);
        assert(d < m);
        vstd::arithmetic::div_mod::lemma_small_mod(d as nat, m as nat);
    }
}

} // verus!
