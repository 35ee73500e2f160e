# vc_runtime

The core of a local-first realtime voice-conversion runtime, written in Verus.
Every function under `src/` carries a contract that Verus proves, except a
few small trusted wrappers (marked `#[verifier::external_body]`) around
calls into `rtrb` and the standard library's `{:?}` formatting: their
contracts restate what those calls do and are believed, not proved.

- `scheduler` — a discrete-event simulation of realtime chunk scheduling with
  one slow worker, a bounded queue and a policy for missed output slots. The
  executable simulation is proved equal to a mathematical model
  (`scheduler/model.rs`); `scheduler/laws.rs` proves properties of every run
  (one event per slot, counter meanings, bounded queue, conservation of
  chunks, delivered chunks finished in time, bounded jitter).
- `metrics` — wrapping event counters of a passthrough session; no update
  is lost over any sequence of updates.
- `ring` — the audio callbacks' side of the lock-free ring buffer (`rtrb`):
  whole frames move while an end sees room or data for a whole frame, and
  what the output side takes is what the input side wrote, in order.
- `passthrough`, `devices`, `report_text` — the checks and texts of device
  listing and live passthrough.
- `bench` — chunking, deadline counting, checksums and verdicts of the
  offline benchmark.
- `probe` — canonical execution-provider names and probe reports.
- `sim_args` — the simulator's command-line values.

`app/` is the command-line program around the library: audio devices (CPAL),
WAV reading, timing, floating-point statistics, JSON and argument parsing.
