//! Verified core of a realtime voice-conversion runtime: chunk scheduling,
//! audio counters, stream-shape checks, report formatting and provider probing.
use vstd::prelude::*;

pub mod text;
pub mod metrics;
pub mod scheduler;
pub mod passthrough;
pub mod ring;
pub mod devices;
pub mod report_text;
pub mod bench;
pub mod probe;
pub mod sim_args;

verus! {

} // verus!
