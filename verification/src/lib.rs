//! Verified core of a session recorder that buckets keyboard and mouse
//! input into fixed-duration steps, folds each step into a structured
//! snapshot and a compact compiled-action string, letterboxes captured
//! frames into a fixed record resolution, and stages all per-session
//! sinks in a temporary directory that is renamed only on a fully
//! successful finalize.

use vstd::prelude::*;

pub mod aggregator;
pub mod capture;
pub mod compiler;
pub mod events;
pub mod geometry;
pub mod gui;
pub mod json;
pub mod keys;
pub mod numfmt;
pub mod options;
pub mod pipeline;
pub mod queue;
pub mod snapshot;
pub mod strkit;
pub mod writer;

verus! {

/// Default step duration in milliseconds.
pub const STEP_MS: u64 = 200;

/// Default capture rate in frames per second.
pub const CAPTURE_FPS: u32 = 5;

/// Default record-space width in pixels.
pub const RECORD_WIDTH: u32 = 1280;

/// Default record-space height in pixels.
pub const RECORD_HEIGHT: u32 = 720;

/// Ticks of the platform's high-resolution monotonic counter.
pub type QpcTimestamp = u64;

/// Index of one fixed-duration step; one record in every sink.
pub type StepIndex = u64;

/// Ticks that one step spans: `max(1, frequency * step_ms / 1000)`.
pub fn step_ticks(frequency: u64, step_ms: u64) -> (t: u64)
    ensures
        t == spec_step_ticks(frequency, step_ms),
        t >= 1,
{
    let product = frequency.checked_mul(step_ms);
    let ticks = match product {
        Some(p) => p / 1000,
        None => u64::MAX / 1000,
    };
    if ticks < 1 {
        1
    } else {
        ticks
    }
}

/// The tick count of one step, saturating when the product overflows.
pub open spec fn spec_step_ticks(frequency: u64, step_ms: u64) -> u64 {
    let p: int = if frequency * step_ms > u64::MAX {
        u64::MAX as int
    } else {
        frequency * step_ms
    };
    if p / 1000 < 1 {
        1u64
    } else {
        (p / 1000) as u64
    }
}

} // verus!
