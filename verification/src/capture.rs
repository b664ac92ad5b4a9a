//! The fixed-rate capture gate: frames arrive whenever the OS delivers
//! them, but one is kept only when the schedule tick has been reached,
//! and a source that fell behind catches up in whole steps rather than
//! emitting a burst of stale frames.

use vstd::prelude::*;

use crate::QpcTimestamp;

verus! {

/// The schedule after a frame is kept at `now`: the first tick of the
/// frame's step plus one step, so the next frame is due one step later
/// and missed steps are skipped rather than back-filled.
pub open spec fn spec_next_capture(base: u64, now: u64, step: u64) -> u64 {
    let caught_up = base + ((now - base) / (step as int)) * step;
    if caught_up + step > u64::MAX {
        u64::MAX
    } else {
        (caught_up + step) as u64
    }
}

/// Decide whether a frame arriving at `now` is kept, and advance the
/// schedule. A zero schedule means no frame was kept yet; the first
/// frame is then kept and paces the rest. A frame before its scheduled
/// tick is skipped and the schedule stands.
pub fn capture_gate(now: QpcTimestamp, next_capture: QpcTimestamp, step_ticks: u64) -> (r: (
    bool,
    QpcTimestamp,
))
    requires
        step_ticks >= 1,
    ensures
        ({
            let base = if next_capture == 0 {
                now
            } else {
                next_capture
            };
            &&& r.0 == (now >= base)
            &&& !r.0 ==> r.1 == base
            &&& r.0 ==> r.1 == spec_next_capture(base, now, step_ticks)
            &&& r.0 ==> r.1 > now || r.1 == u64::MAX
        }),
{
    let base: u64 = if next_capture == 0 {
        now
    } else {
        next_capture
    };
    if now < base {
        return (false, base);
    }
    let mut next: u64 = base;
    let ghost mut steps: int = 0;
    while now - next >= step_ticks
        invariant
            step_ticks >= 1,
            base <= next <= now,
            0 <= steps,
            next == base + steps * step_ticks,
        decreases now - next,
    {
        proof {
            assert(base + (steps + 1) * step_ticks == next + step_ticks) by (nonlinear_arith)
                requires
                    next == base + steps * step_ticks,
            ;
            steps = steps + 1;
        }
        next = next + step_ticks;
    }
    proof {
        // The loop stopped at the step that contains `now`.
        assert(now - base == steps * step_ticks + (now - next)) by (nonlinear_arith)
            requires
                next == base + steps * step_ticks,
        ;
        vstd::arithmetic::div_mod::lemma_fundamental_div_mod_converse(
            now - base,
            step_ticks as int,
            steps,
            now - next,
        );
        assert((now - base) / (step_ticks as int) == steps);
        assert(next == base + ((now - base) / (step_ticks as int)) * step_ticks)
            by (nonlinear_arith)
            requires
                next == base + steps * step_ticks,
                (now - base) / (step_ticks as int) == steps,
        ;
    }
    let advanced = match next.checked_add(step_ticks) {
        Some(v) => v,
        None => u64::MAX,
    };
    (true, advanced)
}

} // verus!
