//! The compiled-action string: each window is split into six equal
//! sub-bins (the last absorbs the remainder), each bin reports the
//! inputs held down in it — at most four, in canonical rank-then-lex
//! order — and the window's clamped motion sums precede the bins:
//! `<|action_start|>DX DY WHEEL ; B0 ; B1 ; B2 ; B3 ; B4 ; B5<|action_end|>`.

use vstd::prelude::*;

use crate::events::{down_step, InputEvent, InputEventKind};
use crate::keys::{key_views, KeySet};
use crate::numfmt::dec_int;
use crate::strkit::{key_lt, lemma_key_lt_connected, lemma_key_lt_irreflexive,
    lemma_key_lt_transitive, str_lt};
use crate::QpcTimestamp;

verus! {

/// Sub-bins per window.
pub const BIN_COUNT: usize = 6;

/// Clamp bound of the summed mouse deltas.
pub const DX_CLAMP: i32 = 1000;

/// Clamp bound of the summed wheel motion.
pub const WHEEL_CLAMP: i32 = 5;

/// Most keys a bin reports.
pub const MAX_BIN_KEYS: usize = 4;

/// Whether events are in non-decreasing tick order.
pub open spec fn ts_sorted(events: Seq<InputEvent>) -> bool {
    forall|i: int, j: int|
        0 <= i < j < events.len() ==> events[i].qpc_ts <= events[j].qpc_ts
}

/// `v` forced into `[-limit, limit]`.
pub open spec fn spec_clamp(v: int, limit: int) -> int {
    if v > limit {
        limit
    } else if v < -limit {
        -limit
    } else {
        v
    }
}

/// `value` forced into `[-limit, limit]`.
pub fn clamp(value: i32, limit: i32) -> (r: i32)
    requires
        limit >= 0,
    ensures
        r as int == spec_clamp(value as int, limit as int),
{
    if value > limit {
        limit
    } else if value < 0 - limit {
        0 - limit
    } else {
        value
    }
}

/// Unsigned 64-bit addition clamped at the type's bound.
pub open spec fn sat_add64(a: u64, b: u64) -> u64 {
    if a + b > u64::MAX {
        u64::MAX
    } else {
        (a + b) as u64
    }
}

/// The length of the first five sub-bins.
pub open spec fn bin_base(start: u64, end: u64) -> u64 {
    (if end >= start {
        (end - start) / 6
    } else {
        0int
    }) as u64
}

/// What the last sub-bin absorbs beyond the base length.
pub open spec fn bin_rem(start: u64, end: u64) -> u64 {
    (if end >= start {
        (end - start) % 6
    } else {
        0int
    }) as u64
}

/// The tick at which sub-bin `j` begins; `j == 6` is the window's end.
pub open spec fn bin_boundary(start: u64, end: u64, j: int) -> u64
    decreases j,
{
    if j <= 0 {
        start
    } else if j == 6 {
        sat_add64(
            bin_boundary(start, end, 5),
            (bin_base(start, end) + bin_rem(start, end)) as u64,
        )
    } else {
        sat_add64(bin_boundary(start, end, j - 1), bin_base(start, end))
    }
}

/// Where the last sub-bin ends: the end of the compiled window.
pub open spec fn win_end(start: u64, end: u64) -> u64 {
    bin_boundary(start, end, 6)
}

/// The set of inputs held down after the events of `[a, b)`, folded over
/// `s`; keyboard keys and mouse buttons both count.
pub open spec fn held_after(
    s: Set<Seq<char>>,
    events: Seq<InputEvent>,
    a: QpcTimestamp,
    b: QpcTimestamp,
) -> Set<Seq<char>>
    decreases events.len(),
{
    if events.len() == 0 {
        s
    } else {
        let prev = held_after(s, events.drop_last(), a, b);
        if a <= events.last().qpc_ts < b {
            down_step(prev, events.last().kind)
        } else {
            prev
        }
    }
}

/// The bin's key set: what was held at its start plus every input that
/// went down inside `[a, b)`; releases do not remove a key from the bin.
pub open spec fn bin_added(
    s: Set<Seq<char>>,
    events: Seq<InputEvent>,
    a: QpcTimestamp,
    b: QpcTimestamp,
) -> Set<Seq<char>>
    decreases events.len(),
{
    if events.len() == 0 {
        s
    } else {
        let prev = bin_added(s, events.drop_last(), a, b);
        if a <= events.last().qpc_ts < b {
            match crate::events::tracked_key(events.last().kind) {
                Some(p) => if p.1 {
                    prev.insert(p.0)
                } else {
                    prev
                },
                None => prev,
            }
        } else {
            prev
        }
    }
}

/// The canonical rank of a key name: its group, and its index within the
/// group. Mouse buttons come first, then modifiers, movement keys,
/// navigation keys, the digit words followed by the function-key words,
/// and all other keys last.
pub open spec fn spec_key_rank(k: Seq<char>) -> (u8, u8) {
    if k == "MouseLeft"@ {
        (0u8, 0u8)
    } else if k == "MouseRight"@ {
        (0u8, 1u8)
    } else if k == "MouseMiddle"@ {
        (0u8, 2u8)
    } else if k == "Shift"@ {
        (1u8, 0u8)
    } else if k == "Ctrl"@ {
        (1u8, 1u8)
    } else if k == "Alt"@ {
        (1u8, 2u8)
    } else if k == "W"@ {
        (2u8, 0u8)
    } else if k == "A"@ {
        (2u8, 1u8)
    } else if k == "S"@ {
        (2u8, 2u8)
    } else if k == "D"@ {
        (2u8, 3u8)
    } else if k == "Space"@ {
        (3u8, 0u8)
    } else if k == "Esc"@ {
        (3u8, 1u8)
    } else if k == "Tab"@ {
        (3u8, 2u8)
    } else if k == "Enter"@ {
        (3u8, 3u8)
    } else if k == "zero"@ {
        (4u8, 0u8)
    } else if k == "one"@ {
        (4u8, 1u8)
    } else if k == "two"@ {
        (4u8, 2u8)
    } else if k == "three"@ {
        (4u8, 3u8)
    } else if k == "four"@ {
        (4u8, 4u8)
    } else if k == "five"@ {
        (4u8, 5u8)
    } else if k == "six"@ {
        (4u8, 6u8)
    } else if k == "seven"@ {
        (4u8, 7u8)
    } else if k == "eight"@ {
        (4u8, 8u8)
    } else if k == "nine"@ {
        (4u8, 9u8)
    } else if k == "One"@ {
        (4u8, 10u8)
    } else if k == "Two"@ {
        (4u8, 11u8)
    } else if k == "Three"@ {
        (4u8, 12u8)
    } else if k == "Four"@ {
        (4u8, 13u8)
    } else if k == "Five"@ {
        (4u8, 14u8)
    } else if k == "Six"@ {
        (4u8, 15u8)
    } else if k == "Seven"@ {
        (4u8, 16u8)
    } else if k == "Eight"@ {
        (4u8, 17u8)
    } else if k == "Nine"@ {
        (4u8, 18u8)
    } else if k == "Ten"@ {
        (4u8, 19u8)
    } else if k == "Eleven"@ {
        (4u8, 20u8)
    } else if k == "Twelve"@ {
        (4u8, 21u8)
    } else {
        (5u8, 0u8)
    }
}

/// The canonical rank of a key name.
pub fn key_rank(key: &str) -> (r: (u8, u8))
    ensures
        r == spec_key_rank(key@),
{
    if crate::strkit::str_eq(key, "MouseLeft") {
        (0, 0)
    } else if crate::strkit::str_eq(key, "MouseRight") {
        (0, 1)
    } else if crate::strkit::str_eq(key, "MouseMiddle") {
        (0, 2)
    } else if crate::strkit::str_eq(key, "Shift") {
        (1, 0)
    } else if crate::strkit::str_eq(key, "Ctrl") {
        (1, 1)
    } else if crate::strkit::str_eq(key, "Alt") {
        (1, 2)
    } else if crate::strkit::str_eq(key, "W") {
        (2, 0)
    } else if crate::strkit::str_eq(key, "A") {
        (2, 1)
    } else if crate::strkit::str_eq(key, "S") {
        (2, 2)
    } else if crate::strkit::str_eq(key, "D") {
        (2, 3)
    } else if crate::strkit::str_eq(key, "Space") {
        (3, 0)
    } else if crate::strkit::str_eq(key, "Esc") {
        (3, 1)
    } else if crate::strkit::str_eq(key, "Tab") {
        (3, 2)
    } else if crate::strkit::str_eq(key, "Enter") {
        (3, 3)
    } else if crate::strkit::str_eq(key, "zero") {
        (4, 0)
    } else if crate::strkit::str_eq(key, "one") {
        (4, 1)
    } else if crate::strkit::str_eq(key, "two") {
        (4, 2)
    } else if crate::strkit::str_eq(key, "three") {
        (4, 3)
    } else if crate::strkit::str_eq(key, "four") {
        (4, 4)
    } else if crate::strkit::str_eq(key, "five") {
        (4, 5)
    } else if crate::strkit::str_eq(key, "six") {
        (4, 6)
    } else if crate::strkit::str_eq(key, "seven") {
        (4, 7)
    } else if crate::strkit::str_eq(key, "eight") {
        (4, 8)
    } else if crate::strkit::str_eq(key, "nine") {
        (4, 9)
    } else if crate::strkit::str_eq(key, "One") {
        (4, 10)
    } else if crate::strkit::str_eq(key, "Two") {
        (4, 11)
    } else if crate::strkit::str_eq(key, "Three") {
        (4, 12)
    } else if crate::strkit::str_eq(key, "Four") {
        (4, 13)
    } else if crate::strkit::str_eq(key, "Five") {
        (4, 14)
    } else if crate::strkit::str_eq(key, "Six") {
        (4, 15)
    } else if crate::strkit::str_eq(key, "Seven") {
        (4, 16)
    } else if crate::strkit::str_eq(key, "Eight") {
        (4, 17)
    } else if crate::strkit::str_eq(key, "Nine") {
        (4, 18)
    } else if crate::strkit::str_eq(key, "Ten") {
        (4, 19)
    } else if crate::strkit::str_eq(key, "Eleven") {
        (4, 20)
    } else if crate::strkit::str_eq(key, "Twelve") {
        (4, 21)
    } else {
        (5, 0)
    }
}

/// The compiled bins' strict order: by group rank, then by index within
/// the group, with remaining ties broken by byte order.
pub open spec fn compiled_lt(a: Seq<char>, b: Seq<char>) -> bool {
    let ra = spec_key_rank(a);
    let rb = spec_key_rank(b);
    if ra.0 != rb.0 {
        ra.0 < rb.0
    } else if ra.1 != rb.1 {
        ra.1 < rb.1
    } else {
        key_lt(a, b)
    }
}

/// Strictly ascending in compiled order: sorted with no duplicates.
pub open spec fn compiled_sorted(keys: Seq<Seq<char>>) -> bool {
    forall|i: int, j: int| 0 <= i < j < keys.len() ==> compiled_lt(keys[i], keys[j])
}

pub proof fn lemma_compiled_lt_irreflexive(a: Seq<char>)
    ensures
        !compiled_lt(a, a),
{
    lemma_key_lt_irreflexive(a);
}

pub proof fn lemma_compiled_lt_transitive(a: Seq<char>, b: Seq<char>, c: Seq<char>)
    requires
        compiled_lt(a, b),
        compiled_lt(b, c),
    ensures
        compiled_lt(a, c),
{
    if spec_key_rank(a) == spec_key_rank(b) && spec_key_rank(b) == spec_key_rank(c) {
        lemma_key_lt_transitive(a, b, c);
    }
}

/// Distinct keys are strictly ordered one way or the other.
pub proof fn lemma_compiled_lt_connected(a: Seq<char>, b: Seq<char>)
    requires
        !compiled_lt(a, b),
        !compiled_lt(b, a),
    ensures
        a == b,
{
    lemma_key_lt_connected(a, b);
}

/// Whether `a` comes strictly before `b` in compiled order.
pub fn compiled_key_lt(a: &str, b: &str) -> (r: bool)
    ensures
        r == compiled_lt(a@, b@),
{
    let ra = key_rank(a);
    let rb = key_rank(b);
    if ra.0 != rb.0 {
        ra.0 < rb.0
    } else if ra.1 != rb.1 {
        ra.1 < rb.1
    } else {
        str_lt(a, b)
    }
}

/// The set of inputs the compiled bins consider held, carried across
/// windows for the session's lifetime.
#[derive(Debug)]
pub struct KeyState {
    pub down: KeySet,
}

impl KeyState {
    /// No input held at session start.
    pub fn new() -> (s: KeyState)
        ensures
            s.down.well_formed(),
            s.down.key_set() =~= Set::<Seq<char>>::empty(),
    {
        KeyState { down: KeySet::new() }
    }
}


/// Events at or past `idx` all lie at or past the window's end, so the
/// fold over the prefix equals the fold over the whole sequence.
pub proof fn lemma_held_take(
    init: Set<Seq<char>>,
    events: Seq<InputEvent>,
    a: QpcTimestamp,
    b: QpcTimestamp,
    idx: int,
)
    requires
        0 <= idx <= events.len(),
        forall|i: int| idx <= i < events.len() ==> events[i].qpc_ts >= b,
    ensures
        crate::compiler::held_after(init, events, a, b) == crate::compiler::held_after(init, events.take(idx), a, b),
    decreases events.len(),
{
    if events.len() == idx {
        assert(events.take(idx) =~= events);
    } else {
        assert(events.last().qpc_ts >= b);
        assert(forall|i: int|
            idx <= i < events.drop_last().len() ==> events.drop_last()[i].qpc_ts >= b);
        lemma_held_take(init, events.drop_last(), a, b, idx);
        assert(events.drop_last().take(idx) =~= events.take(idx));
    }
}

/// Raising the window's end past every event's tick changes nothing.
pub proof fn lemma_held_raise(
    init: Set<Seq<char>>,
    events: Seq<InputEvent>,
    a: QpcTimestamp,
    b1: QpcTimestamp,
    b2: QpcTimestamp,
)
    requires
        b1 <= b2,
        forall|i: int| 0 <= i < events.len() ==> events[i].qpc_ts < b1,
    ensures
        crate::compiler::held_after(init, events, a, b1) == crate::compiler::held_after(init, events, a, b2),
    decreases events.len(),
{
    if events.len() > 0 {
        assert(forall|i: int|
            0 <= i < events.drop_last().len() ==> events.drop_last()[i].qpc_ts < b1);
        lemma_held_raise(init, events.drop_last(), a, b1, b2);
    }
}

/// Events that all lie before the window's start leave the fold alone.
pub proof fn lemma_held_skip(
    init: Set<Seq<char>>,
    events: Seq<InputEvent>,
    a: QpcTimestamp,
    b: QpcTimestamp,
)
    requires
        forall|i: int| 0 <= i < events.len() ==> events[i].qpc_ts < a,
    ensures
        crate::compiler::held_after(init, events, a, b) == init,
    decreases events.len(),
{
    if events.len() > 0 {
        assert(forall|i: int|
            0 <= i < events.drop_last().len() ==> events.drop_last()[i].qpc_ts < a);
        lemma_held_skip(init, events.drop_last(), a, b);
    }
}


/// Events at or past `idx` all lie at or past the window's end, so the
/// fold over the prefix equals the fold over the whole sequence.
pub proof fn lemma_binadd_take(
    init: Set<Seq<char>>,
    events: Seq<InputEvent>,
    a: QpcTimestamp,
    b: QpcTimestamp,
    idx: int,
)
    requires
        0 <= idx <= events.len(),
        forall|i: int| idx <= i < events.len() ==> events[i].qpc_ts >= b,
    ensures
        crate::compiler::bin_added(init, events, a, b) == crate::compiler::bin_added(init, events.take(idx), a, b),
    decreases events.len(),
{
    if events.len() == idx {
        assert(events.take(idx) =~= events);
    } else {
        assert(events.last().qpc_ts >= b);
        assert(forall|i: int|
            idx <= i < events.drop_last().len() ==> events.drop_last()[i].qpc_ts >= b);
        lemma_binadd_take(init, events.drop_last(), a, b, idx);
        assert(events.drop_last().take(idx) =~= events.take(idx));
    }
}

/// Raising the window's end past every event's tick changes nothing.
pub proof fn lemma_binadd_raise(
    init: Set<Seq<char>>,
    events: Seq<InputEvent>,
    a: QpcTimestamp,
    b1: QpcTimestamp,
    b2: QpcTimestamp,
)
    requires
        b1 <= b2,
        forall|i: int| 0 <= i < events.len() ==> events[i].qpc_ts < b1,
    ensures
        crate::compiler::bin_added(init, events, a, b1) == crate::compiler::bin_added(init, events, a, b2),
    decreases events.len(),
{
    if events.len() > 0 {
        assert(forall|i: int|
            0 <= i < events.drop_last().len() ==> events.drop_last()[i].qpc_ts < b1);
        lemma_binadd_raise(init, events.drop_last(), a, b1, b2);
    }
}

/// Events that all lie before the window's start leave the fold alone.
pub proof fn lemma_binadd_skip(
    init: Set<Seq<char>>,
    events: Seq<InputEvent>,
    a: QpcTimestamp,
    b: QpcTimestamp,
)
    requires
        forall|i: int| 0 <= i < events.len() ==> events[i].qpc_ts < a,
    ensures
        crate::compiler::bin_added(init, events, a, b) == init,
    decreases events.len(),
{
    if events.len() > 0 {
        assert(forall|i: int|
            0 <= i < events.drop_last().len() ==> events.drop_last()[i].qpc_ts < a);
        lemma_binadd_skip(init, events.drop_last(), a, b);
    }
}


/// Events at or past `idx` all lie at or past the window's end, so the
/// fold over the prefix equals the fold over the whole sequence.
pub proof fn lemma_dx_take(
    init: int,
    events: Seq<InputEvent>,
    a: QpcTimestamp,
    b: QpcTimestamp,
    idx: int,
)
    requires
        0 <= idx <= events.len(),
        forall|i: int| idx <= i < events.len() ==> events[i].qpc_ts >= b,
    ensures
        crate::aggregator::dx_after(init, events, a, b) == crate::aggregator::dx_after(init, events.take(idx), a, b),
    decreases events.len(),
{
    if events.len() == idx {
        assert(events.take(idx) =~= events);
    } else {
        assert(events.last().qpc_ts >= b);
        assert(forall|i: int|
            idx <= i < events.drop_last().len() ==> events.drop_last()[i].qpc_ts >= b);
        lemma_dx_take(init, events.drop_last(), a, b, idx);
        assert(events.drop_last().take(idx) =~= events.take(idx));
    }
}

/// Raising the window's end past every event's tick changes nothing.
pub proof fn lemma_dx_raise(
    init: int,
    events: Seq<InputEvent>,
    a: QpcTimestamp,
    b1: QpcTimestamp,
    b2: QpcTimestamp,
)
    requires
        b1 <= b2,
        forall|i: int| 0 <= i < events.len() ==> events[i].qpc_ts < b1,
    ensures
        crate::aggregator::dx_after(init, events, a, b1) == crate::aggregator::dx_after(init, events, a, b2),
    decreases events.len(),
{
    if events.len() > 0 {
        assert(forall|i: int|
            0 <= i < events.drop_last().len() ==> events.drop_last()[i].qpc_ts < b1);
        lemma_dx_raise(init, events.drop_last(), a, b1, b2);
    }
}

/// Events that all lie before the window's start leave the fold alone.
pub proof fn lemma_dx_skip(
    init: int,
    events: Seq<InputEvent>,
    a: QpcTimestamp,
    b: QpcTimestamp,
)
    requires
        forall|i: int| 0 <= i < events.len() ==> events[i].qpc_ts < a,
    ensures
        crate::aggregator::dx_after(init, events, a, b) == init,
    decreases events.len(),
{
    if events.len() > 0 {
        assert(forall|i: int|
            0 <= i < events.drop_last().len() ==> events.drop_last()[i].qpc_ts < a);
        lemma_dx_skip(init, events.drop_last(), a, b);
    }
}


/// Events at or past `idx` all lie at or past the window's end, so the
/// fold over the prefix equals the fold over the whole sequence.
pub proof fn lemma_dy_take(
    init: int,
    events: Seq<InputEvent>,
    a: QpcTimestamp,
    b: QpcTimestamp,
    idx: int,
)
    requires
        0 <= idx <= events.len(),
        forall|i: int| idx <= i < events.len() ==> events[i].qpc_ts >= b,
    ensures
        crate::aggregator::dy_after(init, events, a, b) == crate::aggregator::dy_after(init, events.take(idx), a, b),
    decreases events.len(),
{
    if events.len() == idx {
        assert(events.take(idx) =~= events);
    } else {
        assert(events.last().qpc_ts >= b);
        assert(forall|i: int|
            idx <= i < events.drop_last().len() ==> events.drop_last()[i].qpc_ts >= b);
        lemma_dy_take(init, events.drop_last(), a, b, idx);
        assert(events.drop_last().take(idx) =~= events.take(idx));
    }
}

/// Raising the window's end past every event's tick changes nothing.
pub proof fn lemma_dy_raise(
    init: int,
    events: Seq<InputEvent>,
    a: QpcTimestamp,
    b1: QpcTimestamp,
    b2: QpcTimestamp,
)
    requires
        b1 <= b2,
        forall|i: int| 0 <= i < events.len() ==> events[i].qpc_ts < b1,
    ensures
        crate::aggregator::dy_after(init, events, a, b1) == crate::aggregator::dy_after(init, events, a, b2),
    decreases events.len(),
{
    if events.len() > 0 {
        assert(forall|i: int|
            0 <= i < events.drop_last().len() ==> events.drop_last()[i].qpc_ts < b1);
        lemma_dy_raise(init, events.drop_last(), a, b1, b2);
    }
}

/// Events that all lie before the window's start leave the fold alone.
pub proof fn lemma_dy_skip(
    init: int,
    events: Seq<InputEvent>,
    a: QpcTimestamp,
    b: QpcTimestamp,
)
    requires
        forall|i: int| 0 <= i < events.len() ==> events[i].qpc_ts < a,
    ensures
        crate::aggregator::dy_after(init, events, a, b) == init,
    decreases events.len(),
{
    if events.len() > 0 {
        assert(forall|i: int|
            0 <= i < events.drop_last().len() ==> events.drop_last()[i].qpc_ts < a);
        lemma_dy_skip(init, events.drop_last(), a, b);
    }
}


/// Events at or past `idx` all lie at or past the window's end, so the
/// fold over the prefix equals the fold over the whole sequence.
pub proof fn lemma_wheel_take(
    init: int,
    events: Seq<InputEvent>,
    a: QpcTimestamp,
    b: QpcTimestamp,
    idx: int,
)
    requires
        0 <= idx <= events.len(),
        forall|i: int| idx <= i < events.len() ==> events[i].qpc_ts >= b,
    ensures
        crate::aggregator::wheel_after(init, events, a, b) == crate::aggregator::wheel_after(init, events.take(idx), a, b),
    decreases events.len(),
{
    if events.len() == idx {
        assert(events.take(idx) =~= events);
    } else {
        assert(events.last().qpc_ts >= b);
        assert(forall|i: int|
            idx <= i < events.drop_last().len() ==> events.drop_last()[i].qpc_ts >= b);
        lemma_wheel_take(init, events.drop_last(), a, b, idx);
        assert(events.drop_last().take(idx) =~= events.take(idx));
    }
}

/// Raising the window's end past every event's tick changes nothing.
pub proof fn lemma_wheel_raise(
    init: int,
    events: Seq<InputEvent>,
    a: QpcTimestamp,
    b1: QpcTimestamp,
    b2: QpcTimestamp,
)
    requires
        b1 <= b2,
        forall|i: int| 0 <= i < events.len() ==> events[i].qpc_ts < b1,
    ensures
        crate::aggregator::wheel_after(init, events, a, b1) == crate::aggregator::wheel_after(init, events, a, b2),
    decreases events.len(),
{
    if events.len() > 0 {
        assert(forall|i: int|
            0 <= i < events.drop_last().len() ==> events.drop_last()[i].qpc_ts < b1);
        lemma_wheel_raise(init, events.drop_last(), a, b1, b2);
    }
}

/// Events that all lie before the window's start leave the fold alone.
pub proof fn lemma_wheel_skip(
    init: int,
    events: Seq<InputEvent>,
    a: QpcTimestamp,
    b: QpcTimestamp,
)
    requires
        forall|i: int| 0 <= i < events.len() ==> events[i].qpc_ts < a,
    ensures
        crate::aggregator::wheel_after(init, events, a, b) == init,
    decreases events.len(),
{
    if events.len() > 0 {
        assert(forall|i: int|
            0 <= i < events.drop_last().len() ==> events.drop_last()[i].qpc_ts < a);
        lemma_wheel_skip(init, events.drop_last(), a, b);
    }
}


/// A bin's reported key list against the bin's key set: sorted in
/// compiled order, at most four keys, all from the set, nothing cut
/// unless four were kept, and everything cut ranks after everything kept.
pub open spec fn bin_list_ok(lst: Seq<Seq<char>>, s: Set<Seq<char>>) -> bool {
    &&& compiled_sorted(lst)
    &&& lst.len() <= 4
    &&& (forall|k: Seq<char>| lst.contains(k) ==> s.contains(k))
    &&& (lst.len() == 4 || (forall|k: Seq<char>| s.contains(k) ==> lst.contains(k)))
    &&& (forall|x: Seq<char>, y: Seq<char>|
        lst.contains(x) && s.contains(y) && !lst.contains(y) ==> compiled_lt(x, y))
}

/// The keys of the set, sorted in compiled order.
pub fn sort_keys(keys: &KeySet) -> (out: Vec<String>)
    requires
        keys.well_formed(),
    ensures
        compiled_sorted(key_views(out@)),
        forall|k: Seq<char>| #[trigger] key_views(out@).contains(k) <==> keys.has(k),
        out@.len() == keys.keys().len(),
{
    let n = keys.items.len();
    let mut out: Vec<String> = Vec::new();
    let mut i: usize = 0;
    while i < n
        invariant
            i <= n,
            n == keys.items@.len(),
            keys.well_formed(),
            compiled_sorted(key_views(out@)),
            out@.len() == i,
            forall|k: Seq<char>| #[trigger] key_views(out@).contains(k)
                <==> keys.keys().take(i as int).contains(k),
        decreases n - i,
    {
        let item: &String = &keys.items[i];
        proof {
            // The input is strictly sorted, so this key is not yet in `out`.
            if key_views(out@).contains(item@) {
                let w = choose|w: int|
                    0 <= w < i && keys.keys().take(i as int)[w] == item@;
                assert(key_lt(keys.keys()[w], keys.keys()[i as int]));
                lemma_key_lt_irreflexive(item@);
            }
        }
        let m = out.len();
        let mut pos: usize = 0;
        while pos < m && compiled_key_lt(out[pos].as_str(), item.as_str())
            invariant
                pos <= m,
                m == out@.len(),
                forall|j: int| 0 <= j < pos ==> compiled_lt(key_views(out@)[j], item@),
            decreases m - pos,
        {
            pos = pos + 1;
        }
        proof {
            if pos < m {
                assert(!compiled_lt(key_views(out@)[pos as int], item@));
                assert(key_views(out@)[pos as int] != item@);
                if !compiled_lt(item@, key_views(out@)[pos as int]) {
                    lemma_compiled_lt_connected(key_views(out@)[pos as int], item@);
                }
            }
            assert forall|j: int| pos <= j < m implies compiled_lt(
                item@,
                key_views(out@)[j],
            ) by {
                if j > pos {
                    lemma_compiled_lt_transitive(
                        item@,
                        key_views(out@)[pos as int],
                        key_views(out@)[j],
                    );
                }
            }
        }
        let ghost old_list = key_views(out@);
        out.insert(pos, item.clone());
        proof {
            let new_list = key_views(out@);
            assert(new_list =~= old_list.subrange(0, pos as int) + seq![item@]
                + old_list.subrange(pos as int, old_list.len() as int));
            assert(new_list[pos as int] == item@);
            assert forall|a: int, b: int| 0 <= a < b < new_list.len()
                implies compiled_lt(new_list[a], new_list[b]) by {
                if a < pos {
                    assert(new_list[a] == old_list[a]);
                } else if a > pos {
                    assert(new_list[a] == old_list[a - 1]);
                }
                if b < pos {
                    assert(new_list[b] == old_list[b]);
                } else if b > pos {
                    assert(new_list[b] == old_list[b - 1]);
                }
            }
            assert(keys.keys().take(i as int + 1) =~= keys.keys().take(i as int).push(
                keys.keys()[i as int],
            ));
            assert forall|k: Seq<char>| #[trigger] new_list.contains(k)
                <==> keys.keys().take(i as int + 1).contains(k) by {
                if new_list.contains(k) {
                    let w = choose|w: int| 0 <= w < new_list.len() && new_list[w] == k;
                    if w < pos {
                        assert(old_list[w] == k);
                        assert(old_list.contains(k));
                        assert(keys.keys().take(i as int).contains(k));
                        let v = choose|v: int|
                            0 <= v < i && #[trigger] keys.keys().take(i as int)[v] == k;
                        assert(keys.keys().take(i as int + 1)[v] == k);
                    } else if w > pos {
                        assert(old_list[w - 1] == k);
                        assert(old_list.contains(k));
                        assert(keys.keys().take(i as int).contains(k));
                        let v = choose|v: int|
                            0 <= v < i && #[trigger] keys.keys().take(i as int)[v] == k;
                        assert(keys.keys().take(i as int + 1)[v] == k);
                    } else {
                        assert(k == item@);
                        assert(keys.keys().take(i as int + 1)[i as int] == k);
                    }
                    assert(keys.keys().take(i as int + 1).contains(k));
                }
                if keys.keys().take(i as int + 1).contains(k) {
                    let w = choose|w: int|
                        0 <= w < i + 1 && #[trigger] keys.keys().take(i as int + 1)[w] == k;
                    if w < i {
                        assert(keys.keys().take(i as int)[w] == k);
                        assert(keys.keys().take(i as int).contains(k));
                        assert(old_list.contains(k));
                        let v = choose|v: int| 0 <= v < old_list.len() && old_list[v] == k;
                        if v < pos {
                            assert(new_list[v] == k);
                        } else {
                            assert(new_list[v + 1] == k);
                        }
                    } else {
                        assert(k == item@);
                        assert(new_list[pos as int] == k);
                    }
                    assert(new_list.contains(k));
                }
            }
        }
        i = i + 1;
    }
    proof {
        assert(keys.keys().take(n as int) =~= keys.keys());
    }
    out
}

/// Cutting a sorted duplicate-free key list at four keys yields a valid
/// bin list for the set it was sorted from.
pub proof fn lemma_bin_list_from_sorted(lst: Seq<Seq<char>>, s: Set<Seq<char>>)
    requires
        compiled_sorted(lst),
        forall|k: Seq<char>| #[trigger] lst.contains(k) <==> s.contains(k),
    ensures
        bin_list_ok(if lst.len() > 4 { lst.take(4) } else { lst }, s),
{
    if lst.len() > 4 {
        let cut = lst.take(4);
        assert forall|k: Seq<char>| #[trigger] cut.contains(k) implies s.contains(k) by {
            let w = choose|w: int| 0 <= w < 4 && #[trigger] cut[w] == k;
            assert(lst[w] == k);
            assert(lst.contains(k));
        }
        assert forall|x: Seq<char>, y: Seq<char>|
            cut.contains(x) && s.contains(y) && !cut.contains(y) implies compiled_lt(
            x,
            y,
        ) by {
            let wx = choose|w: int| 0 <= w < 4 && #[trigger] cut[w] == x;
            assert(lst[wx] == x);
            assert(lst.contains(y));
            let wy = choose|w: int| 0 <= w < lst.len() && #[trigger] lst[w] == y;
            if wy < 4 {
                assert(cut[wy] == y);
            }
            assert(compiled_lt(lst[wx], lst[wy]));
        }
        assert(compiled_sorted(cut)) by {
            assert forall|a: int, b: int| 0 <= a < b < 4 implies compiled_lt(
                cut[a],
                cut[b],
            ) by {
                assert(cut[a] == lst[a] && cut[b] == lst[b]);
            }
        }
    }
}

/// Two key lists sorted in compiled order that hold the same keys are the
/// same list: a compiled bin is a deterministic function of its key set.
pub proof fn lemma_compiled_sorted_unique(a: Seq<Seq<char>>, b: Seq<Seq<char>>)
    requires
        compiled_sorted(a),
        compiled_sorted(b),
        forall|k: Seq<char>| a.contains(k) <==> b.contains(k),
    ensures
        a == b,
    decreases a.len(),
{
    if a.len() == 0 {
        if b.len() > 0 {
            assert(a.contains(b[0]));
        }
        assert(a =~= b);
    } else {
        assert(b.contains(a[0]));
        assert(a.contains(b[0]));
        let ia = choose|i: int| 0 <= i < a.len() && a[i] == b[0];
        let ib = choose|i: int| 0 <= i < b.len() && b[i] == a[0];
        if a[0] != b[0] {
            assert(ia > 0 && ib > 0);
            assert(compiled_lt(a[0], a[ia]));
            assert(compiled_lt(b[0], b[ib]));
            lemma_compiled_lt_transitive(a[0], b[0], a[0]);
            lemma_compiled_lt_irreflexive(a[0]);
        }
        let at = a.drop_first();
        let bt = b.drop_first();
        assert forall|k: Seq<char>| at.contains(k) <==> bt.contains(k) by {
            lemma_compiled_head_not_in_tail(a);
            lemma_compiled_head_not_in_tail(b);
            if at.contains(k) {
                let w = choose|w: int| 0 <= w < at.len() && at[w] == k;
                assert(a[w + 1] == k);
                assert(b.contains(k));
                assert(k != b[0]);
                let v = choose|v: int| 0 <= v < b.len() && b[v] == k;
                assert(bt[v - 1] == k);
            }
            if bt.contains(k) {
                let w = choose|w: int| 0 <= w < bt.len() && bt[w] == k;
                assert(b[w + 1] == k);
                assert(a.contains(k));
                assert(k != a[0]);
                let v = choose|v: int| 0 <= v < a.len() && a[v] == k;
                assert(at[v - 1] == k);
            }
        }
        assert(compiled_sorted(at)) by {
            assert forall|i: int, j: int| 0 <= i < j < at.len()
                implies compiled_lt(at[i], at[j]) by {
                assert(a[i + 1] == at[i]);
                assert(a[j + 1] == at[j]);
            }
        }
        assert(compiled_sorted(bt)) by {
            assert forall|i: int, j: int| 0 <= i < j < bt.len()
                implies compiled_lt(bt[i], bt[j]) by {
                assert(b[i + 1] == bt[i]);
                assert(b[j + 1] == bt[j]);
            }
        }
        lemma_compiled_sorted_unique(at, bt);
        assert(a =~= seq![a[0]] + at);
        assert(b =~= seq![b[0]] + bt);
    }
}

/// The head of a list sorted in compiled order does not repeat in its tail.
proof fn lemma_compiled_head_not_in_tail(a: Seq<Seq<char>>)
    requires
        compiled_sorted(a),
        a.len() > 0,
    ensures
        !a.drop_first().contains(a[0]),
{
    let t = a.drop_first();
    if t.contains(a[0]) {
        let w = choose|w: int| 0 <= w < t.len() && t[w] == a[0];
        assert(a[w + 1] == a[0]);
        assert(compiled_lt(a[0], a[w + 1]));
        lemma_compiled_lt_irreflexive(a[0]);
    }
}


/// Split the window into six sub-bins, fold its events through the
/// held-input set, and report the clamped motion sums together with each
/// bin's key list: the inputs held in the bin, at most four, in compiled
/// order. Keys pressed before the window's start are skipped, not folded.
pub fn compile_window(
    events: &[InputEvent],
    window_start: QpcTimestamp,
    window_end: QpcTimestamp,
    key_state: &mut KeyState,
) -> (r: (i32, i32, i32, Vec<Vec<String>>))
    requires
        old(key_state).down.well_formed(),
        ts_sorted(events@),
    ensures
        final(key_state).down.well_formed(),
        final(key_state).down.key_set() == held_after(
            old(key_state).down.key_set(),
            events@,
            window_start,
            win_end(window_start, window_end),
        ),
        r.0 as int == spec_clamp(
            crate::aggregator::dx_after(
                0,
                events@,
                window_start,
                win_end(window_start, window_end),
            ),
            DX_CLAMP as int,
        ),
        r.1 as int == spec_clamp(
            crate::aggregator::dy_after(
                0,
                events@,
                window_start,
                win_end(window_start, window_end),
            ),
            DX_CLAMP as int,
        ),
        r.2 as int == spec_clamp(
            crate::aggregator::wheel_after(
                0,
                events@,
                window_start,
                win_end(window_start, window_end),
            ),
            WHEEL_CLAMP as int,
        ),
        r.3@.len() == 6,
        forall|j: int|
            0 <= j < 6 ==> bin_list_ok(
                key_views(r.3@[j]@),
                bin_added(
                    held_after(
                        old(key_state).down.key_set(),
                        events@,
                        window_start,
                        bin_boundary(window_start, window_end, j),
                    ),
                    events@,
                    bin_boundary(window_start, window_end, j),
                    bin_boundary(window_start, window_end, j + 1),
                ),
            ),
{
    let ghost s0 = old(key_state).down.key_set();
    let n = events.len();
    let duration: u64 = if window_end >= window_start {
        window_end - window_start
    } else {
        0
    };
    let base: u64 = duration / 6;
    let rem: u64 = duration % 6;
    proof {
        assert(base == bin_base(window_start, window_end));
        assert(rem == bin_rem(window_start, window_end));
    }
    let mut dx: i32 = 0;
    let mut dy: i32 = 0;
    let mut wheel: i32 = 0;
    let mut bins: Vec<Vec<String>> = Vec::new();

    let mut idx: usize = 0;
    while idx < n && events[idx].qpc_ts < window_start
        invariant
            idx <= n,
            n == events@.len(),
            forall|i: int| 0 <= i < idx ==> events@[i].qpc_ts < window_start,
        decreases n - idx,
    {
        idx = idx + 1;
    }
    proof {
        assert forall|i: int| idx <= i < n implies events@[i].qpc_ts
            >= window_start by {
            assert(events@[idx as int].qpc_ts >= window_start);
            if i > idx {
                assert(events@[idx as int].qpc_ts <= events@[i].qpc_ts);
            }
        }
        let consumed = events@.take(idx as int);
        assert(forall|i: int| 0 <= i < consumed.len() ==> consumed[i].qpc_ts < window_start);
        lemma_held_skip(s0, consumed, window_start, window_start);
        lemma_dx_skip(0, consumed, window_start, window_start);
        lemma_dy_skip(0, consumed, window_start, window_start);
        lemma_wheel_skip(0, consumed, window_start, window_start);
    }

    let mut bin_start: u64 = window_start;
    let mut bin_idx: usize = 0;
    while bin_idx < 6
        invariant
            bin_idx <= 6,
            bins@.len() == bin_idx,
            idx <= n,
            n == events@.len(),
            ts_sorted(events@),
            key_state.down.well_formed(),
            base == bin_base(window_start, window_end),
            rem == bin_rem(window_start, window_end),
            bin_start == bin_boundary(window_start, window_end, bin_idx as int),
            window_start <= bin_start,
            key_state.down.key_set() == held_after(
                s0,
                events@.take(idx as int),
                window_start,
                bin_start,
            ),
            dx as int == crate::aggregator::dx_after(
                0,
                events@.take(idx as int),
                window_start,
                bin_start,
            ),
            dy as int == crate::aggregator::dy_after(
                0,
                events@.take(idx as int),
                window_start,
                bin_start,
            ),
            wheel as int == crate::aggregator::wheel_after(
                0,
                events@.take(idx as int),
                window_start,
                bin_start,
            ),
            forall|i: int| 0 <= i < idx ==> events@[i].qpc_ts < bin_start,
            forall|i: int| idx <= i < n ==> events@[i].qpc_ts >= bin_start,
            forall|j: int|
                0 <= j < bin_idx ==> bin_list_ok(
                    key_views(bins@[j]@),
                    bin_added(
                        held_after(
                            s0,
                            events@,
                            window_start,
                            bin_boundary(window_start, window_end, j),
                        ),
                        events@,
                        bin_boundary(window_start, window_end, j),
                        bin_boundary(window_start, window_end, j + 1),
                    ),
                ),
        decreases 6 - bin_idx,
    {
        proof {
            if window_end >= window_start {
                vstd::arithmetic::div_mod::lemma_fundamental_div_mod(
                    (window_end - window_start) as int,
                    6,
                );
            }
            assert(base + rem <= u64::MAX);
        }
        let step: u64 = if bin_idx == 5 {
            base + rem
        } else {
            base
        };
        let bin_end: u64 = match bin_start.checked_add(step) {
            Some(v) => v,
            None => u64::MAX,
        };
        proof {
            assert(bin_end == bin_boundary(window_start, window_end, bin_idx as int + 1));
            assert(bin_start <= bin_end);
            let consumed = events@.take(idx as int);
            assert(forall|i: int| 0 <= i < consumed.len() ==> consumed[i].qpc_ts < bin_start);
            lemma_held_raise(s0, consumed, window_start, bin_start, bin_end);
            lemma_dx_raise(0, consumed, window_start, bin_start, bin_end);
            lemma_dy_raise(0, consumed, window_start, bin_start, bin_end);
            lemma_wheel_raise(0, consumed, window_start, bin_start, bin_end);
        }
        let ghost s_j = key_state.down.key_set();
        proof {
            lemma_held_take(s0, events@, window_start, bin_start, idx as int);
            assert(s_j == held_after(s0, events@, window_start, bin_start));
        }
        let mut bin_keys = key_state.down.duplicate();
        proof {
            let consumed = events@.take(idx as int);
            assert(forall|i: int| 0 <= i < consumed.len() ==> consumed[i].qpc_ts < bin_start);
            lemma_binadd_skip(s_j, consumed, bin_start, bin_end);
            assert(bin_keys.key_set() == s_j);
        }
        while idx < n && events[idx].qpc_ts < bin_end
            invariant
                idx <= n,
                n == events@.len(),
                ts_sorted(events@),
                bin_idx < 6,
                key_state.down.well_formed(),
                bin_keys.well_formed(),
                base == bin_base(window_start, window_end),
                rem == bin_rem(window_start, window_end),
                bin_start == bin_boundary(window_start, window_end, bin_idx as int),
                bin_end == bin_boundary(window_start, window_end, bin_idx as int + 1),
                window_start <= bin_start <= bin_end,
                key_state.down.key_set() == held_after(
                    s0,
                    events@.take(idx as int),
                    window_start,
                    bin_end,
                ),
                bin_keys.key_set() == bin_added(
                    s_j,
                    events@.take(idx as int),
                    bin_start,
                    bin_end,
                ),
                dx as int == crate::aggregator::dx_after(
                    0,
                    events@.take(idx as int),
                    window_start,
                    bin_end,
                ),
                dy as int == crate::aggregator::dy_after(
                    0,
                    events@.take(idx as int),
                    window_start,
                    bin_end,
                ),
                wheel as int == crate::aggregator::wheel_after(
                    0,
                    events@.take(idx as int),
                    window_start,
                    bin_end,
                ),
                forall|i: int| 0 <= i < idx ==> events@[i].qpc_ts < bin_end,
                forall|i: int| idx <= i < n ==> events@[i].qpc_ts >= bin_start,
            decreases n - idx,
        {
            let event = &events[idx];
            proof {
                assert(events@.take(idx as int + 1).drop_last() =~= events@.take(idx as int));
                assert(events@.take(idx as int + 1).last() == events@[idx as int]);
            }
            match &event.kind {
                InputEventKind::KeyDown { key } => {
                    key_state.down.insert(key.as_str());
                    bin_keys.insert(key.as_str());
                },
                InputEventKind::KeyUp { key } => {
                    key_state.down.remove(key.as_str());
                },
                InputEventKind::MouseMove { dx: edx, dy: edy } => {
                    dx = crate::aggregator::sat_add_i32(dx, *edx);
                    dy = crate::aggregator::sat_add_i32(dy, *edy);
                },
                InputEventKind::MouseWheel { delta } => {
                    wheel = crate::aggregator::sat_add_i32(wheel, *delta);
                },
                InputEventKind::MouseButton { button, is_down } => {
                    let name = crate::events::mouse_button_name(*button);
                    if *is_down {
                        key_state.down.insert(name);
                        bin_keys.insert(name);
                    } else {
                        key_state.down.remove(name);
                    }
                },
            }
            proof {
                assert forall|i: int| idx + 1 <= i < n implies events@[i].qpc_ts
                    >= bin_start by {
                    assert(events@[idx as int].qpc_ts <= events@[i].qpc_ts);
                }
            }
            idx = idx + 1;
        }
        proof {
            assert forall|i: int| idx <= i < n implies events@[i].qpc_ts >= bin_end by {
                assert(events@[idx as int].qpc_ts >= bin_end);
                if i > idx {
                    assert(events@[idx as int].qpc_ts <= events@[i].qpc_ts);
                }
            }
            lemma_binadd_take(s_j, events@, bin_start, bin_end, idx as int);
        }
        let mut ordered = sort_keys(&bin_keys);
        let ghost full = key_views(ordered@);
        proof {
            lemma_bin_list_from_sorted(full, bin_keys.key_set());
        }
        if ordered.len() > 4 {
            ordered.truncate(4);
            proof {
                assert(key_views(ordered@) =~= full.take(4));
            }
        }
        proof {
            assert(bin_list_ok(key_views(ordered@), bin_keys.key_set()));
        }
        bins.push(ordered);
        bin_start = bin_end;
        bin_idx = bin_idx + 1;
    }
    proof {
        lemma_held_take(s0, events@, window_start, bin_start, idx as int);
        lemma_dx_take(0, events@, window_start, bin_start, idx as int);
        lemma_dy_take(0, events@, window_start, bin_start, idx as int);
        lemma_wheel_take(0, events@, window_start, bin_start, idx as int);
        assert(bin_start == win_end(window_start, window_end));
    }
    let cdx = clamp(dx, DX_CLAMP);
    let cdy = clamp(dy, DX_CLAMP);
    let cwheel = clamp(wheel, WHEEL_CLAMP);
    (cdx, cdy, cwheel, bins)
}


/// Keys joined by single spaces.
pub open spec fn join_sp(keys: Seq<Seq<char>>) -> Seq<char>
    decreases keys.len(),
{
    if keys.len() == 0 {
        Seq::empty()
    } else if keys.len() == 1 {
        keys[0]
    } else {
        join_sp(keys.drop_last()) + " "@ + keys.last()
    }
}

/// One bin's part of the compiled string: the separator, then a space
/// and the joined keys if the bin has any.
pub open spec fn bin_part(b: Seq<Seq<char>>) -> Seq<char> {
    " ;"@ + if b.len() == 0 {
        Seq::<char>::empty()
    } else {
        " "@ + join_sp(b)
    }
}

/// All bins' parts, in order.
pub open spec fn bins_part(bins: Seq<Seq<Seq<char>>>) -> Seq<char>
    decreases bins.len(),
{
    if bins.len() == 0 {
        Seq::empty()
    } else {
        bins_part(bins.drop_last()) + bin_part(bins.last())
    }
}

/// The compiled action string of clamped motion sums and bin key lists.
pub open spec fn spec_action_string(dx: int, dy: int, wheel: int, bins: Seq<Seq<Seq<char>>>)
    -> Seq<char> {
    "<|action_start|>"@ + dec_int(dx) + " "@ + dec_int(dy) + " "@ + dec_int(wheel) + bins_part(
        bins,
    ) + "<|action_end|>"@
}

/// The views of a sequence of key lists.
pub open spec fn bins_views(bins: Seq<Vec<String>>) -> Seq<Seq<Seq<char>>> {
    bins.map_values(|b: Vec<String>| key_views(b@))
}

/// Render the compiled action string from the motion sums and the first
/// six bins.
pub fn format_action_string(dx: i32, dy: i32, wheel: i32, bins: &Vec<Vec<String>>) -> (out: String)
    ensures
        out@ == spec_action_string(
            dx as int,
            dy as int,
            wheel as int,
            bins_views(
                if bins@.len() <= 6 {
                    bins@
                } else {
                    bins@.take(6)
                },
            ),
        ),
{
    let mut out = String::from_str("<|action_start|>");
    out.append(crate::numfmt::i32_to_string(dx).as_str());
    out.append(" ");
    out.append(crate::numfmt::i32_to_string(dy).as_str());
    out.append(" ");
    out.append(crate::numfmt::i32_to_string(wheel).as_str());
    let ghost header = out@;
    let nb: usize = if bins.len() > 6 {
        6
    } else {
        bins.len()
    };
    proof {
        assert(bins_part(bins_views(bins@.take(0))) =~= Seq::<char>::empty());
        assert(out@ =~= header + bins_part(bins_views(bins@.take(0))));
    }
    let mut i: usize = 0;
    while i < nb
        invariant
            i <= nb,
            nb == if bins@.len() <= 6 {
                bins@.len() as int
            } else {
                6int
            },
            header == "<|action_start|>"@ + dec_int(dx as int) + " "@ + dec_int(dy as int) + " "@
                + dec_int(wheel as int),
            out@ == header + bins_part(bins_views(bins@.take(i as int))),
        decreases nb - i,
    {
        out.append(" ;");
        let bin: &Vec<String> = &bins[i];
        let ghost before_bin = out@;
        let m = bin.len();
        if m > 0 {
            out.append(" ");
            let mut j: usize = 0;
            while j < m
                invariant
                    0 < j <= m || j == 0,
                    m == bin@.len(),
                    m > 0,
                    out@ == before_bin + " "@ + join_sp(key_views(bin@.take(j as int))),
                decreases m - j,
            {
                if j > 0 {
                    out.append(" ");
                }
                out.append(bin[j].as_str());
                proof {
                    let now = key_views(bin@.take(j as int + 1));
                    assert(now.drop_last() =~= key_views(bin@.take(j as int)));
                    assert(now.last() == bin@[j as int]@);
                    if j == 0 {
                        assert(join_sp(now) == now[0]);
                        assert(out@ =~= before_bin + " "@ + join_sp(now));
                    } else {
                        assert(join_sp(now) == join_sp(now.drop_last()) + " "@ + now.last());
                        assert(out@ =~= before_bin + " "@ + join_sp(now));
                    }
                }
                j = j + 1;
            }
            proof {
                assert(bin@.take(m as int) =~= bin@);
            }
        }
        proof {
            let grown = bins_views(bins@.take(i as int + 1));
            assert(grown.drop_last() =~= bins_views(bins@.take(i as int)));
            assert(grown.last() == key_views(bin@));
            if m == 0 {
                assert(key_views(bin@).len() == 0);
                assert(bin_part(key_views(bin@)) == " ;"@ + Seq::<char>::empty());
                assert(out@ =~= header + bins_part(grown));
            } else {
                assert(out@ =~= header + bins_part(grown));
            }
        }
        i = i + 1;
    }
    out.append("<|action_end|>");
    proof {
        if bins@.len() <= 6 {
            assert(bins@.take(nb as int) =~= bins@);
        }
        assert(out@ =~= spec_action_string(
            dx as int,
            dy as int,
            wheel as int,
            bins_views(
                if bins@.len() <= 6 {
                    bins@
                } else {
                    bins@.take(6)
                },
            ),
        ));
    }
    out
}

/// What the compiled string of one window promises: six bins, each a
/// valid key list of its sub-window, rendered after the clamped sums.
pub open spec fn compiled_output_ok(
    out: Seq<char>,
    s0: Set<Seq<char>>,
    events: Seq<InputEvent>,
    window_start: QpcTimestamp,
    window_end: QpcTimestamp,
    bins: Seq<Seq<Seq<char>>>,
) -> bool {
    &&& bins.len() == 6
    &&& (forall|j: int|
        0 <= j < 6 ==> bin_list_ok(
            bins[j],
            bin_added(
                held_after(s0, events, window_start, bin_boundary(window_start, window_end, j)),
                events,
                bin_boundary(window_start, window_end, j),
                bin_boundary(window_start, window_end, j + 1),
            ),
        ))
    &&& out == spec_action_string(
        spec_clamp(
            crate::aggregator::dx_after(0, events, window_start, win_end(window_start, window_end)),
            DX_CLAMP as int,
        ),
        spec_clamp(
            crate::aggregator::dy_after(0, events, window_start, win_end(window_start, window_end)),
            DX_CLAMP as int,
        ),
        spec_clamp(
            crate::aggregator::wheel_after(
                0,
                events,
                window_start,
                win_end(window_start, window_end),
            ),
            WHEEL_CLAMP as int,
        ),
        bins,
    )
}

/// Compile one window into its action string, updating the held-input
/// set. The six bins are pinned down by [`compiled_output_ok`]; by
/// [`lemma_compiled_sorted_unique`] each bin's list is the one sorted
/// list of its key set, so the output is a function of the events alone.
pub fn compile_action_string(
    events: &[InputEvent],
    window_start: QpcTimestamp,
    window_end: QpcTimestamp,
    key_state: &mut KeyState,
) -> (out: String)
    requires
        old(key_state).down.well_formed(),
        ts_sorted(events@),
    ensures
        final(key_state).down.well_formed(),
        final(key_state).down.key_set() == held_after(
            old(key_state).down.key_set(),
            events@,
            window_start,
            win_end(window_start, window_end),
        ),
        exists|bins: Seq<Seq<Seq<char>>>|
            compiled_output_ok(
                out@,
                old(key_state).down.key_set(),
                events@,
                window_start,
                window_end,
                bins,
            ),
{
    let (dx, dy, wheel, bins) = compile_window(events, window_start, window_end, key_state);
    let out = format_action_string(dx, dy, wheel, &bins);
    proof {
        let witness = bins_views(bins@);
        assert(forall|j: int| 0 <= j < 6 ==> witness[j] == key_views(bins@[j]@));
        assert(compiled_output_ok(
            out@,
            old(key_state).down.key_set(),
            events@,
            window_start,
            window_end,
            witness,
        ));
    }
    out
}


/// How many semicolons a string holds.
pub open spec fn count_semis(s: Seq<char>) -> int
    decreases s.len(),
{
    if s.len() == 0 {
        0
    } else {
        count_semis(s.drop_last()) + if s.last() == ';' {
            1int
        } else {
            0int
        }
    }
}

/// A key name that the compiled wire format can carry verbatim: no
/// separator characters inside it.
pub open spec fn key_clean(k: Seq<char>) -> bool {
    forall|i: int| 0 <= i < k.len() ==> k[i] != ';'
}

/// The count of a single character.
proof fn lemma_count_semis_single(c: char)
    ensures
        count_semis(seq![c]) == if c == ';' {
            1int
        } else {
            0int
        },
{
    reveal_with_fuel(count_semis, 2);
    assert(seq![c].drop_last() =~= Seq::<char>::empty());
    assert(seq![c].last() == c);
}

/// Semicolon counts add over concatenation.
pub proof fn lemma_count_semis_concat(a: Seq<char>, b: Seq<char>)
    ensures
        count_semis(a + b) == count_semis(a) + count_semis(b),
    decreases b.len(),
{
    if b.len() == 0 {
        assert(a + b =~= a);
    } else {
        assert((a + b).drop_last() =~= a + b.drop_last());
        assert((a + b).last() == b.last());
        lemma_count_semis_concat(a, b.drop_last());
    }
}

/// A string without semicolons counts zero.
pub proof fn lemma_count_semis_zero(s: Seq<char>)
    requires
        key_clean(s),
    ensures
        count_semis(s) == 0,
    decreases s.len(),
{
    if s.len() > 0 {
        assert(forall|i: int| 0 <= i < s.drop_last().len() ==> s.drop_last()[i] == s[i]);
        lemma_count_semis_zero(s.drop_last());
        assert(s.last() == s[s.len() - 1]);
    }
}

/// Decimal digits hold no semicolon.
proof fn lemma_count_semis_digits(n: nat)
    ensures
        count_semis(crate::numfmt::dec_digits(n)) == 0,
    decreases n,
{
    if n < 10 {
        assert(crate::numfmt::dec_digits(n) =~= seq![crate::numfmt::digit_char(n)]);
        lemma_count_semis_single(crate::numfmt::digit_char(n));
    } else {
        lemma_count_semis_digits(n / 10);
        lemma_count_semis_single(crate::numfmt::digit_char(n % 10));
        lemma_count_semis_concat(
            crate::numfmt::dec_digits(n / 10),
            seq![crate::numfmt::digit_char(n % 10)],
        );
    }
}

/// A rendered integer holds no semicolon.
proof fn lemma_count_semis_int(v: int)
    ensures
        count_semis(dec_int(v)) == 0,
{
    if v < 0 {
        lemma_count_semis_digits((-v) as nat);
        lemma_count_semis_concat(seq!['-'], crate::numfmt::dec_digits((-v) as nat));
        lemma_count_semis_single('-');
    } else {
        lemma_count_semis_digits(v as nat);
    }
}

/// Joined clean keys hold no semicolon.
proof fn lemma_count_semis_join(keys: Seq<Seq<char>>)
    requires
        forall|t: int| 0 <= t < keys.len() ==> key_clean(#[trigger] keys[t]),
    ensures
        count_semis(join_sp(keys)) == 0,
    decreases keys.len(),
{
    reveal_strlit(" ");
    if keys.len() == 0 {
    } else if keys.len() == 1 {
        lemma_count_semis_zero(keys[0]);
    } else {
        assert(forall|t: int|
            0 <= t < keys.drop_last().len() ==> key_clean(#[trigger] keys.drop_last()[t]));
        lemma_count_semis_join(keys.drop_last());
        lemma_count_semis_zero(keys.last());
        lemma_count_semis_concat(join_sp(keys.drop_last()), " "@);
        lemma_count_semis_concat(join_sp(keys.drop_last()) + " "@, keys.last());
        assert(" "@ =~= seq![' ']);
        lemma_count_semis_single(' ');
    }
}

/// One bin contributes exactly one semicolon.
proof fn lemma_count_semis_bin(b: Seq<Seq<char>>)
    requires
        forall|t: int| 0 <= t < b.len() ==> key_clean(#[trigger] b[t]),
    ensures
        count_semis(bin_part(b)) == 1,
{
    reveal_strlit(" ;");
    reveal_strlit(" ");
    assert(" ;"@ =~= seq![' ', ';']);
    assert(count_semis(seq![' ', ';']) == 1) by {
        assert(seq![' ', ';'].drop_last() =~= seq![' ']);
        assert(seq![' ', ';'].last() == ';');
        lemma_count_semis_single(' ');
    }
    if b.len() == 0 {
        lemma_count_semis_concat(" ;"@, Seq::<char>::empty());
    } else {
        lemma_count_semis_join(b);
        assert(" "@ =~= seq![' ']);
        lemma_count_semis_single(' ');
        lemma_count_semis_concat(" "@, join_sp(b));
        lemma_count_semis_concat(" ;"@, " "@ + join_sp(b));
    }
}

/// Six clean bins contribute exactly six semicolons.
proof fn lemma_count_semis_bins(bins: Seq<Seq<Seq<char>>>)
    requires
        forall|j: int, t: int|
            0 <= j < bins.len() && 0 <= t < bins[j].len() ==> key_clean(#[trigger] bins[j][t]),
    ensures
        count_semis(bins_part(bins)) == bins.len(),
    decreases bins.len(),
{
    if bins.len() > 0 {
        assert(forall|j: int, t: int|
            0 <= j < bins.drop_last().len() && 0 <= t < bins.drop_last()[j].len() ==> key_clean(
                #[trigger] bins.drop_last()[j][t],
            ));
        lemma_count_semis_bins(bins.drop_last());
        assert(forall|t: int|
            0 <= t < bins.last().len() ==> key_clean(#[trigger] bins.last()[t])) by {
            assert(bins[bins.len() - 1] == bins.last());
        }
        lemma_count_semis_bin(bins.last());
        lemma_count_semis_concat(bins_part(bins.drop_last()), bin_part(bins.last()));
    }
}

/// The compiled wire format: when every reported key is free of the
/// separator character, a compiled window holds exactly six semicolons —
/// the shape `<|action_start|>DX DY WHEEL ; B0 ; ... ; B5<|action_end|>`.
pub proof fn lemma_compiled_six_semicolons(
    out: Seq<char>,
    s0: Set<Seq<char>>,
    events: Seq<InputEvent>,
    window_start: QpcTimestamp,
    window_end: QpcTimestamp,
    bins: Seq<Seq<Seq<char>>>,
)
    requires
        compiled_output_ok(out, s0, events, window_start, window_end, bins),
        forall|j: int, t: int|
            0 <= j < bins.len() && 0 <= t < bins[j].len() ==> key_clean(#[trigger] bins[j][t]),
    ensures
        count_semis(out) == 6,
{
    reveal_strlit("<|action_start|>");
    reveal_strlit("<|action_end|>");
    reveal_strlit(" ");
    let we = win_end(window_start, window_end);
    let dx = spec_clamp(
        crate::aggregator::dx_after(0, events, window_start, we),
        DX_CLAMP as int,
    );
    let dy = spec_clamp(
        crate::aggregator::dy_after(0, events, window_start, we),
        DX_CLAMP as int,
    );
    let wl = spec_clamp(
        crate::aggregator::wheel_after(0, events, window_start, we),
        WHEEL_CLAMP as int,
    );
    assert(key_clean("<|action_start|>"@));
    assert(key_clean("<|action_end|>"@));
    assert(key_clean(" "@));
    lemma_count_semis_zero("<|action_start|>"@);
    lemma_count_semis_zero("<|action_end|>"@);
    lemma_count_semis_zero(" "@);
    lemma_count_semis_int(dx);
    lemma_count_semis_int(dy);
    lemma_count_semis_int(wl);
    lemma_count_semis_bins(bins);
    let p1 = "<|action_start|>"@ + dec_int(dx);
    lemma_count_semis_concat("<|action_start|>"@, dec_int(dx));
    let p2 = p1 + " "@;
    lemma_count_semis_concat(p1, " "@);
    let p3 = p2 + dec_int(dy);
    lemma_count_semis_concat(p2, dec_int(dy));
    let p4 = p3 + " "@;
    lemma_count_semis_concat(p3, " "@);
    let p5 = p4 + dec_int(wl);
    lemma_count_semis_concat(p4, dec_int(wl));
    let p6 = p5 + bins_part(bins);
    lemma_count_semis_concat(p5, bins_part(bins));
    lemma_count_semis_concat(p6, "<|action_end|>"@);
    assert(out == p6 + "<|action_end|>"@);
}


/// Every key name the virtual-key table emits is free of the compiled
/// format's separator, so [`lemma_compiled_six_semicolons`] applies to
/// every bin built from decoded keyboard events.
#[verifier::rlimit(100)]
#[verifier::spinoff_prover]
pub proof fn lemma_key_table_clean(vk: u16)
    ensures
        match crate::events::spec_keyboard_key_name(vk) {
            Some(n) => key_clean(n),
            None => true,
        },
{
    reveal_strlit("A");
    reveal_strlit("B");
    reveal_strlit("C");
    reveal_strlit("D");
    reveal_strlit("E");
    reveal_strlit("F");
    reveal_strlit("G");
    reveal_strlit("H");
    reveal_strlit("I");
    reveal_strlit("J");
    reveal_strlit("K");
    reveal_strlit("L");
    reveal_strlit("M");
    reveal_strlit("N");
    reveal_strlit("O");
    reveal_strlit("P");
    reveal_strlit("Q");
    reveal_strlit("R");
    reveal_strlit("S");
    reveal_strlit("T");
    reveal_strlit("U");
    reveal_strlit("V");
    reveal_strlit("W");
    reveal_strlit("X");
    reveal_strlit("Y");
    reveal_strlit("Z");
    reveal_strlit("zero");
    reveal_strlit("one");
    reveal_strlit("two");
    reveal_strlit("three");
    reveal_strlit("four");
    reveal_strlit("five");
    reveal_strlit("six");
    reveal_strlit("seven");
    reveal_strlit("eight");
    reveal_strlit("nine");
    reveal_strlit("Numpad0");
    reveal_strlit("Numpad1");
    reveal_strlit("Numpad2");
    reveal_strlit("Numpad3");
    reveal_strlit("Numpad4");
    reveal_strlit("Numpad5");
    reveal_strlit("Numpad6");
    reveal_strlit("Numpad7");
    reveal_strlit("Numpad8");
    reveal_strlit("Numpad9");
    reveal_strlit("One");
    reveal_strlit("Two");
    reveal_strlit("Three");
    reveal_strlit("Four");
    reveal_strlit("Five");
    reveal_strlit("Six");
    reveal_strlit("Seven");
    reveal_strlit("Eight");
    reveal_strlit("Nine");
    reveal_strlit("Ten");
    reveal_strlit("Eleven");
    reveal_strlit("Twelve");
    reveal_strlit("Shift");
    reveal_strlit("Ctrl");
    reveal_strlit("Alt");
    reveal_strlit("Space");
    reveal_strlit("Esc");
    reveal_strlit("Tab");
    reveal_strlit("Enter");
    reveal_strlit("Backspace");
    reveal_strlit("Insert");
    reveal_strlit("Delete");
    reveal_strlit("Home");
    reveal_strlit("End");
    reveal_strlit("PageUp");
    reveal_strlit("PageDown");
    reveal_strlit("Pause");
    reveal_strlit("PrintScreen");
    reveal_strlit("CapsLock");
    reveal_strlit("NumLock");
    reveal_strlit("ScrollLock");
    reveal_strlit("Up");
    reveal_strlit("Down");
    reveal_strlit("Left");
    reveal_strlit("Right");
    reveal_strlit("LWin");
    reveal_strlit("RWin");
    reveal_strlit("Menu");
    reveal_strlit("NumpadMultiply");
    reveal_strlit("NumpadAdd");
    reveal_strlit("NumpadSubtract");
    reveal_strlit("NumpadDecimal");
    reveal_strlit("NumpadDivide");
    assert(key_clean("A"@));
    assert(key_clean("B"@));
    assert(key_clean("C"@));
    assert(key_clean("D"@));
    assert(key_clean("E"@));
    assert(key_clean("F"@));
    assert(key_clean("G"@));
    assert(key_clean("H"@));
    assert(key_clean("I"@));
    assert(key_clean("J"@));
    assert(key_clean("K"@));
    assert(key_clean("L"@));
    assert(key_clean("M"@));
    assert(key_clean("N"@));
    assert(key_clean("O"@));
    assert(key_clean("P"@));
    assert(key_clean("Q"@));
    assert(key_clean("R"@));
    assert(key_clean("S"@));
    assert(key_clean("T"@));
    assert(key_clean("U"@));
    assert(key_clean("V"@));
    assert(key_clean("W"@));
    assert(key_clean("X"@));
    assert(key_clean("Y"@));
    assert(key_clean("Z"@));
    assert(key_clean("zero"@));
    assert(key_clean("one"@));
    assert(key_clean("two"@));
    assert(key_clean("three"@));
    assert(key_clean("four"@));
    assert(key_clean("five"@));
    assert(key_clean("six"@));
    assert(key_clean("seven"@));
    assert(key_clean("eight"@));
    assert(key_clean("nine"@));
    assert(key_clean("Numpad0"@));
    assert(key_clean("Numpad1"@));
    assert(key_clean("Numpad2"@));
    assert(key_clean("Numpad3"@));
    assert(key_clean("Numpad4"@));
    assert(key_clean("Numpad5"@));
    assert(key_clean("Numpad6"@));
    assert(key_clean("Numpad7"@));
    assert(key_clean("Numpad8"@));
    assert(key_clean("Numpad9"@));
    assert(key_clean("One"@));
    assert(key_clean("Two"@));
    assert(key_clean("Three"@));
    assert(key_clean("Four"@));
    assert(key_clean("Five"@));
    assert(key_clean("Six"@));
    assert(key_clean("Seven"@));
    assert(key_clean("Eight"@));
    assert(key_clean("Nine"@));
    assert(key_clean("Ten"@));
    assert(key_clean("Eleven"@));
    assert(key_clean("Twelve"@));
    assert(key_clean("Shift"@));
    assert(key_clean("Ctrl"@));
    assert(key_clean("Alt"@));
    assert(key_clean("Space"@));
    assert(key_clean("Esc"@));
    assert(key_clean("Tab"@));
    assert(key_clean("Enter"@));
    assert(key_clean("Backspace"@));
    assert(key_clean("Insert"@));
    assert(key_clean("Delete"@));
    assert(key_clean("Home"@));
    assert(key_clean("End"@));
    assert(key_clean("PageUp"@));
    assert(key_clean("PageDown"@));
    assert(key_clean("Pause"@));
    assert(key_clean("PrintScreen"@));
    assert(key_clean("CapsLock"@));
    assert(key_clean("NumLock"@));
    assert(key_clean("ScrollLock"@));
    assert(key_clean("Up"@));
    assert(key_clean("Down"@));
    assert(key_clean("Left"@));
    assert(key_clean("Right"@));
    assert(key_clean("LWin"@));
    assert(key_clean("RWin"@));
    assert(key_clean("Menu"@));
    assert(key_clean("NumpadMultiply"@));
    assert(key_clean("NumpadAdd"@));
    assert(key_clean("NumpadSubtract"@));
    assert(key_clean("NumpadDecimal"@));
    assert(key_clean("NumpadDivide"@));
}

/// Every mouse button's key name is free of the compiled format's
/// separator too.
pub proof fn lemma_button_names_clean(button: crate::events::MouseButton)
    ensures
        key_clean(crate::events::button_key(button)),
{
    reveal_strlit("MouseLeft");
    reveal_strlit("MouseRight");
    reveal_strlit("MouseMiddle");
    reveal_strlit("MouseX1");
    reveal_strlit("MouseX2");
}


/// A set of key names the compiled wire format can carry verbatim.
pub open spec fn clean_set(s: Set<Seq<char>>) -> bool {
    forall|k: Seq<char>| s.contains(k) ==> key_clean(k)
}

/// Events whose key names the compiled wire format can carry verbatim;
/// by [`lemma_key_table_clean`] and [`lemma_button_names_clean`] this
/// holds of every event the raw-input decoder emits.
pub open spec fn clean_events(events: Seq<InputEvent>) -> bool {
    forall|i: int|
        0 <= i < events.len() ==> match crate::events::tracked_key(#[trigger] events[i].kind) {
            Some(p) => key_clean(p.0),
            None => true,
        }
}

/// Folding clean events over a clean held set keeps it clean.
pub proof fn lemma_held_clean(
    s: Set<Seq<char>>,
    events: Seq<InputEvent>,
    a: QpcTimestamp,
    b: QpcTimestamp,
)
    requires
        clean_set(s),
        clean_events(events),
    ensures
        clean_set(held_after(s, events, a, b)),
    decreases events.len(),
{
    if events.len() > 0 {
        assert(clean_events(events.drop_last())) by {
            assert(forall|i: int|
                0 <= i < events.drop_last().len() ==> #[trigger] events.drop_last()[i]
                    == events[i]);
        }
        lemma_held_clean(s, events.drop_last(), a, b);
        assert(events[events.len() - 1] == events.last());
    }
}

/// Collecting a bin's key additions from clean events keeps it clean.
pub proof fn lemma_binadd_clean(
    s: Set<Seq<char>>,
    events: Seq<InputEvent>,
    a: QpcTimestamp,
    b: QpcTimestamp,
)
    requires
        clean_set(s),
        clean_events(events),
    ensures
        clean_set(bin_added(s, events, a, b)),
    decreases events.len(),
{
    if events.len() > 0 {
        assert(clean_events(events.drop_last())) by {
            assert(forall|i: int|
                0 <= i < events.drop_last().len() ==> #[trigger] events.drop_last()[i]
                    == events[i]);
        }
        lemma_binadd_clean(s, events.drop_last(), a, b);
        assert(events[events.len() - 1] == events.last());
    }
}

/// The compiled wire format in general: a window compiled from events
/// whose key names are free of the separator — every stream the
/// raw-input decoder can produce — holds exactly six semicolons.
pub proof fn lemma_compiled_format_general(
    out: Seq<char>,
    s0: Set<Seq<char>>,
    events: Seq<InputEvent>,
    window_start: QpcTimestamp,
    window_end: QpcTimestamp,
    bins: Seq<Seq<Seq<char>>>,
)
    requires
        compiled_output_ok(out, s0, events, window_start, window_end, bins),
        clean_set(s0),
        clean_events(events),
    ensures
        count_semis(out) == 6,
{
    assert forall|j: int, t: int|
        0 <= j < bins.len() && 0 <= t < bins[j].len() implies key_clean(
        #[trigger] bins[j][t],
    ) by {
        let held = held_after(s0, events, window_start, bin_boundary(window_start, window_end, j));
        let bin = bin_added(
            held,
            events,
            bin_boundary(window_start, window_end, j),
            bin_boundary(window_start, window_end, j + 1),
        );
        lemma_held_clean(s0, events, window_start, bin_boundary(window_start, window_end, j));
        lemma_binadd_clean(
            held,
            events,
            bin_boundary(window_start, window_end, j),
            bin_boundary(window_start, window_end, j + 1),
        );
        assert(bins[j].contains(bins[j][t]));
        assert(bin.contains(bins[j][t]));
    }
    lemma_compiled_six_semicolons(out, s0, events, window_start, window_end, bins);
}

} // verus!
