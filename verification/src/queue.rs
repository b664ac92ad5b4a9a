//! The bounded, tick-ordered event queue between the OS input tap and
//! the per-step drain. Events arrive in tick order; when the queue is
//! full the oldest event is dropped and counted, because the queue's
//! purpose is recent windowed context, not historical completeness.
//! `drain_events` hands out exactly the events of one half-open window,
//! so consecutive windows partition the stream.

use std::collections::VecDeque;

use vstd::prelude::*;

use crate::compiler::ts_sorted;
use crate::events::InputEvent;
use crate::QpcTimestamp;

verus! {

/// The events of `s` whose ticks lie in `[start, end)`.
pub open spec fn window_events(
    s: Seq<InputEvent>,
    start: QpcTimestamp,
    end: QpcTimestamp,
) -> Seq<InputEvent> {
    s.filter(|e: InputEvent| start <= e.qpc_ts < end)
}

/// The events of `s` whose ticks lie at or past `end`.
pub open spec fn tail_events(s: Seq<InputEvent>, end: QpcTimestamp) -> Seq<InputEvent> {
    s.filter(|e: InputEvent| e.qpc_ts >= end)
}

/// A tick-ordered queue of input events, bounded at `max_events`.
#[derive(Debug)]
pub struct InputQueue {
    pub buffer: VecDeque<InputEvent>,
    pub max_events: usize,
    pub dropped_events: u64,
}

impl InputQueue {
    /// Tick-ordered, not over capacity, and capacity at least one.
    pub open spec fn well_formed(self) -> bool {
        &&& ts_sorted(self.buffer@)
        &&& self.buffer@.len() <= self.max_events
        &&& self.max_events >= 1
    }

    /// An empty queue holding at most `max_events` events, at least one.
    pub fn new(max_events: usize) -> (q: InputQueue)
        ensures
            q.well_formed(),
            q.buffer@ =~= Seq::<InputEvent>::empty(),
            q.max_events == if max_events >= 1 {
                max_events as int
            } else {
                1int
            },
            q.dropped_events == 0,
    {
        InputQueue {
            buffer: VecDeque::new(),
            max_events: if max_events >= 1 {
                max_events
            } else {
                1
            },
            dropped_events: 0,
        }
    }

    /// Take and reset the count of events dropped to the bound.
    pub fn take_dropped_events(&mut self) -> (n: u64)
        ensures
            n == old(self).dropped_events,
            final(self).dropped_events == 0,
            final(self).buffer == old(self).buffer,
            final(self).max_events == old(self).max_events,
    {
        let out = self.dropped_events;
        self.dropped_events = 0;
        out
    }

    /// Append one event, which must not be older than the newest held.
    /// At capacity the oldest event leaves and the drop count grows by
    /// one (never past its own bound), so the queue never exceeds
    /// `max_events` and the count equals the excess.
    pub fn push_event(&mut self, event: InputEvent)
        requires
            old(self).well_formed(),
            old(self).buffer@.len() > 0 ==> old(self).buffer@.last().qpc_ts <= event.qpc_ts,
        ensures
            final(self).well_formed(),
            final(self).max_events == old(self).max_events,
            old(self).buffer@.len() < old(self).max_events ==> final(self).buffer@ == old(
                self,
            ).buffer@.push(event) && final(self).dropped_events == old(self).dropped_events,
            old(self).buffer@.len() == old(self).max_events ==> final(self).buffer@ == old(
                self,
            ).buffer@.drop_first().push(event) && final(self).dropped_events
                == crate::compiler::sat_add64(old(self).dropped_events, 1),
    {
        if self.buffer.len() == self.max_events {
            let ghost pre = self.buffer@;
            self.buffer.pop_front();
            proof {
                assert(self.buffer@ =~= pre.drop_first());
            }
            self.dropped_events = self.dropped_events.saturating_add(1);
        }
        let ghost mid = self.buffer@;
        self.buffer.push_back(event);
        proof {
            assert forall|i: int, j: int| 0 <= i < j < self.buffer@.len()
                implies self.buffer@[i].qpc_ts <= self.buffer@[j].qpc_ts by {
                if j < mid.len() {
                    assert(self.buffer@[i] == mid[i] && self.buffer@[j] == mid[j]);
                } else {
                    assert(self.buffer@[j] == event);
                    if old(self).buffer@.len() > 0 {
                        assert(old(self).buffer@.last().qpc_ts <= event.qpc_ts);
                    }
                }
            }
        }
    }

    /// Hand out the events of `[start, end)`, in tick order. Events
    /// before the window are discarded; events at or past `end` stay
    /// queued for later windows.
    #[verifier::rlimit(60)]
    pub fn drain_events(&mut self, start: QpcTimestamp, end: QpcTimestamp) -> (out: Vec<
        InputEvent,
    >)
        requires
            old(self).well_formed(),
            start <= end,
        ensures
            final(self).well_formed(),
            final(self).max_events == old(self).max_events,
            final(self).dropped_events == old(self).dropped_events,
            out@ == window_events(old(self).buffer@, start, end),
            final(self).buffer@ == tail_events(old(self).buffer@, end),
            ts_sorted(out@),
            forall|i: int| 0 <= i < out@.len() ==> start <= #[trigger] out@[i].qpc_ts < end,
    {
        let ghost orig = self.buffer@;
        let mut out: Vec<InputEvent> = Vec::new();
        proof {
            assert(orig.skip(0) =~= orig);
        }
        // Discard everything before the window.
        loop
            invariant
                ts_sorted(self.buffer@),
                self.buffer@.len() <= self.max_events,
                self.max_events >= 1,
                self.dropped_events == old(self).dropped_events,
                self.max_events == old(self).max_events,
                exists|k: int|
                    {
                        &&& 0 <= k <= orig.len()
                        &&& self.buffer@ == #[trigger] orig.skip(k)
                        &&& forall|i: int| 0 <= i < k ==> orig[i].qpc_ts < start
                    },
            ensures
                ts_sorted(self.buffer@),
                self.buffer@.len() <= self.max_events,
                self.max_events >= 1,
                self.dropped_events == old(self).dropped_events,
                self.max_events == old(self).max_events,
                self.buffer@.len() > 0 ==> self.buffer@[0].qpc_ts >= start,
                exists|k: int|
                    {
                        &&& 0 <= k <= orig.len()
                        &&& self.buffer@ == #[trigger] orig.skip(k)
                        &&& forall|i: int| 0 <= i < k ==> orig[i].qpc_ts < start
                    },
            decreases self.buffer@.len(),
        {
            proof {
                assert(orig.skip(0) =~= orig);
            }
            if self.buffer.len() == 0 {
                break;
            }
            if self.buffer[0].qpc_ts >= start {
                break;
            }
            let ghost pre = self.buffer@;
            let ghost kpre = choose|k: int|
                {
                    &&& 0 <= k <= orig.len()
                    &&& pre == #[trigger] orig.skip(k)
                    &&& forall|i: int| 0 <= i < k ==> orig[i].qpc_ts < start
                };
            self.buffer.pop_front();
            proof {
                assert(self.buffer@ =~= orig.skip(kpre + 1));
                assert(orig[kpre] == pre[0]);
                assert forall|i: int, j: int| 0 <= i < j < self.buffer@.len()
                    implies self.buffer@[i].qpc_ts <= self.buffer@[j].qpc_ts by {
                    assert(self.buffer@[i] == pre[i + 1] && self.buffer@[j] == pre[j + 1]);
                }
            }
        }
        let ghost trimmed = self.buffer@;
        proof {
            assert(trimmed.skip(0) =~= trimmed);
            assert(trimmed.take(0) =~= Seq::<InputEvent>::empty());
            assert(out@ =~= trimmed.take(0));
        }
        // Hand out the window's events.
        loop
            invariant
                ts_sorted(self.buffer@),
                self.buffer@.len() <= self.max_events,
                self.max_events >= 1,
                self.dropped_events == old(self).dropped_events,
                self.max_events == old(self).max_events,
                exists|k: int|
                    {
                        &&& 0 <= k <= trimmed.len()
                        &&& self.buffer@ == #[trigger] trimmed.skip(k)
                        &&& out@ == trimmed.take(k)
                        &&& forall|i: int| 0 <= i < k ==> start <= #[trigger] trimmed[i].qpc_ts < end
                    },
                trimmed.len() > 0 ==> trimmed[0].qpc_ts >= start,
                ts_sorted(trimmed),
            ensures
                ts_sorted(self.buffer@),
                self.buffer@.len() <= self.max_events,
                self.max_events >= 1,
                self.dropped_events == old(self).dropped_events,
                self.max_events == old(self).max_events,
                self.buffer@.len() > 0 ==> self.buffer@[0].qpc_ts >= end,
                exists|k: int|
                    {
                        &&& 0 <= k <= trimmed.len()
                        &&& self.buffer@ == #[trigger] trimmed.skip(k)
                        &&& out@ == trimmed.take(k)
                        &&& forall|i: int| 0 <= i < k ==> start <= #[trigger] trimmed[i].qpc_ts < end
                    },
            decreases self.buffer@.len(),
        {
            proof {
                assert(trimmed.skip(0) =~= trimmed);
                assert(trimmed.take(0) =~= Seq::<InputEvent>::empty());
            }
            if self.buffer.len() == 0 {
                break;
            }
            if self.buffer[0].qpc_ts >= end {
                break;
            }
            let ghost pre = self.buffer@;
            let ghost kpre = choose|k: int|
                {
                    &&& 0 <= k <= trimmed.len()
                    &&& pre == #[trigger] trimmed.skip(k)
                    &&& out@ == trimmed.take(k)
                    &&& forall|i: int| 0 <= i < k ==> start <= #[trigger] trimmed[i].qpc_ts < end
                };
            let ev = self.buffer.pop_front();
            match ev {
                Some(e) => {
                    proof {
                        assert(trimmed[kpre] == pre[0]);
                        assert(trimmed[kpre].qpc_ts >= trimmed[0].qpc_ts);
                        assert(self.buffer@ =~= trimmed.skip(kpre + 1));
                        assert(trimmed.take(kpre + 1) =~= trimmed.take(kpre).push(trimmed[kpre]));
                        assert forall|i: int, j: int| 0 <= i < j < self.buffer@.len()
                            implies self.buffer@[i].qpc_ts <= self.buffer@[j].qpc_ts by {
                            assert(self.buffer@[i] == pre[i + 1] && self.buffer@[j] == pre[j + 1]);
                        }
                    }
                    out.push(e);
                },
                None => {},
            }
        }
        proof {
            let k1 = choose|k: int|
                {
                    &&& 0 <= k <= orig.len()
                    &&& trimmed == #[trigger] orig.skip(k)
                    &&& forall|i: int| 0 <= i < k ==> orig[i].qpc_ts < start
                };
            let k2 = choose|k: int|
                {
                    &&& 0 <= k <= trimmed.len()
                    &&& self.buffer@ == #[trigger] trimmed.skip(k)
                    &&& out@ == trimmed.take(k)
                    &&& forall|i: int| 0 <= i < k ==> start <= #[trigger] trimmed[i].qpc_ts < end
                };
            // The window's events form one contiguous segment of the
            // original tick-ordered buffer.
            assert(out@ =~= orig.subrange(k1, k1 + k2));
            assert forall|i: int| 0 <= i < k1 implies orig[i].qpc_ts < start by {
            }
            assert forall|i: int| k1 <= i < k1 + k2 implies start <= #[trigger] orig[i].qpc_ts
                < end by {
                assert(trimmed[i - k1] == orig[i]);
            }
            assert forall|i: int| k1 + k2 <= i < orig.len() implies orig[i].qpc_ts >= end by {
                assert(trimmed[i - k1] == orig[i]);
                if self.buffer@.len() > 0 {
                    assert(trimmed[i - k1].qpc_ts >= trimmed[k2].qpc_ts);
                } else {
                    assert(trimmed.skip(k2).len() == 0);
                }
            }
            lemma_sorted_window_slice(orig, start, end, k1, k1 + k2);
            assert(self.buffer@ =~= orig.skip(k1 + k2));
            lemma_sorted_tail_slice(orig, end, k1 + k2);
            assert forall|i: int, j: int| 0 <= i < j < out@.len()
                implies out@[i].qpc_ts <= out@[j].qpc_ts by {
                assert(out@[i] == orig[k1 + i] && out@[j] == orig[k1 + j]);
            }
        }
        out
    }
}

/// In a tick-ordered sequence whose segment `[k1, k2)` holds exactly the
/// ticks of `[start, end)`, that segment is the window's filter.
pub proof fn lemma_sorted_window_slice(
    s: Seq<InputEvent>,
    start: QpcTimestamp,
    end: QpcTimestamp,
    k1: int,
    k2: int,
)
    requires
        0 <= k1 <= k2 <= s.len(),
        forall|i: int| 0 <= i < k1 ==> s[i].qpc_ts < start,
        forall|i: int| k1 <= i < k2 ==> start <= #[trigger] s[i].qpc_ts < end,
        forall|i: int| k2 <= i < s.len() ==> s[i].qpc_ts >= end,
    ensures
        window_events(s, start, end) == s.subrange(k1, k2),
    decreases s.len(),
{
    reveal(Seq::filter);
    if s.len() == 0 {
        assert(window_events(s, start, end) =~= s.subrange(k1, k2));
    } else {
        let last = s.last();
        let d = s.drop_last();
        if k2 == s.len() {
            if k1 == k2 {
                // The last event lies before the window.
                lemma_sorted_window_slice(d, start, end, k1 - 1, k2 - 1);
                assert(window_events(s, start, end) == window_events(d, start, end));
                assert(d.subrange(k1 - 1, k2 - 1) =~= s.subrange(k1 - 1, k2 - 1));
                assert(s.subrange(k1 - 1, k2 - 1) =~= s.subrange(k1, k2));
            } else {
                // The last event lies inside the window.
                lemma_sorted_window_slice(d, start, end, k1, k2 - 1);
                assert(window_events(s, start, end) == window_events(d, start, end).push(last));
                assert(d.subrange(k1, k2 - 1) =~= s.subrange(k1, k2 - 1));
                assert(s.subrange(k1, k2) =~= s.subrange(k1, k2 - 1).push(last));
            }
        } else {
            // The last event lies past the window.
            lemma_sorted_window_slice(d, start, end, k1, k2);
            assert(window_events(s, start, end) == window_events(d, start, end));
            assert(d.subrange(k1, k2) =~= s.subrange(k1, k2));
        }
    }
}

/// In a tick-ordered sequence whose tail from `k` holds exactly the
/// ticks at or past `end`, that tail is the remainder's filter.
pub proof fn lemma_sorted_tail_slice(s: Seq<InputEvent>, end: QpcTimestamp, k: int)
    requires
        0 <= k <= s.len(),
        forall|i: int| 0 <= i < k ==> s[i].qpc_ts < end,
        forall|i: int| k <= i < s.len() ==> s[i].qpc_ts >= end,
    ensures
        tail_events(s, end) == s.skip(k),
    decreases s.len(),
{
    reveal(Seq::filter);
    if s.len() == 0 {
        assert(tail_events(s, end) =~= s.skip(k));
    } else {
        let last = s.last();
        let d = s.drop_last();
        if k == s.len() {
            lemma_sorted_tail_slice(d, end, k - 1);
            assert(tail_events(s, end) == tail_events(d, end));
            assert(d.skip(k - 1) =~= s.skip(k - 1).drop_last().skip(0)) by {
                assert(d.skip(k - 1) =~= Seq::<InputEvent>::empty());
                assert(s.skip(k - 1).drop_last().skip(0) =~= Seq::<InputEvent>::empty());
            }
            assert(s.skip(k) =~= Seq::<InputEvent>::empty());
        } else {
            lemma_sorted_tail_slice(d, end, k);
            assert(tail_events(s, end) == tail_events(d, end).push(last));
            assert(d.skip(k) =~= s.skip(k).drop_last());
            assert(s.skip(k) =~= s.skip(k).drop_last().push(last));
        }
    }
}

/// Consecutive half-open windows partition a tick-ordered stream: the
/// events of `[a, b)` followed by those of `[b, c)` are exactly the
/// events of `[a, c)`.
pub proof fn lemma_windows_partition(s: Seq<InputEvent>, a: QpcTimestamp, b: QpcTimestamp, c: QpcTimestamp)
    requires
        ts_sorted(s),
        a <= b <= c,
    ensures
        window_events(s, a, b) + window_events(s, b, c) == window_events(s, a, c),
    decreases s.len(),
{
    reveal(Seq::filter);
    if s.len() == 0 {
        assert(window_events(s, a, b) + window_events(s, b, c) =~= window_events(s, a, c));
    } else {
        let last = s.last();
        let d = s.drop_last();
        assert(ts_sorted(d)) by {
            assert forall|i: int, j: int| 0 <= i < j < d.len() implies d[i].qpc_ts
                <= d[j].qpc_ts by {
                assert(d[i] == s[i] && d[j] == s[j]);
            }
        }
        lemma_windows_partition(d, a, b, c);
        if b <= last.qpc_ts < c {
            assert(window_events(s, a, b) == window_events(d, a, b));
            assert(window_events(s, a, b) + window_events(s, b, c) =~= window_events(s, a, c));
        } else if a <= last.qpc_ts < b {
            // Everything before the last event also lies below `b`, so
            // the later window holds nothing.
            assert forall|i: int| 0 <= i < d.len() implies d[i].qpc_ts < b by {
                assert(s[i].qpc_ts <= last.qpc_ts);
            }
            lemma_low_window_empty(d, b, c);
            assert(window_events(s, b, c) == window_events(d, b, c));
            assert(window_events(s, a, b) + window_events(s, b, c) =~= window_events(s, a, c));
        } else {
            assert(window_events(s, a, b) == window_events(d, a, b));
            assert(window_events(s, b, c) == window_events(d, b, c));
            assert(window_events(s, a, b) + window_events(s, b, c) =~= window_events(s, a, c));
        }
    }
}

/// A window above every tick of the sequence holds nothing.
pub proof fn lemma_low_window_empty(s: Seq<InputEvent>, b: QpcTimestamp, c: QpcTimestamp)
    requires
        forall|i: int| 0 <= i < s.len() ==> s[i].qpc_ts < b,
    ensures
        window_events(s, b, c) == Seq::<InputEvent>::empty(),
    decreases s.len(),
{
    reveal(Seq::filter);
    if s.len() > 0 {
        let d = s.drop_last();
        assert(forall|i: int| 0 <= i < d.len() ==> d[i].qpc_ts < b);
        lemma_low_window_empty(d, b, c);
    }
}

/// Draining `[b, c)` after `[a, b)` sees only the first drain's
/// leftovers, and still returns exactly the events of `[b, c)`: nothing
/// is lost or duplicated between consecutive windows.
pub proof fn lemma_tail_preserves_window(s: Seq<InputEvent>, b: QpcTimestamp, c: QpcTimestamp)
    requires
        b <= c,
    ensures
        window_events(tail_events(s, b), b, c) == window_events(s, b, c),
    decreases s.len(),
{
    reveal(Seq::filter);
    if s.len() == 0 {
    } else {
        let last = s.last();
        let d = s.drop_last();
        lemma_tail_preserves_window(d, b, c);
        if last.qpc_ts >= b {
            assert(tail_events(s, b) == tail_events(d, b).push(last));
            assert(tail_events(d, b).push(last).drop_last() == tail_events(d, b));
            assert(window_events(tail_events(s, b), b, c) == if b <= last.qpc_ts < c {
                window_events(tail_events(d, b), b, c).push(last)
            } else {
                window_events(tail_events(d, b), b, c)
            });
        } else {
            assert(tail_events(s, b) == tail_events(d, b));
        }
    }
}

} // verus!
