//! Tumbling event-time window aggregation keyed by `(source, kind)`.

use vstd::prelude::*;

use crate::event::{Event, Payload};
use crate::floatbits::{bits_max, bits_min, float_max, float_min, FloatArith};
use crate::keyed::{
    distinct_keys, lemma_distinct_push, lemma_distinct_remove, lemma_distinct_update, lemma_to_map_absent,
    lemma_to_map_dom, lemma_to_map_index, to_map,
};
use crate::processing::{bump, inc, trunc_div, PipelineConfigError};
use crate::text::str_equal;

verus! {

/// Summary of one closed aggregation window. Statistics are binary64 bit
/// patterns.
#[derive(Debug, PartialEq)]
pub struct Aggregated {
    /// Source of the windowed events.
    pub source: String,
    /// Kind of the windowed events.
    pub kind: String,
    /// First millisecond of the window (`index * window_ms`).
    pub window_start_ms: i64,
    /// One past the last millisecond of the window (`(index + 1) * window_ms`).
    pub window_end_ms: i64,
    /// Number of values in the window.
    pub count: u64,
    /// Smallest value (bit pattern).
    pub min: u64,
    /// Largest value (bit pattern).
    pub max: u64,
    /// Sum of the values (bit pattern).
    pub sum: u64,
    /// `sum / count` (bit pattern).
    pub mean: u64,
    /// Last value accumulated in the window (bit pattern).
    pub last: u64,
}

impl Clone for Aggregated {
    fn clone(&self) -> (r: Self)
        ensures
            r == *self,
    {
        Aggregated {
            source: self.source.clone(),
            kind: self.kind.clone(),
            window_start_ms: self.window_start_ms,
            window_end_ms: self.window_end_ms,
            count: self.count,
            min: self.min,
            max: self.max,
            sum: self.sum,
            mean: self.mean,
            last: self.last,
        }
    }
}

/// The aggregation key of an event or summary.
pub type WindowKey = (Seq<char>, Seq<char>);

/// What the verified core knows of an open window: its index, how many
/// values it holds, their minimum, maximum and last value, and their
/// running sum.
pub struct WindowStats {
    pub index: i64,
    pub count: u64,
    pub min: u64,
    pub max: u64,
    pub sum: u64,
    pub last: u64,
}

/// A window opened by `value` at `index`.
pub open spec fn fresh_stats(index: i64, value: u64) -> WindowStats {
    WindowStats { index, count: 1, min: value, max: value, sum: value, last: value }
}

/// A window after absorbing `value`, with `sum` the running sum plus
/// `value`.
pub open spec fn absorbed(w: WindowStats, value: u64, sum: u64) -> WindowStats {
    WindowStats {
        index: w.index,
        count: inc(w.count),
        min: float_min(w.min, value),
        max: float_max(w.max, value),
        sum,
        last: value,
    }
}

/// The summary fields a closed window determines (all but the mean, which
/// is the sum over the count).
pub open spec fn summarizes(s: Aggregated, key: WindowKey, w: WindowStats, window_ms: i64) -> bool {
    &&& s.source@ == key.0
    &&& s.kind@ == key.1
    &&& s.window_start_ms == w.index * window_ms
    &&& s.window_end_ms == (w.index + 1) * window_ms
    &&& s.count == w.count
    &&& s.min == w.min
    &&& s.max == w.max
    &&& s.sum == w.sum
    &&& s.last == w.last
}

/// `index * window_ms` is a valid `i64`.
pub open spec fn index_fits(index: i64, window_ms: i64) -> bool {
    i64::MIN <= index * window_ms <= i64::MAX
}

/// One accumulator per `(source, kind)` window.
#[derive(Debug)]
struct Window {
    source: String,
    kind: String,
    index: i64,
    count: u64,
    min: u64,
    max: u64,
    sum: u64,
    last: u64,
}

impl Window {
    spec fn key(&self) -> WindowKey {
        (self.source@, self.kind@)
    }

    spec fn stats(&self) -> WindowStats {
        WindowStats { index: self.index, count: self.count, min: self.min, max: self.max, sum: self.sum, last: self.last }
    }

    spec fn pair(&self) -> (WindowKey, WindowStats) {
        (self.key(), self.stats())
    }
}

/// The last closed window index of one key.
#[derive(Debug)]
struct ClosedMark {
    source: String,
    kind: String,
    index: i64,
}

impl ClosedMark {
    spec fn pair(&self) -> (WindowKey, i64) {
        ((self.source@, self.kind@), self.index)
    }
}

spec fn window_pairs(ws: Seq<Window>) -> Seq<(WindowKey, WindowStats)> {
    ws.map_values(|w: Window| w.pair())
}

spec fn closed_pairs(cs: Seq<ClosedMark>) -> Seq<(WindowKey, i64)> {
    cs.map_values(|c: ClosedMark| c.pair())
}

/// What the aggregator did with one event.
#[derive(Debug)]
pub enum AggregateOutcome {
    /// Non-numeric event: aggregation does not apply; emit unchanged.
    Passthrough(Event),
    /// Numeric event absorbed into an open (or new) window; nothing emits.
    Accumulated,
    /// The event closed its key's open window; the summary is attached and
    /// the event itself was absorbed into the new open window.
    Closed(Vec<Aggregated>),
    /// The event arrived after its key's window had already closed; dropped.
    Late,
}

/// Tumbling event-time windows; numerics accumulate, everything else passes
/// through unchanged.
///
/// Window index = `timestamp / window_ms` (integer division truncating
/// toward zero; for positive timestamps, the floor); a timestamp exactly on
/// a boundary belongs to the newer window. Open windows are capped:
/// admitting a new window beyond `max_open_windows` evicts a window of the
/// smallest index, which is dropped, never emitted, because it never closed.
/// Sums and means are computed by the supplied [`FloatArith`].
#[derive(Debug)]
pub struct WindowAggregator<F: FloatArith> {
    windows: Vec<Window>,
    capacity: usize,
    window_ms: i64,
    last_closed: Vec<ClosedMark>,
    late_dropped: u64,
    windows_evicted: u64,
    arith: F,
}

/// What one `accept` call does: `pre` and `post` are the aggregator before
/// and after, `r` the outcome.
pub open spec fn accept_step<F: FloatArith>(
    pre: WindowAggregator<F>,
    post: WindowAggregator<F>,
    event: Event,
    r: AggregateOutcome,
) -> bool {
    &&& post.wf()
    &&& post.window_len() == pre.window_len()
    &&& post.capacity() == pre.capacity()
    &&& post.arith() == pre.arith()
    &&& match event.payload {
        Payload::Numeric { value_bits } => {
            let key = (event.source@, event.kind@);
            let w = pre.window_len();
            let index = trunc_div(event.timestamp as int, w as int) as i64;
            let open = pre.open_map();
            let closed = pre.closed_map();
            if closed.contains_key(key) && index <= closed[key] {
                &&& r is Late
                &&& post.late_count() == inc(pre.late_count())
                &&& post.open_map() == open
                &&& post.closed_map() == closed
                &&& post.open_count() == pre.open_count()
                &&& post.evicted_count() == pre.evicted_count()
            } else if open.contains_key(key) && open[key].index < index {
                &&& r matches AggregateOutcome::Closed(summaries)
                &&& summaries@.len() == 1
                &&& summarizes(summaries@[0], key, open[key], w)
                &&& call_ensures(F::mean, (&pre.arith(), open[key].sum, open[key].count), summaries@[0].mean)
                &&& post.closed_map() == closed.insert(key, open[key].index)
                &&& post.open_map() == open.insert(key, fresh_stats(index, value_bits))
                &&& post.open_count() == pre.open_count()
                &&& post.late_count() == pre.late_count()
                &&& post.evicted_count() == pre.evicted_count()
            } else if open.contains_key(key) {
                &&& r is Accumulated
                &&& exists|sum: u64|
                    {
                        &&& #[trigger] call_ensures(F::add, (&pre.arith(), open[key].sum, value_bits), sum)
                        &&& post.open_map() == open.insert(key, absorbed(open[key], value_bits, sum))
                    }
                &&& post.closed_map() == closed
                &&& post.open_count() == pre.open_count()
                &&& post.late_count() == pre.late_count()
                &&& post.evicted_count() == pre.evicted_count()
            } else if pre.open_count() == pre.capacity() {
                &&& r is Accumulated
                &&& post.closed_map() == closed
                &&& post.open_count() == pre.open_count()
                &&& post.late_count() == pre.late_count()
                &&& post.evicted_count() == inc(pre.evicted_count())
                &&& exists|victim: WindowKey|
                    #![trigger open[victim]]
                    {
                        &&& open.contains_key(victim)
                        &&& forall|k: WindowKey| #[trigger] open.contains_key(k) ==> open[victim].index <= open[k].index
                        &&& post.open_map() == open.remove(victim).insert(key, fresh_stats(index, value_bits))
                    }
            } else {
                &&& r is Accumulated
                &&& post.open_map() == open.insert(key, fresh_stats(index, value_bits))
                &&& post.closed_map() == closed
                &&& post.open_count() == pre.open_count() + 1
                &&& post.late_count() == pre.late_count()
                &&& post.evicted_count() == pre.evicted_count()
            }
        },
        _ => {
            &&& r == AggregateOutcome::Passthrough(event)
            &&& post.open_map() == pre.open_map()
            &&& post.closed_map() == pre.closed_map()
            &&& post.open_count() == pre.open_count()
            &&& post.late_count() == pre.late_count()
            &&& post.evicted_count() == pre.evicted_count()
        },
    }
}

impl<F: FloatArith> WindowAggregator<F> {
    /// The open windows, by key.
    pub closed spec fn open_map(&self) -> Map<WindowKey, WindowStats> {
        to_map(window_pairs(self.windows@))
    }

    /// The index of the last closed window, by key.
    pub closed spec fn closed_map(&self) -> Map<WindowKey, i64> {
        to_map(closed_pairs(self.last_closed@))
    }

    /// Number of open windows.
    pub closed spec fn open_count(&self) -> nat {
        self.windows@.len()
    }

    /// The arithmetic sums and means come from.
    pub closed spec fn arith(&self) -> F {
        self.arith
    }

    /// Window length in milliseconds.
    pub closed spec fn window_len(&self) -> i64 {
        self.window_ms
    }

    /// Maximum number of open windows.
    pub closed spec fn capacity(&self) -> nat {
        self.capacity as nat
    }

    /// Late events dropped so far.
    pub closed spec fn late_count(&self) -> u64 {
        self.late_dropped
    }

    /// Open windows evicted so far.
    pub closed spec fn evicted_count(&self) -> u64 {
        self.windows_evicted
    }

    /// Internal consistency: positive length and capacity, at most
    /// `capacity` open windows, one record per key, and window bounds that
    /// fit in `i64`.
    pub closed spec fn wf(&self) -> bool {
        &&& self.window_ms > 0
        &&& self.capacity > 0
        &&& self.windows@.len() <= self.capacity
        &&& distinct_keys(window_pairs(self.windows@))
        &&& distinct_keys(closed_pairs(self.last_closed@))
        &&& forall|i: int| 0 <= i < self.windows@.len() ==> index_fits(#[trigger] self.windows@[i].index, self.window_ms)
    }

    /// Creates an aggregator with `window_ms`-long windows, holding at most
    /// `max_open_windows` open windows across all keys.
    pub fn new(window_ms: i64, max_open_windows: usize, arith: F) -> (r: Result<Self, PipelineConfigError>)
        ensures
            match r {
                Ok(a) => {
                    &&& window_ms > 0 && max_open_windows > 0
                    &&& a.wf()
                    &&& a.window_len() == window_ms
                    &&& a.capacity() == max_open_windows
                    &&& a.open_map() == Map::<WindowKey, WindowStats>::empty()
                    &&& a.closed_map() == Map::<WindowKey, i64>::empty()
                    &&& a.open_count() == 0
                    &&& a.late_count() == 0
                    &&& a.evicted_count() == 0
                },
                Err(e) => if window_ms <= 0 {
                    e == PipelineConfigError::InvalidWindowLength(window_ms)
                } else {
                    max_open_windows == 0 && e == (PipelineConfigError::InvalidCapacity {
                        field: "max_open_windows",
                        value: max_open_windows,
                    })
                },
            },
    {
        if window_ms <= 0 {
            return Err(PipelineConfigError::InvalidWindowLength(window_ms));
        }
        if max_open_windows == 0 {
            return Err(
                PipelineConfigError::InvalidCapacity { field: "max_open_windows", value: max_open_windows },
            );
        }
        let a = WindowAggregator {
            windows: Vec::new(),
            capacity: max_open_windows,
            window_ms,
            last_closed: Vec::new(),
            late_dropped: 0,
            windows_evicted: 0,
            arith,
        };
        assert(window_pairs(a.windows@) =~= Seq::empty());
        assert(closed_pairs(a.last_closed@) =~= Seq::empty());
        Ok(a)
    }

    fn find_window(&self, source: &str, kind: &str) -> (r: Option<usize>)
        ensures
            match r {
                Some(i) => i < self.windows@.len() && self.windows@[i as int].key() == (source@, kind@),
                None => forall|i: int| 0 <= i < self.windows@.len() ==> self.windows@[i].key() != (source@, kind@),
            },
    {
        let mut i: usize = 0;
        while i < self.windows.len()
            invariant
                i <= self.windows@.len(),
                forall|j: int| 0 <= j < i ==> self.windows@[j].key() != (source@, kind@),
            decreases self.windows@.len() - i,
        {
            if str_equal(self.windows[i].source.as_str(), source) && str_equal(self.windows[i].kind.as_str(), kind) {
                return Some(i);
            }
            i += 1;
        }
        None
    }

    fn find_closed(&self, source: &str, kind: &str) -> (r: Option<usize>)
        ensures
            match r {
                Some(i) => i < self.last_closed@.len() && self.last_closed@[i as int].pair().0 == (source@, kind@),
                None => forall|i: int| 0 <= i < self.last_closed@.len() ==> self.last_closed@[i].pair().0 != (source@, kind@),
            },
    {
        let mut i: usize = 0;
        while i < self.last_closed.len()
            invariant
                i <= self.last_closed@.len(),
                forall|j: int| 0 <= j < i ==> self.last_closed@[j].pair().0 != (source@, kind@),
            decreases self.last_closed@.len() - i,
        {
            if str_equal(self.last_closed[i].source.as_str(), source) && str_equal(
                self.last_closed[i].kind.as_str(),
                kind,
            ) {
                return Some(i);
            }
            i += 1;
        }
        None
    }

    /// The position of an open window of the smallest index.
    fn oldest_window(&self) -> (r: usize)
        requires
            self.windows@.len() > 0,
        ensures
            r < self.windows@.len(),
            forall|j: int| 0 <= j < self.windows@.len() ==> self.windows@[r as int].index <= #[trigger] self.windows@[j].index,
    {
        let mut best: usize = 0;
        let mut i: usize = 1;
        while i < self.windows.len()
            invariant
                1 <= i <= self.windows@.len(),
                best < i,
                forall|j: int| 0 <= j < i ==> self.windows@[best as int].index <= #[trigger] self.windows@[j].index,
            decreases self.windows@.len() - i,
        {
            if self.windows[i].index < self.windows[best].index {
                best = i;
            }
            i += 1;
        }
        best
    }

    /// Processes one event; see [`AggregateOutcome`].
    pub fn accept(&mut self, event: Event) -> (r: AggregateOutcome)
        requires
            old(self).wf(),
        ensures
            accept_step(*old(self), *final(self), event, r),
    {
        let value = match &event.payload {
            Payload::Numeric { value_bits } => *value_bits,
            _ => return AggregateOutcome::Passthrough(event),
        };
        let ghost key = (event.source@, event.kind@);
        let ghost open = self.open_map();
        let ghost closed = self.closed_map();
        let index = event.timestamp / self.window_ms;
        proof {
            lemma_index_fits(event.timestamp, self.window_ms);
        }

        // Late check first: anything at or before the key's last closed
        // window is dropped.
        let closed_pos = self.find_closed(event.source.as_str(), event.kind.as_str());
        proof {
            match closed_pos {
                Some(p) => lemma_to_map_index(closed_pairs(self.last_closed@), p as int),
                None => lemma_to_map_absent(closed_pairs(self.last_closed@), key),
            }
        }
        if let Some(p) = closed_pos {
            if index <= self.last_closed[p].index {
                self.late_dropped = bump(self.late_dropped);
                return AggregateOutcome::Late;
            }
        }

        let open_pos = self.find_window(event.source.as_str(), event.kind.as_str());
        proof {
            match open_pos {
                Some(p) => lemma_to_map_index(window_pairs(self.windows@), p as int),
                None => lemma_to_map_absent(window_pairs(self.windows@), key),
            }
        }
        match open_pos {
            Some(p) => {
                if self.windows[p].index < index {
                    // Close-on-advance: a newer index closes the key's open window.
                    let ghost old_windows = self.windows@;
                    let closed_window = self.windows.remove(p);
                    proof {
                        assert(window_pairs(self.windows@) =~= window_pairs(old_windows).remove(p as int));
                        lemma_distinct_remove(window_pairs(old_windows), p as int);
                    }
                    proof {
                        assert(index_fits(old_windows[p as int].index, self.window_ms));
                        lemma_next_fits(closed_window.index, index, self.window_ms);
                    }
                    self.mark_closed(closed_pos, &closed_window);
                    let summary = self.close(closed_window);
                    let fresh = Window {
                        source: event.source,
                        kind: event.kind,
                        index,
                        count: 1,
                        min: value,
                        max: value,
                        sum: value,
                        last: value,
                    };
                    let ghost before_push = self.windows@;
                    self.windows.push(fresh);
                    proof {
                        assert(window_pairs(self.windows@) =~= window_pairs(before_push).push((key, fresh_stats(index, value))));
                        lemma_distinct_push(window_pairs(before_push), key, fresh_stats(index, value));
                        assert(open.remove(key).insert(key, fresh_stats(index, value)) =~= open.insert(key, fresh_stats(index, value)));
                        assert forall|i: int| 0 <= i < self.windows@.len() implies index_fits(#[trigger] self.windows@[i].index, self.window_ms) by {
                            if i < before_push.len() {
                                assert(self.windows@[i] == before_push[i]);
                                if i < p {
                                    assert(before_push[i] == old_windows[i]);
                                } else {
                                    assert(before_push[i] == old_windows[i + 1]);
                                }
                            }
                        }
                    }
                    let mut summaries = Vec::new();
                    summaries.push(summary);
                    return AggregateOutcome::Closed(summaries);
                }
                // Absorb into the key's open window.
                let ghost old_windows = self.windows@;
                let arith = &self.arith;
                let w = &mut self.windows[p];
                w.count = bump(w.count);
                w.min = bits_min(w.min, value);
                w.max = bits_max(w.max, value);
                let sum = arith.add(w.sum, value);
                w.sum = sum;
                w.last = value;
                proof {
                    assert(window_pairs(self.windows@) =~= window_pairs(old_windows).update(
                        p as int,
                        (key, absorbed(open[key], value, sum)),
                    ));
                    lemma_distinct_update(window_pairs(old_windows), p as int, absorbed(open[key], value, sum));
                    assert forall|i: int| 0 <= i < self.windows@.len() implies index_fits(#[trigger] self.windows@[i].index, self.window_ms) by {
                        assert(self.windows@[i].index == old_windows[i].index);
                    }
                }
                AggregateOutcome::Accumulated
            },
            None => {
                // Enforce the global open-window cap before opening a new
                // window: a window of the smallest index is evicted and
                // dropped without emitting.
                let ghost victim_key: WindowKey = key;
                if self.windows.len() == self.capacity {
                    let v = self.oldest_window();
                    let ghost old_windows = self.windows@;
                    proof {
                        victim_key = old_windows[v as int].key();
                        lemma_to_map_index(window_pairs(old_windows), v as int);
                        assert forall|k: WindowKey| #[trigger] open.contains_key(k) implies open[victim_key].index <= open[k].index by {
                            lemma_to_map_dom(window_pairs(old_windows), k);
                            let j = choose|j: int| 0 <= j < window_pairs(old_windows).len() && window_pairs(old_windows)[j].0 == k;
                            lemma_to_map_index(window_pairs(old_windows), j);
                        }
                    }
                    let _ = self.windows.remove(v);
                    proof {
                        assert(window_pairs(self.windows@) =~= window_pairs(old_windows).remove(v as int));
                        lemma_distinct_remove(window_pairs(old_windows), v as int);
                        assert forall|i: int| 0 <= i < self.windows@.len() implies index_fits(#[trigger] self.windows@[i].index, self.window_ms) by {
                            if i < v {
                                assert(self.windows@[i] == old_windows[i]);
                            } else {
                                assert(self.windows@[i] == old_windows[i + 1]);
                            }
                        }
                        assert forall|i: int| 0 <= i < window_pairs(self.windows@).len() implies window_pairs(self.windows@)[i].0 != key by {
                            if i < v {
                                assert(self.windows@[i] == old_windows[i]);
                            } else {
                                assert(self.windows@[i] == old_windows[i + 1]);
                            }
                        }
                        lemma_to_map_absent(window_pairs(self.windows@), key);
                    }
                    self.windows_evicted = bump(self.windows_evicted);
                }
                let fresh = Window {
                    source: event.source,
                    kind: event.kind,
                    index,
                    count: 1,
                    min: value,
                    max: value,
                    sum: value,
                    last: value,
                };
                let ghost before_push = self.windows@;
                self.windows.push(fresh);
                proof {
                    assert(window_pairs(self.windows@) =~= window_pairs(before_push).push((key, fresh_stats(index, value))));
                    lemma_distinct_push(window_pairs(before_push), key, fresh_stats(index, value));
                    assert forall|i: int| 0 <= i < self.windows@.len() implies index_fits(#[trigger] self.windows@[i].index, self.window_ms) by {
                        if i < before_push.len() {
                            assert(self.windows@[i] == before_push[i]);
                        }
                    }
                }
                AggregateOutcome::Accumulated
            },
        }
    }

    /// Records `w.index` as the key's last closed window.
    fn mark_closed(&mut self, pos: Option<usize>, w: &Window)
        requires
            distinct_keys(closed_pairs(old(self).last_closed@)),
            match pos {
                Some(p) => p < old(self).last_closed@.len() && old(self).last_closed@[p as int].pair().0 == w.key(),
                None => forall|i: int| 0 <= i < old(self).last_closed@.len() ==> old(self).last_closed@[i].pair().0 != w.key(),
            },
        ensures
            distinct_keys(closed_pairs(final(self).last_closed@)),
            to_map(closed_pairs(final(self).last_closed@)) == to_map(closed_pairs(old(self).last_closed@)).insert(w.key(), w.index),
            final(self).windows == old(self).windows,
            final(self).window_ms == old(self).window_ms,
            final(self).capacity == old(self).capacity,
            final(self).late_dropped == old(self).late_dropped,
            final(self).windows_evicted == old(self).windows_evicted,
            final(self).arith == old(self).arith,
    {
        let ghost before = self.last_closed@;
        match pos {
            Some(p) => {
                self.last_closed[p].index = w.index;
                proof {
                    assert(closed_pairs(self.last_closed@) =~= closed_pairs(before).update(p as int, (w.key(), w.index)));
                    lemma_distinct_update(closed_pairs(before), p as int, w.index);
                }
            },
            None => {
                self.last_closed.push(ClosedMark { source: w.source.clone(), kind: w.kind.clone(), index: w.index });
                proof {
                    assert(closed_pairs(self.last_closed@) =~= closed_pairs(before).push((w.key(), w.index)));
                    lemma_to_map_absent(closed_pairs(before), w.key());
                    lemma_distinct_push(closed_pairs(before), w.key(), w.index);
                }
            },
        }
    }

    /// The summary of a window that closed.
    fn close(&self, w: Window) -> (s: Aggregated)
        requires
            self.window_ms > 0,
            index_fits(w.index, self.window_ms),
            w.index < i64::MAX,
            index_fits((w.index + 1) as i64, self.window_ms),
        ensures
            summarizes(s, w.key(), w.stats(), self.window_ms),
            call_ensures(F::mean, (&self.arith, w.sum, w.count), s.mean),
    {
        let mean = self.arith.mean(w.sum, w.count);
        Aggregated {
            source: w.source,
            kind: w.kind,
            window_start_ms: w.index * self.window_ms,
            window_end_ms: (w.index + 1) * self.window_ms,
            count: w.count,
            min: w.min,
            max: w.max,
            sum: w.sum,
            mean,
            last: w.last,
        }
    }

    /// Number of currently open windows (bounded by `max_open_windows`).
    pub fn open_windows(&self) -> (r: usize)
        ensures
            r == self.open_count(),
    {
        self.windows.len()
    }

    /// Late events dropped so far.
    pub fn late_dropped(&self) -> (r: u64)
        ensures
            r == self.late_count(),
    {
        self.late_dropped
    }

    /// Open windows evicted by the capacity cap so far.
    pub fn windows_evicted(&self) -> (r: u64)
        ensures
            r == self.evicted_count(),
    {
        self.windows_evicted
    }

    /// Law: the number of open windows never exceeds the configured cap.
    pub proof fn law_open_windows_bounded(&self)
        requires
            self.wf(),
        ensures
            self.open_count() <= self.capacity(),
    {
    }
}

/// The event is numeric, not late, and its key has no open window: it
/// opens a new window.
pub open spec fn opens_window<F: FloatArith>(pre: WindowAggregator<F>, event: Event) -> bool {
    let key = (event.source@, event.kind@);
    let index = trunc_div(event.timestamp as int, pre.window_len() as int) as i64;
    &&& event.payload is Numeric
    &&& !(pre.closed_map().contains_key(key) && index <= pre.closed_map()[key])
    &&& !pre.open_map().contains_key(key)
}

/// Apart from the window opened for `key`, `post` holds the open windows
/// of `pre` less one of smallest index.
pub open spec fn evicted_smallest<F: FloatArith>(pre: WindowAggregator<F>, post: WindowAggregator<F>, key: WindowKey) -> bool {
    let open = pre.open_map();
    exists|victim: WindowKey|
        #![trigger open[victim]]
        {
            &&& open.contains_key(victim)
            &&& forall|x: WindowKey| #[trigger] open.contains_key(x) ==> open[victim].index <= open[x].index
            &&& post.open_map().remove(key) == open.remove(victim)
        }
}

/// Every state of a run of `accept` calls has the first state's capacity.
proof fn lemma_run_capacity<F: FloatArith>(trace: Seq<WindowAggregator<F>>, events: Seq<Event>, outcomes: Seq<AggregateOutcome>, k: int)
    requires
        trace.len() == events.len() + 1,
        outcomes.len() == events.len(),
        forall|i: int| 0 <= i < events.len() ==> #[trigger] accept_step(trace[i], trace[i + 1], events[i], outcomes[i]),
        0 <= k < trace.len(),
    ensures
        trace[k].capacity() == trace[0].capacity(),
    decreases k,
{
    if k > 0 {
        lemma_run_capacity(trace, events, outcomes, k - 1);
        let j = k - 1;
        assert(accept_step(trace[j], trace[j + 1], events[j], outcomes[j]));
    }
}

/// Law (window cap): over any run of `accept` calls from a well-formed
/// aggregator, the cap never changes and the open windows never exceed
/// it; an event that must open a window while the cap is reached drops
/// exactly one open window of smallest index, which is not emitted, and
/// adds one to the eviction counter.
pub proof fn law_window_cap<F: FloatArith>(trace: Seq<WindowAggregator<F>>, events: Seq<Event>, outcomes: Seq<AggregateOutcome>)
    requires
        trace.len() == events.len() + 1,
        outcomes.len() == events.len(),
        trace[0].wf(),
        forall|i: int| 0 <= i < events.len() ==> #[trigger] accept_step(trace[i], trace[i + 1], events[i], outcomes[i]),
    ensures
        forall|k: int|
            0 <= k < trace.len() ==> (#[trigger] trace[k]).capacity() == trace[0].capacity() && trace[k].open_count()
                <= trace[0].capacity(),
        forall|i: int|
            0 <= i < events.len() && #[trigger] opens_window(trace[i], events[i]) && trace[i].open_count() == trace[i].capacity()
                ==> {
                let open = trace[i].open_map();
                let key = (events[i].source@, events[i].kind@);
                &&& outcomes[i] is Accumulated
                &&& trace[i + 1].open_count() == trace[i].open_count()
                &&& trace[i + 1].evicted_count() == inc(trace[i].evicted_count())
                &&& evicted_smallest(trace[i], trace[i + 1], key)
            },
{
    assert forall|k: int| 0 <= k < trace.len() implies (#[trigger] trace[k]).capacity() == trace[0].capacity()
        && trace[k].open_count() <= trace[0].capacity() by {
        lemma_run_capacity(trace, events, outcomes, k);
        if k == 0 {
            trace[0].law_open_windows_bounded();
        } else {
            let j = k - 1;
            assert(accept_step(trace[j], trace[j + 1], events[j], outcomes[j]));
            trace[k].law_open_windows_bounded();
        }
    }
    assert forall|i: int|
        0 <= i < events.len() && #[trigger] opens_window(trace[i], events[i]) && trace[i].open_count() == trace[i].capacity()
        implies {
            let open = trace[i].open_map();
            let key = (events[i].source@, events[i].kind@);
            &&& outcomes[i] is Accumulated
            &&& trace[i + 1].open_count() == trace[i].open_count()
            &&& trace[i + 1].evicted_count() == inc(trace[i].evicted_count())
            &&& evicted_smallest(trace[i], trace[i + 1], key)
        } by {
        assert(accept_step(trace[i], trace[i + 1], events[i], outcomes[i]));
        let open = trace[i].open_map();
        let key = (events[i].source@, events[i].kind@);
        let index = trunc_div(events[i].timestamp as int, trace[i].window_len() as int) as i64;
        let value_bits = events[i].payload->value_bits;
        let victim = choose|victim: WindowKey|
            #![trigger open[victim]]
            {
                &&& open.contains_key(victim)
                &&& forall|k: WindowKey| #[trigger] open.contains_key(k) ==> open[victim].index <= open[k].index
                &&& trace[i + 1].open_map() == open.remove(victim).insert(key, fresh_stats(index, value_bits))
            };
        assert(trace[i + 1].open_map().remove(key) =~= open.remove(victim));
        assert(open.contains_key(victim));
    }
}

/// The window index of a timestamp fits: `index * window_ms` is a valid
/// `i64`, and so is `(index + 1) * window_ms` for any smaller index.
pub proof fn lemma_index_fits(ts: i64, window_ms: i64)
    requires
        window_ms > 0,
    ensures
        index_fits(trunc_div(ts as int, window_ms as int) as i64, window_ms),
        trunc_div(ts as int, window_ms as int) == trunc_div(ts as int, window_ms as int) as i64,
{
    let q = trunc_div(ts as int, window_ms as int);
    if ts >= 0 {
        assert(q * window_ms <= ts) by (nonlinear_arith)
            requires
                q == ts as int / window_ms as int,
                ts >= 0,
                window_ms > 0,
        ;
        assert(q >= 0) by (nonlinear_arith)
            requires
                q == ts as int / window_ms as int,
                ts >= 0,
                window_ms > 0,
        ;
        assert(q <= ts) by (nonlinear_arith)
            requires
                q == ts as int / window_ms as int,
                ts >= 0,
                window_ms > 0,
        ;
        assert(q * window_ms >= 0) by (nonlinear_arith)
            requires
                q >= 0,
                window_ms > 0,
        ;
    } else {
        let n = -(ts as int);
        let d = n / window_ms as int;
        assert(d * window_ms <= n) by (nonlinear_arith)
            requires
                d == n / window_ms as int,
                n > 0,
                window_ms > 0,
        ;
        assert(d >= 0 && d <= n) by (nonlinear_arith)
            requires
                d == n / window_ms as int,
                n > 0,
                window_ms > 0,
        ;
        assert(d * window_ms >= 0) by (nonlinear_arith)
            requires
                d >= 0,
                window_ms > 0,
        ;
        assert(q == -d);
        assert(q * window_ms == -(d * window_ms)) by (nonlinear_arith)
            requires
                q == -d,
        ;
    }
}

/// If `index * w` fits and a window index is strictly below a fitting
/// index, then `(index + 1) * w` fits as well.
pub proof fn lemma_next_fits(index: i64, later: i64, w: i64)
    requires
        w > 0,
        index < later,
        index_fits(index, w),
        index_fits(later, w),
    ensures
        index < i64::MAX,
        index_fits((index + 1) as i64, w),
{
    if index >= 0 {
        assert((index + 1) * w <= later * w) by (nonlinear_arith)
            requires
                index + 1 <= later,
                w > 0,
                index >= 0,
        ;
        assert((index + 1) * w >= 0) by (nonlinear_arith)
            requires
                index >= 0,
                w > 0,
        ;
    } else {
        assert((index + 1) * w <= 0) by (nonlinear_arith)
            requires
                index < 0,
                w > 0,
        ;
        assert((index + 1) * w >= index * w) by (nonlinear_arith)
            requires
                w > 0,
        ;
    }
}

} // verus!
