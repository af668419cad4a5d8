//! Deadband change detection over the aggregated stream.

use vstd::prelude::*;

use crate::floatbits::{bits_is_finite, bits_le, bits_lt, float_le, float_lt, is_finite, FloatArith, ZERO_BITS};
use crate::keyed::{
    distinct_keys, lemma_distinct_push, lemma_distinct_remove, lemma_distinct_update, lemma_to_map_absent,
    lemma_to_map_index, to_map,
};
use crate::processing::aggregate::{Aggregated, WindowKey};
use crate::processing::{bump, inc, PipelineConfigError};
use crate::text::str_equal;

verus! {

/// The last emitted mean of one key.
#[derive(Debug)]
struct LastEmitted {
    source: String,
    kind: String,
    mean: u64,
}

impl LastEmitted {
    spec fn pair(&self) -> (WindowKey, u64) {
        ((self.source@, self.kind@), self.mean)
    }
}

spec fn emitted_pairs(s: Seq<LastEmitted>) -> Seq<(WindowKey, u64)> {
    s.map_values(|e: LastEmitted| e.pair())
}

/// What the detector did with one summary.
#[derive(Debug)]
pub enum ChangeOutcome {
    /// The summary is meaningful; emit it.
    Emit(Aggregated),
    /// The summary stayed inside the deadband; suppressed.
    Suppressed,
}

/// A valid deadband: finite and not below zero.
pub open spec fn valid_min_delta(bits: u64) -> bool {
    is_finite(bits) && !float_lt(bits, ZERO_BITS)
}

/// Deadband filter for window summaries.
///
/// Keyed by `(source, kind)`: the first summary for a key is always
/// emitted; later summaries are emitted only when the mean moved by at
/// least `min_delta` from the last emitted mean. State is bounded with FIFO
/// eviction (by first emission), counted. The distance between means is
/// computed by the supplied [`FloatArith`].
#[derive(Debug)]
pub struct ChangeDetector<F: FloatArith> {
    last_emitted: Vec<LastEmitted>,
    capacity: usize,
    min_delta: u64,
    suppressed: u64,
    states_evicted: u64,
    arith: F,
}

/// What one `accept` call does: `pre` and `post` are the detector before and
/// after, `r` the outcome.
pub open spec fn change_step<F: FloatArith>(
    pre: ChangeDetector<F>,
    post: ChangeDetector<F>,
    summary: Aggregated,
    r: ChangeOutcome,
) -> bool {
    &&& post.wf()
    &&& post.capacity() == pre.capacity()
    &&& post.deadband() == pre.deadband()
    &&& post.arith() == pre.arith()
    &&& {
        let key = (summary.source@, summary.kind@);
        let state = pre.state_map();
        let order = pre.key_order();
        if !state.contains_key(key) {
            &&& r == ChangeOutcome::Emit(summary)
            &&& post.suppressed_count() == pre.suppressed_count()
            &&& if order.len() == pre.capacity() {
                &&& post.state_map() == state.remove(order[0]).insert(key, summary.mean)
                &&& post.key_order() == order.drop_first().push(key)
                &&& post.evicted_count() == inc(pre.evicted_count())
            } else {
                &&& post.state_map() == state.insert(key, summary.mean)
                &&& post.key_order() == order.push(key)
                &&& post.evicted_count() == pre.evicted_count()
            }
        } else {
            &&& post.key_order() == order
            &&& post.evicted_count() == pre.evicted_count()
            &&& exists|d: u64|
                {
                    &&& #[trigger] call_ensures(F::abs_diff, (&pre.arith(), summary.mean, state[key]), d)
                    &&& (r is Emit <==> float_le(pre.deadband(), d))
                }
            &&& match r {
                ChangeOutcome::Emit(s) => {
                    &&& s == summary
                    &&& post.state_map() == state.insert(key, summary.mean)
                    &&& post.suppressed_count() == pre.suppressed_count()
                },
                ChangeOutcome::Suppressed => {
                    &&& post.state_map() == state
                    &&& post.suppressed_count() == inc(pre.suppressed_count())
                },
            }
        }
    }
}

impl<F: FloatArith> ChangeDetector<F> {
    /// The last emitted mean, by key.
    pub closed spec fn state_map(&self) -> Map<WindowKey, u64> {
        to_map(emitted_pairs(self.last_emitted@))
    }

    /// The keys with retained state, oldest first.
    pub closed spec fn key_order(&self) -> Seq<WindowKey> {
        self.last_emitted@.map_values(|e: LastEmitted| e.pair().0)
    }

    /// Maximum number of keys retained.
    pub closed spec fn capacity(&self) -> nat {
        self.capacity as nat
    }

    /// The deadband (bit pattern).
    pub closed spec fn deadband(&self) -> u64 {
        self.min_delta
    }

    /// The arithmetic the distance between means comes from.
    pub closed spec fn arith(&self) -> F {
        self.arith
    }

    /// Summaries suppressed so far.
    pub closed spec fn suppressed_count(&self) -> u64 {
        self.suppressed
    }

    /// Keys evicted so far.
    pub closed spec fn evicted_count(&self) -> u64 {
        self.states_evicted
    }

    /// Internal consistency: positive capacity, at most `capacity` keys,
    /// one record per key.
    pub closed spec fn wf(&self) -> bool {
        &&& self.capacity > 0
        &&& self.last_emitted@.len() <= self.capacity
        &&& distinct_keys(emitted_pairs(self.last_emitted@))
    }

    /// Creates a detector with `min_delta` deadband (bit pattern) and at
    /// most `capacity` keys of retained state.
    pub fn new(min_delta: u64, capacity: usize, arith: F) -> (r: Result<Self, PipelineConfigError>)
        ensures
            match r {
                Ok(d) => {
                    &&& valid_min_delta(min_delta) && capacity > 0
                    &&& d.wf()
                    &&& d.deadband() == min_delta
                    &&& d.capacity() == capacity
                    &&& d.state_map() == Map::<WindowKey, u64>::empty()
                    &&& d.key_order() == Seq::<WindowKey>::empty()
                    &&& d.suppressed_count() == 0
                    &&& d.evicted_count() == 0
                },
                Err(e) => if !valid_min_delta(min_delta) {
                    e == PipelineConfigError::InvalidMinDelta(min_delta)
                } else {
                    capacity == 0 && e == (PipelineConfigError::InvalidCapacity {
                        field: "change_state_capacity",
                        value: capacity,
                    })
                },
            },
    {
        if !bits_is_finite(min_delta) || bits_lt(min_delta, ZERO_BITS) {
            return Err(PipelineConfigError::InvalidMinDelta(min_delta));
        }
        if capacity == 0 {
            return Err(PipelineConfigError::InvalidCapacity { field: "change_state_capacity", value: capacity });
        }
        let d = ChangeDetector {
            last_emitted: Vec::new(),
            capacity,
            min_delta,
            suppressed: 0,
            states_evicted: 0,
            arith,
        };
        assert(emitted_pairs(d.last_emitted@) =~= Seq::empty());
        assert(d.key_order() =~= Seq::empty());
        Ok(d)
    }

    fn find(&self, source: &str, kind: &str) -> (r: Option<usize>)
        ensures
            match r {
                Some(i) => i < self.last_emitted@.len() && self.last_emitted@[i as int].pair().0 == (source@, kind@),
                None => forall|i: int| 0 <= i < self.last_emitted@.len() ==> self.last_emitted@[i].pair().0 != (source@, kind@),
            },
    {
        let mut i: usize = 0;
        while i < self.last_emitted.len()
            invariant
                i <= self.last_emitted@.len(),
                forall|j: int| 0 <= j < i ==> self.last_emitted@[j].pair().0 != (source@, kind@),
            decreases self.last_emitted@.len() - i,
        {
            if str_equal(self.last_emitted[i].source.as_str(), source) && str_equal(
                self.last_emitted[i].kind.as_str(),
                kind,
            ) {
                return Some(i);
            }
            i += 1;
        }
        None
    }

    /// Processes one closed-window summary; see [`ChangeOutcome`].
    ///
    /// The first summary of a key is always emitted (evicting the oldest
    /// key first when the state is full); a later one is emitted or
    /// suppressed by the deadband, and only an emitted summary updates the
    /// key's last emitted mean.
    pub fn accept(&mut self, summary: Aggregated) -> (r: ChangeOutcome)
        requires
            old(self).wf(),
        ensures
            change_step(*old(self), *final(self), summary, r),
    {
        let ghost key = (summary.source@, summary.kind@);
        let ghost before = self.last_emitted@;
        let pos = self.find(summary.source.as_str(), summary.kind.as_str());
        match pos {
            Some(p) => {
                proof {
                    lemma_to_map_index(emitted_pairs(before), p as int);
                }
                let last = self.last_emitted[p].mean;
                let distance = self.arith.abs_diff(summary.mean, last);
                if !bits_le(self.min_delta, distance) {
                    self.suppressed = bump(self.suppressed);
                    return ChangeOutcome::Suppressed;
                }
                self.last_emitted[p].mean = summary.mean;
                proof {
                    assert(emitted_pairs(self.last_emitted@) =~= emitted_pairs(before).update(p as int, (key, summary.mean)));
                    lemma_distinct_update(emitted_pairs(before), p as int, summary.mean);
                    assert(self.key_order() =~= old(self).key_order());
                }
                ChangeOutcome::Emit(summary)
            },
            None => {
                proof {
                    lemma_to_map_absent(emitted_pairs(before), key);
                }
                let ghost mid = before;
                if self.last_emitted.len() == self.capacity {
                    let _ = self.last_emitted.remove(0);
                    proof {
                        assert(emitted_pairs(self.last_emitted@) =~= emitted_pairs(before).remove(0));
                        lemma_distinct_remove(emitted_pairs(before), 0);
                        mid = self.last_emitted@;
                        assert(forall|i: int| 0 <= i < mid.len() ==> mid[i] == before[i + 1]);
                        lemma_to_map_absent(emitted_pairs(mid), key);
                    }
                    self.states_evicted = bump(self.states_evicted);
                }
                let entry = LastEmitted {
                    source: summary.source.clone(),
                    kind: summary.kind.clone(),
                    mean: summary.mean,
                };
                self.last_emitted.push(entry);
                proof {
                    assert(emitted_pairs(self.last_emitted@) =~= emitted_pairs(mid).push((key, summary.mean)));
                    lemma_distinct_push(emitted_pairs(mid), key, summary.mean);
                    if before.len() == self.capacity {
                        assert(self.key_order() =~= old(self).key_order().drop_first().push(key));
                    } else {
                        assert(self.key_order() =~= old(self).key_order().push(key));
                    }
                }
                ChangeOutcome::Emit(summary)
            },
        }
    }

    /// Summaries suppressed by the deadband so far.
    pub fn suppressed(&self) -> (r: u64)
        ensures
            r == self.suppressed_count(),
    {
        self.suppressed
    }

    /// Keys evicted by the capacity cap so far.
    pub fn states_evicted(&self) -> (r: u64)
        ensures
            r == self.evicted_count(),
    {
        self.states_evicted
    }
}

} // verus!
