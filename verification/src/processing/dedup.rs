//! Bounded deduplication of events by producer-supplied id.

use std::collections::VecDeque;

use vstd::prelude::*;

use crate::processing::PipelineConfigError;
use crate::text::{owned, str_equal};

verus! {

/// Bounded, capacity-limited cache of event ids.
///
/// A duplicate is an event id already present; duplicates are dropped.
/// Eviction is FIFO by first insertion: when capacity is exceeded the
/// oldest id is forgotten, and a replayed id after eviction is treated as
/// new: the explicit, documented trade-off of bounded memory. Only ids are
/// stored, never events.
#[derive(Debug)]
pub struct Deduplicator {
    order: VecDeque<String>,
    capacity: usize,
}

/// The remembered ids after `id` is offered to a cache holding `seen`
/// with room for `capacity` ids.
pub open spec fn dedup_after(seen: Seq<Seq<char>>, capacity: nat, id: Seq<char>) -> Seq<Seq<char>> {
    if seen.contains(id) {
        seen
    } else if seen.len() == capacity {
        seen.drop_first().push(id)
    } else {
        seen.push(id)
    }
}

impl View for Deduplicator {
    type V = Seq<Seq<char>>;

    /// The remembered ids, oldest first.
    closed spec fn view(&self) -> Seq<Seq<char>> {
        self.order@.map_values(|s: String| s@)
    }
}

impl Deduplicator {
    /// The number of ids the cache can hold.
    pub closed spec fn capacity(&self) -> nat {
        self.capacity as nat
    }

    /// The cache is well formed: positive capacity, at most `capacity`
    /// ids, and no id twice.
    pub open spec fn wf(&self) -> bool {
        &&& self.capacity() > 0
        &&& self@.len() <= self.capacity()
        &&& self@.no_duplicates()
    }

    /// Creates a deduplicator holding at most `capacity` ids.
    pub fn new(capacity: usize) -> (r: Result<Self, PipelineConfigError>)
        ensures
            match r {
                Ok(d) => capacity > 0 && d.wf() && d@ == Seq::<Seq<char>>::empty() && d.capacity() == capacity,
                Err(e) => capacity == 0 && e == (PipelineConfigError::InvalidCapacity {
                    field: "dedup_capacity",
                    value: capacity,
                }),
            },
    {
        if capacity == 0 {
            return Err(PipelineConfigError::InvalidCapacity { field: "dedup_capacity", value: capacity });
        }
        let d = Deduplicator { order: VecDeque::new(), capacity };
        assert(d@ =~= Seq::<Seq<char>>::empty());
        Ok(d)
    }

    /// Returns `true` when the id has not been seen before (and records
    /// it); `false` for a duplicate.
    pub fn is_new(&mut self, id: &str) -> (r: bool)
        requires
            old(self).wf(),
        ensures
            final(self).wf(),
            final(self).capacity() == old(self).capacity(),
            r == !old(self)@.contains(id@),
            final(self)@ == dedup_after(old(self)@, old(self).capacity(), id@),
    {
        let ghost before = self@;
        let mut i: usize = 0;
        while i < self.order.len()
            invariant
                self@ == before,
                self.capacity == old(self).capacity,
                self.capacity > 0,
                before.len() <= self.capacity,
                before.no_duplicates(),
                i <= self.order@.len(),
                forall|j: int| 0 <= j < i ==> (#[trigger] before[j]) != id@,
            decreases self.order@.len() - i,
        {
            if str_equal(self.order[i].as_str(), id) {
                assert(before[i as int] == id@);
                return false;
            }
            i += 1;
        }
        assert(!before.contains(id@));
        if self.order.len() == self.capacity {
            self.evict_oldest();
        }
        self.order.push_back(owned(id));
        assert(self@ =~= dedup_after(before, self.capacity(), id@));
        true
    }

    /// Forgets the oldest recorded id.
    fn evict_oldest(&mut self)
        requires
            old(self)@.len() > 0,
        ensures
            final(self)@ == old(self)@.drop_first(),
            final(self).capacity == old(self).capacity,
    {
        let _ = self.order.pop_front();
        assert(self@ =~= old(self)@.drop_first());
    }
}

/// Law: an id just recorded is a duplicate on immediate replay.
pub proof fn law_replay_is_duplicate(seen: Seq<Seq<char>>, capacity: nat, id: Seq<char>)
    requires
        capacity > 0,
        seen.len() <= capacity,
    ensures
        dedup_after(seen, capacity, id).contains(id),
        dedup_after(dedup_after(seen, capacity, id), capacity, id) == dedup_after(seen, capacity, id),
{
    let after = dedup_after(seen, capacity, id);
    if !seen.contains(id) {
        assert(after.last() == id);
        assert(after[after.len() - 1] == id);
    }
}

/// Law: the cache never holds more than `capacity` ids, and never an id twice.
pub proof fn law_bounded_and_distinct(seen: Seq<Seq<char>>, capacity: nat, id: Seq<char>)
    requires
        capacity > 0,
        seen.len() <= capacity,
        seen.no_duplicates(),
    ensures
        dedup_after(seen, capacity, id).len() <= capacity,
        dedup_after(seen, capacity, id).no_duplicates(),
{
    let after = dedup_after(seen, capacity, id);
    if !seen.contains(id) {
        let base = if seen.len() == capacity { seen.drop_first() } else { seen };
        assert(!base.contains(id)) by {
            if base.contains(id) {
                let k = choose|k: int| 0 <= k < base.len() && base[k] == id;
                if seen.len() == capacity {
                    assert(seen[k + 1] == id);
                }
            }
        }
        assert forall|a: int, b: int| 0 <= a < after.len() && 0 <= b < after.len() && a != b implies after[a] != after[b] by {
            if a < base.len() && b < base.len() {
                if seen.len() == capacity {
                    assert(base[a] == seen[a + 1] && base[b] == seen[b + 1]);
                }
            }
        }
    }
}

/// Law: when the cache is full, a new id forgets exactly the oldest id (FIFO)
/// and keeps every other remembered id.
pub proof fn law_fifo_eviction(seen: Seq<Seq<char>>, capacity: nat, id: Seq<char>)
    requires
        capacity > 0,
        seen.len() == capacity,
        seen.no_duplicates(),
        !seen.contains(id),
    ensures
        !dedup_after(seen, capacity, id).contains(seen[0]),
        dedup_after(seen, capacity, id).contains(id),
        forall|k: int| 1 <= k < seen.len() ==> dedup_after(seen, capacity, id).contains(#[trigger] seen[k]),
{
    let after = dedup_after(seen, capacity, id);
    assert(after[after.len() - 1] == id);
    assert forall|k: int| 1 <= k < seen.len() implies after.contains(#[trigger] seen[k]) by {
        assert(after[k - 1] == seen[k]);
    }
    if after.contains(seen[0]) {
        let m = choose|m: int| 0 <= m < after.len() && after[m] == seen[0];
        if m < after.len() - 1 {
            assert(after[m] == seen[m + 1]);
        }
    }
}

} // verus!
