//! Optional persistence: snapshot and restore of the state store, and
//! the bounded historical sink contract. Never on the in-memory
//! processing path. Reading and writing files is the application's part;
//! this module holds the contracts, the restore path, the format check
//! and the reference sink.

use vstd::prelude::*;

use crate::event::Event;
use crate::runtime::config::io_error_text;
use crate::state::store::{new_key_step, restore_step, KeyView, StateEntry, StateStore};
use crate::text::{concat2, concat3, decimal_u64, owned, u64_to_string};

verus! {

/// Persistence errors: actionable, and never fatal to processing.
#[derive(Debug)]
pub enum PersistenceError {
    /// The snapshot file could not be written.
    WriteFailed {
        /// The path that failed.
        path: String,
        /// The underlying error.
        source: std::io::Error,
    },
    /// The snapshot file could not be read.
    ReadFailed {
        /// The path that failed.
        path: String,
        /// The underlying error.
        source: std::io::Error,
    },
    /// The snapshot exists but cannot be used (corruption).
    Corrupted {
        /// The path that failed.
        path: String,
        /// Why it cannot be used.
        reason: String,
    },
}

impl PersistenceError {
    /// The human-readable message (what `Display` renders). For read and
    /// write failures, the system's description of the I/O error follows
    /// the path.
    pub fn message(&self) -> (r: String)
        ensures
            match self {
                PersistenceError::WriteFailed { path, .. } => r@.len() >= ("failed to write snapshot "@ + path@ + ": "@).len()
                    && r@.subrange(0, ("failed to write snapshot "@ + path@ + ": "@).len() as int)
                    == "failed to write snapshot "@ + path@ + ": "@,
                PersistenceError::ReadFailed { path, .. } => r@.len() >= ("failed to read snapshot "@ + path@ + ": "@).len()
                    && r@.subrange(0, ("failed to read snapshot "@ + path@ + ": "@).len() as int)
                    == "failed to read snapshot "@ + path@ + ": "@,
                PersistenceError::Corrupted { path, reason } => r@ == "snapshot "@ + path@ + " is corrupted: "@ + reason@,
            },
    {
        match self {
            PersistenceError::WriteFailed { path, source } => {
                let head = concat3("failed to write snapshot ", path.as_str(), ": ");
                let detail = io_error_text(source);
                let r = concat2(head.as_str(), detail.as_str());
                assert(r@.subrange(0, head@.len() as int) =~= head@);
                r
            },
            PersistenceError::ReadFailed { path, source } => {
                let head = concat3("failed to read snapshot ", path.as_str(), ": ");
                let detail = io_error_text(source);
                let r = concat2(head.as_str(), detail.as_str());
                assert(r@.subrange(0, head@.len() as int) =~= head@);
                r
            },
            PersistenceError::Corrupted { path, reason } => {
                let head = concat3("snapshot ", path.as_str(), " is corrupted: ");
                concat2(head.as_str(), reason.as_str())
            },
        }
    }
}

/// What a restore returns: the saved entries.
#[derive(Debug)]
pub struct Snapshot {
    /// The restored entries.
    pub entries: Vec<StateEntry>,
}

impl Default for Snapshot {
    fn default() -> (r: Self)
        ensures
            r.entries@.len() == 0,
    {
        Snapshot { entries: Vec::new() }
    }
}

/// The persistence contract. The engine never depends on a concrete
/// adapter; the runtime wires one when configured.
pub trait PersistenceAdapter: Send {
    /// Persists the current state. Must be atomic in effect: either the
    /// previous snapshot or a complete new one survives a crash.
    fn snapshot(&mut self, store: &StateStore) -> Result<(), PersistenceError>;

    /// Loads the last snapshot; `Ok(None)` when none exists.
    fn restore(&self) -> Result<Option<Snapshot>, PersistenceError>;
}

/// The snapshot format version this build writes and accepts.
pub const SNAPSHOT_FORMAT_VERSION: u32 = 1;

/// Rejects a snapshot file of another format version: restores of
/// unknown versions fail loudly, never guess.
pub fn check_format_version(version: u32, path: &str) -> (r: Result<(), PersistenceError>)
    ensures
        version == SNAPSHOT_FORMAT_VERSION <==> r is Ok,
        r matches Err(e) ==> (e matches PersistenceError::Corrupted { path: p, reason } && p@ == path@ && reason@
            == "unsupported format version "@ + decimal_u64(version as u64) + " (expected "@ + decimal_u64(
            SNAPSHOT_FORMAT_VERSION as u64,
        ) + ")"@),
{
    if version == SNAPSHOT_FORMAT_VERSION {
        return Ok(());
    }
    let found = u64_to_string(version as u64);
    let expected = u64_to_string(SNAPSHOT_FORMAT_VERSION as u64);
    let head = concat3("unsupported format version ", found.as_str(), " (expected ");
    let reason = concat3(head.as_str(), expected.as_str(), ")");
    Err(PersistenceError::Corrupted { path: owned(path), reason })
}

/// The snapshot of a store: its entries, in key order.
pub fn snapshot_of(store: &StateStore) -> (r: Snapshot)
    ensures
        r.entries@ == store.sorted_entries(),
{
    let refs = store.entries();
    let mut entries: Vec<StateEntry> = Vec::new();
    let mut i: usize = 0;
    while i < refs.len()
        invariant
            i <= refs@.len(),
            refs@.len() == store.sorted_entries().len(),
            forall|j: int| 0 <= j < refs@.len() ==> *(#[trigger] refs@[j]) == store.sorted_entries()[j],
            entries@ == store.sorted_entries().take(i as int),
        decreases refs@.len() - i,
    {
        entries.push(refs[i].clone());
        proof {
            assert(entries@ =~= store.sorted_entries().take(i + 1));
        }
        i += 1;
    }
    proof {
        assert(store.sorted_entries().take(refs@.len() as int) =~= store.sorted_entries());
    }
    Snapshot { entries }
}

/// `trace` is a run of restores: each saved entry, in order, takes one
/// store of the trace to the next.
pub open spec fn restore_run(trace: Seq<StateStore>, entries: Seq<StateEntry>) -> bool {
    &&& trace.len() == entries.len() + 1
    &&& forall|i: int| 0 <= i < entries.len() ==> #[trigger] restore_link(trace, entries, i)
}

/// Step `i` of a restore run.
pub open spec fn restore_link(trace: Seq<StateStore>, entries: Seq<StateEntry>, i: int) -> bool {
    restore_step(trace[i], trace[i + 1], entries[i])
}

/// Loads a snapshot into a store, entry by entry, in order. The store's
/// own capacity applies: restore cannot violate the bounded-state
/// invariant.
pub fn apply_snapshot(store: &mut StateStore, snapshot: &Snapshot)
    requires
        old(store).wf(),
    ensures
        final(store).wf(),
        final(store).capacity() == old(store).capacity(),
        exists|trace: Seq<StateStore>|
            #![trigger restore_run(trace, snapshot.entries@)]
            {
                &&& restore_run(trace, snapshot.entries@)
                &&& trace[0] == *old(store)
                &&& trace[snapshot.entries@.len() as int] == *final(store)
            },
{
    let ghost mut trace: Seq<StateStore> = seq![*store];
    let mut i: usize = 0;
    while i < snapshot.entries.len()
        invariant
            i <= snapshot.entries@.len(),
            store.wf(),
            store.capacity() == old(store).capacity(),
            trace.len() == i + 1,
            trace[0] == *old(store),
            trace[i as int] == *store,
            forall|q: int| 0 <= q < i ==> #[trigger] restore_link(trace, snapshot.entries@, q),
        decreases snapshot.entries@.len() - i,
    {
        let ghost old_trace = trace;
        store.restore_entry(snapshot.entries[i].clone());
        proof {
            trace = trace.push(*store);
            assert forall|q: int| 0 <= q < i + 1 implies #[trigger] restore_link(trace, snapshot.entries@, q) by {
                if q < i {
                    assert(restore_link(old_trace, snapshot.entries@, q));
                    assert(old_trace[q] == trace[q] && old_trace[q + 1] == trace[q + 1]);
                }
            }
        }
        i += 1;
    }
    proof {
        assert(restore_run(trace, snapshot.entries@));
    }
}

/// The first `i` steps of a restore from an empty store, below its
/// capacity, have stored exactly the first `i` saved entries.
proof fn lemma_restore_prefix(trace: Seq<StateStore>, entries: Seq<StateEntry>, i: int)
    requires
        restore_run(trace, entries),
        0 <= i <= entries.len(),
        trace[0].count() == 0,
        forall|k: KeyView| !trace[0].stored().contains_key(k),
        trace[0].capacity() >= entries.len(),
        forall|a: int, b: int|
            0 <= a < b < entries.len() ==> (#[trigger] entries[a]).key.view_pair() != (#[trigger] entries[b]).key.view_pair(),
    ensures
        trace[i].count() == i,
        trace[i].capacity() == trace[0].capacity(),
        forall|k: KeyView|
            #[trigger] trace[i].stored().contains_key(k) <==> exists|j: int|
                0 <= j < i && (#[trigger] entries[j]).key.view_pair() == k,
        forall|j: int|
            0 <= j < i ==> trace[i].stored()[(#[trigger] entries[j]).key.view_pair()].0 == entries[j],
    decreases i,
{
    if i > 0 {
        lemma_restore_prefix(trace, entries, i - 1);
        assert(restore_link(trace, entries, i - 1));
        let pre = trace[i - 1];
        let post = trace[i];
        let k = entries[i - 1].key.view_pair();
        assert(!pre.stored().contains_key(k)) by {
            if pre.stored().contains_key(k) {
                let j = choose|j: int| 0 <= j < i - 1 && (#[trigger] entries[j]).key.view_pair() == k;
                assert(entries[j].key.view_pair() != entries[i - 1].key.view_pair());
            }
        }
        assert(new_key_step(pre, post, entries[i - 1]));
        assert(post.stored() == pre.stored().insert(k, (entries[i - 1], pre.next_insertion())));
        assert forall|kk: KeyView| #[trigger] post.stored().contains_key(kk) <==> exists|j: int|
            0 <= j < i && (#[trigger] entries[j]).key.view_pair() == kk by {
            if post.stored().contains_key(kk) && kk != k {
                assert(pre.stored().contains_key(kk));
                let j = choose|j: int| 0 <= j < i - 1 && (#[trigger] entries[j]).key.view_pair() == kk;
                assert(0 <= j < i && entries[j].key.view_pair() == kk);
            }
            if kk == k {
                assert(entries[i - 1].key.view_pair() == kk);
            }
            if exists|j: int| 0 <= j < i && (#[trigger] entries[j]).key.view_pair() == kk {
                let j = choose|j: int| 0 <= j < i && (#[trigger] entries[j]).key.view_pair() == kk;
                if j < i - 1 {
                    assert(pre.stored().contains_key(kk));
                }
            }
        }
        assert forall|j: int| 0 <= j < i implies post.stored()[(#[trigger] entries[j]).key.view_pair()].0 == entries[j] by {
            if j < i - 1 {
                assert(entries[j].key.view_pair() != k);
                assert(pre.stored().contains_key(entries[j].key.view_pair()));
            }
        }
    }
}

/// Law (round trip): restoring the snapshot of a store, in order, into
/// an empty store with room for all its entries gives back the same keys
/// with the same entries.
pub proof fn law_restore_round_trip(source: StateStore, trace: Seq<StateStore>)
    requires
        source.wf(),
        restore_run(trace, source.sorted_entries()),
        trace[0].wf(),
        trace[0].count() == 0,
        trace[0].capacity() >= source.count(),
    ensures
        forall|k: KeyView|
            #[trigger] trace[source.sorted_entries().len() as int].stored().contains_key(k)
                <==> source.stored().contains_key(k),
        forall|k: KeyView|
            source.stored().contains_key(k) ==> #[trigger] trace[source.sorted_entries().len() as int].stored()[k].0
                == source.stored()[k].0,
{
    let entries = source.sorted_entries();
    let n = entries.len() as int;
    source.lemma_entries_are_stored();
    trace[0].lemma_entries_are_stored();
    assert forall|k: KeyView| !trace[0].stored().contains_key(k) by {
        if trace[0].stored().contains_key(k) {
            let j = choose|j: int|
                0 <= j < trace[0].sorted_entries().len() && (#[trigger] trace[0].sorted_entries()[j]).key.view_pair() == k;
        }
    }
    lemma_restore_prefix(trace, entries, n);
    assert forall|k: KeyView| source.stored().contains_key(k) implies #[trigger] trace[n].stored()[k].0
        == source.stored()[k].0 by {
        let j = choose|j: int| 0 <= j < entries.len() && (#[trigger] entries[j]).key.view_pair() == k;
        assert(trace[n].stored()[entries[j].key.view_pair()].0 == entries[j]);
    }
    assert forall|k: KeyView| #[trigger] trace[n].stored().contains_key(k) <==> source.stored().contains_key(k) by {
        if source.stored().contains_key(k) {
            let j = choose|j: int| 0 <= j < entries.len() && (#[trigger] entries[j]).key.view_pair() == k;
            assert(trace[n].stored().contains_key(entries[j].key.view_pair()));
        }
        if trace[n].stored().contains_key(k) {
            let j = choose|j: int| 0 <= j < n && (#[trigger] entries[j]).key.view_pair() == k;
            assert(source.stored().contains_key(entries[j].key.view_pair()));
        }
    }
}

/// Historical event storage contract (optional). Writes are history
/// only: the state path never blocks on a sink; callers batch through a
/// bounded buffer and degrade to drop-and-count on overflow or failure.
pub trait HistoricalSink: Send {
    /// Persists one batch of events. Failures are returned, never panics.
    fn write_batch(&mut self, events: &[Event]) -> Result<(), PersistenceError>;
}

/// Reference sink: keeps the latest `capacity` events in memory. It
/// documents exactly what drop-and-count, never fatal, means for real
/// sinks. Counters saturate at `u64::MAX`.
#[derive(Debug)]
pub struct InMemoryHistoricalSink {
    capacity: usize,
    events: Vec<Event>,
    written: u64,
    dropped: u64,
    failures: u64,
}

/// `a + n`, saturating at `u64::MAX`.
pub open spec fn plus_sat(a: u64, n: int) -> u64 {
    if a + n <= u64::MAX {
        (a + n) as u64
    } else {
        u64::MAX
    }
}

/// The events a sink of this capacity retains: the latest `capacity` of
/// them.
pub open spec fn retained(s: Seq<Event>, capacity: nat) -> Seq<Event> {
    if s.len() <= capacity {
        s
    } else {
        s.skip(s.len() - capacity)
    }
}

/// `a + n` for a count of events, saturating at `u64::MAX`.
fn add_sat(a: u64, n: usize) -> (r: u64)
    ensures
        r == plus_sat(a, n as int),
{
    if n as u64 > u64::MAX - a {
        u64::MAX
    } else {
        a + n as u64
    }
}

impl InMemoryHistoricalSink {
    /// The retained events, oldest first.
    pub closed spec fn retained_events(&self) -> Seq<Event> {
        self.events@
    }

    /// The capacity.
    pub closed spec fn capacity_value(&self) -> nat {
        self.capacity as nat
    }

    /// Total events accepted.
    pub closed spec fn written_count(&self) -> u64 {
        self.written
    }

    /// Total events dropped.
    pub closed spec fn dropped_count(&self) -> u64 {
        self.dropped
    }

    /// Total failed batches recorded.
    pub closed spec fn failure_count(&self) -> u64 {
        self.failures
    }

    /// Positive capacity, never exceeded.
    #[verifier::type_invariant]
    spec fn wf(&self) -> bool {
        self.capacity > 0 && self.events@.len() <= self.capacity
    }

    /// Creates a bounded sink. Capacity 0 is rejected: a sink that can
    /// never accept is a configuration error, not a runtime event.
    pub fn new(capacity: usize) -> (r: Result<Self, PersistenceError>)
        ensures
            match r {
                Ok(s) => {
                    &&& capacity > 0
                    &&& s.capacity_value() == capacity
                    &&& s.retained_events().len() == 0
                    &&& s.written_count() == 0
                    &&& s.dropped_count() == 0
                    &&& s.failure_count() == 0
                },
                Err(e) => {
                    &&& capacity == 0
                    &&& e matches PersistenceError::Corrupted { path, reason } && path@ == "<memory>"@ && reason@
                        == "historical sink capacity must be > 0"@
                },
            },
    {
        if capacity == 0 {
            return Err(
                PersistenceError::Corrupted {
                    path: owned("<memory>"),
                    reason: owned("historical sink capacity must be > 0"),
                },
            );
        }
        Ok(InMemoryHistoricalSink { capacity, events: Vec::new(), written: 0, dropped: 0, failures: 0 })
    }

    /// Events currently retained (bounded by capacity).
    pub fn backlog(&self) -> (r: usize)
        ensures
            r == self.retained_events().len(),
    {
        self.events.len()
    }

    /// Total events accepted.
    pub fn written(&self) -> (r: u64)
        ensures
            r == self.written_count(),
    {
        self.written
    }

    /// Total events dropped on overflow or in failed batches: observable,
    /// never fatal.
    pub fn dropped(&self) -> (r: u64)
        ensures
            r == self.dropped_count(),
    {
        self.dropped
    }

    /// Total failed batches recorded by [`record_failure`](Self::record_failure).
    pub fn failures(&self) -> (r: u64)
        ensures
            r == self.failure_count(),
    {
        self.failures
    }

    /// Counts a failed batch (adapter glue calls this when a real sink
    /// errors): the batch is lost but the engine continues.
    pub fn record_failure(&mut self, batch_len: usize)
        ensures
            final(self).failure_count() == plus_sat(old(self).failure_count(), 1),
            final(self).dropped_count() == plus_sat(old(self).dropped_count(), batch_len as int),
            final(self).written_count() == old(self).written_count(),
            final(self).retained_events() == old(self).retained_events(),
            final(self).capacity_value() == old(self).capacity_value(),
    {
        proof {
            use_type_invariant(&*self);
        }
        self.failures = add_sat(self.failures, 1);
        self.dropped = add_sat(self.dropped, batch_len);
    }
}

impl HistoricalSink for InMemoryHistoricalSink {
    /// Appends the batch; when full, the oldest event is dropped and
    /// counted for each new one. Never fails.
    fn write_batch(&mut self, events: &[Event]) -> (r: Result<(), PersistenceError>)
        ensures
            r is Ok,
            final(self).retained_events() == retained(old(self).retained_events() + events@, old(self).capacity_value()),
            final(self).written_count() == plus_sat(old(self).written_count(), events@.len() as int),
            final(self).dropped_count() == plus_sat(
                old(self).dropped_count(),
                (old(self).retained_events() + events@).len() - retained(
                    old(self).retained_events() + events@,
                    old(self).capacity_value(),
                ).len(),
            ),
            final(self).capacity_value() == old(self).capacity_value(),
            final(self).failure_count() == old(self).failure_count(),
    {
        proof {
            use_type_invariant(&*self);
        }
        let ghost all = self.events@ + events@;
        let ghost cap = self.capacity as nat;
        let ghost w0 = self.written;
        let ghost d0 = self.dropped;
        let ghost start = self.events@.len();
        let mut kept: Vec<Event> = Vec::new();
        std::mem::swap(&mut kept, &mut self.events);
        let mut i: usize = 0;
        while i < events.len()
            invariant
                i <= events@.len(),
                cap == self.capacity,
                cap > 0,
                all == old(self).events@ + events@,
                start == old(self).events@.len(),
                kept@ == retained(all.take((start + i) as int), cap),
                self.written == plus_sat(w0, i as int),
                self.dropped == plus_sat(d0, (start + i) - retained(all.take((start + i) as int), cap).len()),
                self.failures == old(self).failures,
                self.events@.len() == 0,
            decreases events@.len() - i,
        {
            if kept.len() == self.capacity {
                kept.remove(0);
                self.dropped = add_sat(self.dropped, 1);
            }
            kept.push(events[i].clone());
            self.written = add_sat(self.written, 1);
            proof {
                let t0 = all.take((start + i) as int);
                let t1 = all.take((start + i + 1) as int);
                assert(t1 =~= t0.push(events@[i as int]));
                if t0.len() < cap {
                    assert(retained(t0, cap) == t0);
                    if t1.len() <= cap {
                        assert(kept@ =~= t1);
                    } else {
                        assert(kept@ =~= t1.skip(t1.len() - cap));
                    }
                } else {
                    assert(kept@ =~= t1.skip(t1.len() - cap));
                }
            }
            i += 1;
        }
        proof {
            assert(all.take((start + events@.len()) as int) =~= all);
        }
        self.events = kept;
        Ok(())
    }
}

/// Law (drop-and-count): after a batch is written, every event the sink
/// held or received is either retained or counted as dropped (counters
/// not saturated), and the sink never retains more than its capacity.
pub proof fn law_sink_accounts_every_event(held: Seq<Event>, batch: Seq<Event>, capacity: nat, dropped: u64)
    requires
        capacity > 0,
        held.len() <= capacity,
        dropped + held.len() + batch.len() <= u64::MAX,
    ensures
        retained(held + batch, capacity).len() <= capacity,
        retained(held + batch, capacity).len() + plus_sat(
            dropped,
            (held + batch).len() - retained(held + batch, capacity).len(),
        ) == held.len() + batch.len() + dropped,
        retained(held + batch, capacity) == (held + batch).skip((held + batch).len() - retained(held + batch, capacity).len()),
{
    let all = held + batch;
    if all.len() <= capacity {
        assert(all.skip(0) =~= all);
    }
}

} // verus!
