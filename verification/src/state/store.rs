//! The state store: keyed current values written from pipeline outputs,
//! read by rules, expired periodically with an injected clock.

use vstd::prelude::*;

use crate::event::{Event, Payload};
use crate::floatbits::FloatArith;
use crate::json::clone_json;
use crate::keyed::{
    distinct_keys, lemma_distinct_push, lemma_distinct_remove, lemma_distinct_update, lemma_to_map_absent,
    lemma_to_map_dom, lemma_to_map_index, to_map,
};
use crate::order::{
    compare_pairs, lemma_pair_lt_asymmetric, lemma_pair_lt_irreflexive, lemma_pair_lt_transitive, pair_lt, Rank,
};
use crate::processing::{bump, inc, Aggregated, Output};
use crate::state::{StateConfig, StateCounters, StateError};
use crate::text::{chars_of, owned};

verus! {

/// The store's key, mirroring the pipeline keying exactly: `(source, kind)`.
#[derive(Debug, PartialEq, Eq, Hash, PartialOrd, Ord)]
pub struct StateKey {
    pub source: String,
    pub kind: String,
}

impl Clone for StateKey {
    fn clone(&self) -> (r: Self)
        ensures
            r == *self,
    {
        StateKey { source: self.source.clone(), kind: self.kind.clone() }
    }
}

impl StateKey {
    /// A key from its parts.
    pub fn new(source: &str, kind: &str) -> (r: Self)
        ensures
            r.source@ == source@,
            r.kind@ == kind@,
    {
        StateKey { source: owned(source), kind: owned(kind) }
    }

    /// The key as a pair of character sequences.
    pub open spec fn view_pair(&self) -> (Seq<char>, Seq<char>) {
        (self.source@, self.kind@)
    }
}

/// The current value of a key; numbers are binary64 bit patterns.
#[derive(Debug, PartialEq)]
pub enum StateValue {
    Numeric(u64),
    Text(String),
    Boolean(bool),
    Structured(serde_json::Value),
}

impl Clone for StateValue {
    fn clone(&self) -> (r: Self)
        ensures
            r == *self,
    {
        match self {
            StateValue::Numeric(v) => StateValue::Numeric(*v),
            StateValue::Text(v) => StateValue::Text(v.clone()),
            StateValue::Boolean(v) => StateValue::Boolean(*v),
            StateValue::Structured(v) => StateValue::Structured(clone_json(v)),
        }
    }
}

/// The state value a payload becomes.
pub open spec fn value_of_payload(p: Payload) -> StateValue {
    match p {
        Payload::Numeric { value_bits } => StateValue::Numeric(value_bits),
        Payload::Text { value } => StateValue::Text(value),
        Payload::Boolean { value } => StateValue::Boolean(value),
        Payload::Json { value } => StateValue::Structured(value),
    }
}

impl StateValue {
    /// Numeric view for rule comparisons; `None` for non-numeric values.
    pub fn as_numeric(&self) -> (r: Option<u64>)
        ensures
            r == match *self {
                StateValue::Numeric(v) => Some(v),
                _ => None::<u64>,
            },
    {
        match self {
            StateValue::Numeric(value) => Some(*value),
            _ => None,
        }
    }

    /// The state value of a payload.
    pub fn from_payload(payload: &Payload) -> (r: Self)
        ensures
            r == value_of_payload(*payload),
    {
        match payload {
            Payload::Numeric { value_bits } => StateValue::Numeric(*value_bits),
            Payload::Text { value } => StateValue::Text(value.clone()),
            Payload::Boolean { value } => StateValue::Boolean(*value),
            Payload::Json { value } => StateValue::Structured(clone_json(value)),
        }
    }
}

/// One key's current snapshot. Only the last transition is retained,
/// never a history.
#[derive(Debug, PartialEq)]
pub struct StateEntry {
    pub key: StateKey,
    /// Current value.
    pub value: StateValue,
    /// Immediate previous value, for transition rules (e.g. open to closed).
    pub previous_value: Option<StateValue>,
    /// Event-time (milliseconds) of the last update to this key.
    pub updated_at_ms: i64,
    /// Number of updates applied to this key since creation.
    pub updates: u64,
}

impl Clone for StateEntry {
    fn clone(&self) -> (r: Self)
        ensures
            r == *self,
    {
        StateEntry {
            key: self.key.clone(),
            value: self.value.clone(),
            previous_value: match &self.previous_value {
                Some(v) => Some(v.clone()),
                None => None,
            },
            updated_at_ms: self.updated_at_ms,
            updates: self.updates,
        }
    }
}

/// The key of an entry as a pair of character sequences.
pub type KeyView = (Seq<char>, Seq<char>);

/// What the store keeps per key: the entry and its insertion sequence
/// number (the tie-break of the stalest-first eviction).
pub type Stored = (StateEntry, u64);

/// `a` is at least as stale as `b`: older update, ties by earlier insertion.
pub open spec fn staler_or_same(a: Stored, b: Stored) -> bool {
    a.0.updated_at_ms < b.0.updated_at_ms || (a.0.updated_at_ms == b.0.updated_at_ms && a.1 <= b.1)
}

/// The entry a brand-new key receives.
pub open spec fn created_entry(key: StateKey, value: StateValue, at: i64) -> StateEntry {
    StateEntry { key, value, previous_value: None, updated_at_ms: at, updates: 1 }
}

/// The entry after an update of an existing key.
pub open spec fn updated_entry(old: StateEntry, value: StateValue, at: i64) -> StateEntry {
    StateEntry {
        key: old.key,
        value,
        previous_value: Some(old.value),
        updated_at_ms: at,
        updates: inc(old.updates),
    }
}

/// `now - updated_at >= limit`, computed exactly.
pub open spec fn is_expired(e: StateEntry, now: i64, limit: i64) -> bool {
    now as int - e.updated_at_ms as int >= limit as int
}

/// The entries of `s` that survive expiration, in order.
pub open spec fn kept_entries(s: Seq<StateEntry>, now: i64, limit: i64) -> Seq<StateEntry>
    decreases s.len(),
{
    if s.len() == 0 {
        s
    } else if is_expired(s.last(), now, limit) {
        kept_entries(s.drop_last(), now, limit)
    } else {
        kept_entries(s.drop_last(), now, limit).push(s.last())
    }
}

/// The entries of `s` that expire, in order.
pub open spec fn expired_entries(s: Seq<StateEntry>, now: i64, limit: i64) -> Seq<StateEntry>
    decreases s.len(),
{
    if s.len() == 0 {
        s
    } else if is_expired(s.last(), now, limit) {
        expired_entries(s.drop_last(), now, limit).push(s.last())
    } else {
        expired_entries(s.drop_last(), now, limit)
    }
}

/// Internal record: the entry plus its insertion sequence number.
#[derive(Debug)]
struct Record {
    entry: StateEntry,
    inserted_seq: u64,
}

impl Record {
    spec fn key(&self) -> KeyView {
        self.entry.key.view_pair()
    }

    spec fn pair(&self) -> (KeyView, Stored) {
        (self.key(), (self.entry, self.inserted_seq))
    }
}

spec fn record_pairs(s: Seq<Record>) -> Seq<(KeyView, Stored)> {
    s.map_values(|r: Record| r.pair())
}

spec fn entries_of(s: Seq<Record>) -> Seq<StateEntry> {
    s.map_values(|r: Record| r.entry)
}

spec fn sorted_records(s: Seq<Record>) -> bool {
    forall|i: int, j: int| 0 <= i < j < s.len() ==> pair_lt(#[trigger] s[i].key(), #[trigger] s[j].key())
}

proof fn lemma_sorted_distinct(s: Seq<Record>)
    requires
        sorted_records(s),
    ensures
        distinct_keys(record_pairs(s)),
{
    let p = record_pairs(s);
    assert forall|i: int, j: int| 0 <= i < p.len() && 0 <= j < p.len() && i != j implies #[trigger] p[i].0
        != #[trigger] p[j].0 by {
        if i < j {
            lemma_pair_lt_asymmetric(s[i].key(), s[j].key());
        } else {
            lemma_pair_lt_asymmetric(s[j].key(), s[i].key());
        }
    }
}

/// A key that sorts strictly between the records before and after a
/// position is absent.
proof fn lemma_vacant_absent(s: Seq<Record>, k: KeyView, p: int)
    requires
        0 <= p <= s.len(),
        forall|j: int| 0 <= j < p ==> pair_lt(#[trigger] s[j].key(), k),
        forall|j: int| p <= j < s.len() ==> pair_lt(k, #[trigger] s[j].key()),
    ensures
        !to_map(record_pairs(s)).contains_key(k),
{
    lemma_pair_lt_irreflexive(k);
    assert forall|j: int| 0 <= j < record_pairs(s).len() implies record_pairs(s)[j].0 != k by {
        assert(record_pairs(s)[j].0 == s[j].key());
        if j < p {
            assert(pair_lt(s[j].key(), k));
        } else {
            assert(pair_lt(k, s[j].key()));
        }
    }
    lemma_to_map_absent(record_pairs(s), k);
}

/// The record at `v`, staler than or as stale as every record, is the
/// stalest entry of the map.
proof fn lemma_stalest_is_victim(s: Seq<Record>, v: int)
    requires
        sorted_records(s),
        0 <= v < s.len(),
        forall|j: int| 0 <= j < s.len() ==> staler_or_same(s[v].pair().1, #[trigger] s[j].pair().1),
    ensures
        to_map(record_pairs(s)).contains_key(s[v].key()),
        to_map(record_pairs(s))[s[v].key()] == s[v].pair().1,
        forall|x: KeyView| #[trigger] to_map(record_pairs(s)).contains_key(x) ==> staler_or_same(
            to_map(record_pairs(s))[s[v].key()],
            to_map(record_pairs(s))[x],
        ),
{
    let p = record_pairs(s);
    lemma_sorted_distinct(s);
    lemma_to_map_index(p, v);
    assert forall|x: KeyView| #[trigger] to_map(p).contains_key(x) implies staler_or_same(to_map(p)[s[v].key()], to_map(p)[x]) by {
        lemma_to_map_dom(p, x);
        let j = choose|j: int| 0 <= j < p.len() && p[j].0 == x;
        lemma_to_map_index(p, j);
        assert(p[j] == s[j].pair());
    }
}

/// Inserting a record at the position that keeps the order keeps the
/// records sorted and adds its key to the map.
proof fn lemma_insert_sorted(mid: Seq<Record>, pos: int, rec: Record)
    requires
        sorted_records(mid),
        0 <= pos <= mid.len(),
        forall|j: int| 0 <= j < pos ==> pair_lt(#[trigger] mid[j].key(), rec.key()),
        forall|j: int| pos <= j < mid.len() ==> pair_lt(rec.key(), #[trigger] mid[j].key()),
    ensures
        sorted_records(mid.insert(pos, rec)),
        to_map(record_pairs(mid.insert(pos, rec))) == to_map(record_pairs(mid)).insert(rec.key(), rec.pair().1),
{
    let after = mid.insert(pos, rec);
    let k = rec.key();
    assert forall|i: int, j: int| 0 <= i < j < after.len() implies pair_lt(#[trigger] after[i].key(), #[trigger] after[j].key()) by {
        if j < pos {
            assert(after[i] == mid[i] && after[j] == mid[j]);
        } else if j == pos {
            assert(after[i] == mid[i]);
        } else if i == pos {
            assert(after[j] == mid[j - 1]);
        } else if i < pos {
            assert(after[i] == mid[i] && after[j] == mid[j - 1]);
            lemma_pair_lt_transitive(mid[i].key(), k, mid[j - 1].key());
        } else {
            assert(after[i] == mid[i - 1] && after[j] == mid[j - 1]);
        }
    }
    lemma_sorted_distinct(after);
    lemma_sorted_distinct(mid);
    lemma_vacant_absent(mid, k, pos);
    let pa = record_pairs(after);
    let t = record_pairs(mid).push(rec.pair());
    lemma_distinct_push(record_pairs(mid), k, rec.pair().1);
    assert(t == record_pairs(mid).push((k, rec.pair().1)));
    assert forall|x: KeyView| #[trigger] to_map(pa).contains_key(x) <==> to_map(t).contains_key(x) by {
        lemma_to_map_dom(pa, x);
        lemma_to_map_dom(t, x);
        if to_map(pa).contains_key(x) {
            let a = choose|a: int| 0 <= a < pa.len() && pa[a].0 == x;
            if a < pos {
                assert(t[a] == pa[a]);
            } else if a > pos {
                assert(t[a - 1] == pa[a]);
            } else {
                assert(t[mid.len() as int] == pa[a]);
            }
        }
        if to_map(t).contains_key(x) {
            let a = choose|a: int| 0 <= a < t.len() && t[a].0 == x;
            if a < pos {
                assert(pa[a] == t[a]);
            } else if a < mid.len() {
                assert(pa[a + 1] == t[a]);
            } else {
                assert(pa[pos] == t[a]);
            }
        }
    }
    assert forall|x: KeyView| #[trigger] to_map(pa).contains_key(x) implies to_map(pa)[x] == to_map(t)[x] by {
        lemma_to_map_dom(pa, x);
        let a = choose|a: int| 0 <= a < pa.len() && pa[a].0 == x;
        lemma_to_map_index(pa, a);
        let b = if a < pos {
            a
        } else if a > pos {
            a - 1
        } else {
            mid.len() as int
        };
        assert(t[b] == pa[a]);
        lemma_to_map_index(t, b);
    }
    assert(to_map(pa) =~= to_map(t));
}

proof fn lemma_sorted_remove(s: Seq<Record>, k: int)
    requires
        sorted_records(s),
        0 <= k < s.len(),
    ensures
        sorted_records(s.remove(k)),
{
    let t = s.remove(k);
    assert forall|i: int, j: int| 0 <= i < j < t.len() implies pair_lt(#[trigger] t[i].key(), #[trigger] t[j].key()) by {
        let si = if i < k { i } else { i + 1 };
        let sj = if j < k { j } else { j + 1 };
        assert(t[i] == s[si] && t[j] == s[sj]);
    }
}

/// The in-memory current-state store.
///
/// Clock-free and deterministic: expiration receives `now_ms` from the
/// caller. Capacity bounds the store regardless of input volume; when an
/// insert would exceed `max_entries`, the **stalest** entry (smallest
/// `updated_at_ms`, ties by earliest insertion) is evicted. Entries are
/// kept ordered by `(source, kind)`.
#[derive(Debug)]
pub struct StateStore {
    records: Vec<Record>,
    capacity: usize,
    expire_after_ms: Option<i64>,
    next_seq: u64,
    counters: StateCounters,
}

/// What expiring at `now` does: with expiration enabled, the entries at
/// least the limit old (by `updated_at_ms`) are removed, returned in key
/// order and counted; the rest stay. With expiration disabled nothing
/// changes.
pub open spec fn expiration(pre: StateStore, post: StateStore, now_ms: i64, r: Seq<StateEntry>) -> bool {
    &&& post.capacity() == pre.capacity()
    &&& post.expire_after() == pre.expire_after()
    &&& post.next_insertion() == pre.next_insertion()
    &&& post.counter_values().evicted == pre.counter_values().evicted
    &&& match pre.expire_after() {
        None => {
            &&& r.len() == 0
            &&& post.stored() == pre.stored()
            &&& post.sorted_entries() == pre.sorted_entries()
            &&& post.counter_values() == pre.counter_values()
        },
        Some(limit) => {
            &&& r == expired_entries(pre.sorted_entries(), now_ms, limit)
            &&& post.sorted_entries() == kept_entries(pre.sorted_entries(), now_ms, limit)
            &&& post.counter_values().expired == sat_add(pre.counter_values().expired, r.len())
            &&& post.stored() == unexpired(pre.stored(), now_ms, limit)
        },
    }
}

/// What restoring one saved entry does: an existing key takes the saved
/// entry and keeps its insertion number; a new key is inserted under the
/// capacity cap like any other.
pub open spec fn restore_step(pre: StateStore, post: StateStore, entry: StateEntry) -> bool {
    let k = entry.key.view_pair();
    let m = pre.stored();
    if m.contains_key(k) {
        &&& post.stored() == m.insert(k, (entry, m[k].1))
        &&& post.count() == pre.count()
        &&& post.capacity() == pre.capacity()
        &&& post.expire_after() == pre.expire_after()
        &&& post.counter_values() == pre.counter_values()
        &&& post.next_insertion() == pre.next_insertion()
    } else {
        new_key_step(pre, post, entry)
    }
}

/// What observing one pipeline output does to the store: a raw event
/// updates its key with its payload as of its timestamp; a window summary
/// stores its mean as of the window's end.
pub open spec fn observed(pre: StateStore, post: StateStore, output: Output) -> bool {
    match output {
        Output::Event(e) => upsert_step(
            pre,
            post,
            StateKey { source: e.source, kind: e.kind },
            value_of_payload(e.payload),
            e.timestamp,
        ),
        Output::Aggregated(s) => upsert_step(
            pre,
            post,
            StateKey { source: s.source, kind: s.kind },
            StateValue::Numeric(s.mean),
            s.window_end_ms,
        ),
    }
}

/// Where a key is, or where it would go.
enum Slot {
    Found(usize),
    Vacant(usize),
}

impl StateStore {
    /// The retained entries with their insertion numbers, by key.
    pub closed spec fn stored(&self) -> Map<KeyView, Stored> {
        to_map(record_pairs(self.records@))
    }

    /// The retained entries, ordered by `(source, kind)`.
    pub closed spec fn sorted_entries(&self) -> Seq<StateEntry> {
        entries_of(self.records@)
    }

    /// The number of retained entries.
    pub closed spec fn count(&self) -> nat {
        self.records@.len()
    }

    /// Maximum retained entries.
    pub closed spec fn capacity(&self) -> nat {
        self.capacity as nat
    }

    /// The expiration age, if expiration is enabled.
    pub closed spec fn expire_after(&self) -> Option<i64> {
        self.expire_after_ms
    }

    /// The insertion number the next new key receives.
    pub closed spec fn next_insertion(&self) -> u64 {
        self.next_seq
    }

    /// The expiration and eviction counters.
    pub closed spec fn counter_values(&self) -> StateCounters {
        self.counters
    }

    /// Internal consistency: positive capacity, at most `capacity`
    /// entries, strictly ordered (so distinct) keys, each entry filed under
    /// its own key, and a positive expiration age when set.
    pub closed spec fn wf(&self) -> bool {
        &&& self.capacity > 0
        &&& self.records@.len() <= self.capacity
        &&& sorted_records(self.records@)
        &&& (self.expire_after_ms matches Some(x) ==> x > 0)
    }

    /// Validates the configuration and creates an empty store.
    pub fn new(config: StateConfig) -> (r: Result<Self, StateError>)
        ensures
            match r {
                Ok(s) => {
                    &&& config.max_entries > 0
                    &&& (config.expire_after_ms matches Some(x) ==> x > 0)
                    &&& s.wf()
                    &&& s.capacity() == config.max_entries
                    &&& s.expire_after() == config.expire_after_ms
                    &&& s.stored().is_empty()
                    &&& s.count() == 0
                    &&& s.next_insertion() == 0
                    &&& s.counter_values() == StateCounters { expired: 0, evicted: 0 }
                },
                Err(e) => if config.max_entries == 0 {
                    e == StateError::InvalidCapacity(config.max_entries)
                } else {
                    config.expire_after_ms matches Some(x) && x <= 0 && e == StateError::InvalidExpireAfter(x)
                },
            },
    {
        if config.max_entries == 0 {
            return Err(StateError::InvalidCapacity(config.max_entries));
        }
        if let Some(expire_after) = config.expire_after_ms {
            if expire_after <= 0 {
                return Err(StateError::InvalidExpireAfter(expire_after));
            }
        }
        let s = StateStore {
            records: Vec::new(),
            capacity: config.max_entries,
            expire_after_ms: config.expire_after_ms,
            next_seq: 0,
            counters: StateCounters { expired: 0, evicted: 0 },
        };
        assert(record_pairs(s.records@) =~= Seq::empty());
        Ok(s)
    }

    /// Finds the key, or the position that keeps the records ordered.
    fn locate(&self, source: &str, kind: &str) -> (r: Slot)
        requires
            self.wf(),
        ensures
            match r {
                Slot::Found(i) => i < self.records@.len() && self.records@[i as int].key() == (source@, kind@),
                Slot::Vacant(i) => {
                    &&& i <= self.records@.len()
                    &&& forall|j: int| 0 <= j < i ==> pair_lt(#[trigger] self.records@[j].key(), (source@, kind@))
                    &&& forall|j: int| i <= j < self.records@.len() ==> pair_lt((source@, kind@), #[trigger] self.records@[j].key())
                },
            },
    {
        let s = chars_of(source);
        let k = chars_of(kind);
        let mut i: usize = 0;
        while i < self.records.len()
            invariant
                self.wf(),
                s@ == source@,
                k@ == kind@,
                i <= self.records@.len(),
                forall|j: int| 0 <= j < i ==> pair_lt(#[trigger] self.records@[j].key(), (source@, kind@)),
            decreases self.records@.len() - i,
        {
            let rs = chars_of(self.records[i].entry.key.source.as_str());
            let rk = chars_of(self.records[i].entry.key.kind.as_str());
            match compare_pairs(&s, &k, &rs, &rk) {
                Rank::Equal => {
                    return Slot::Found(i);
                },
                Rank::Less => {
                    proof {
                        assert forall|j: int| i <= j < self.records@.len() implies pair_lt(
                            (source@, kind@),
                            #[trigger] self.records@[j].key(),
                        ) by {
                            if j > i {
                                lemma_pair_lt_transitive((source@, kind@), self.records@[i as int].key(), self.records@[j].key());
                            }
                        }
                    }
                    return Slot::Vacant(i);
                },
                Rank::Greater => {},
            }
            i += 1;
        }
        Slot::Vacant(i)
    }

    /// The position of the stalest record.
    fn stalest(&self) -> (r: usize)
        requires
            self.records@.len() > 0,
        ensures
            r < self.records@.len(),
            forall|j: int| 0 <= j < self.records@.len() ==> staler_or_same(
                self.records@[r as int].pair().1,
                #[trigger] self.records@[j].pair().1,
            ),
    {
        let mut best: usize = 0;
        let mut i: usize = 1;
        while i < self.records.len()
            invariant
                1 <= i <= self.records@.len(),
                best < i,
                forall|j: int| 0 <= j < i ==> staler_or_same(self.records@[best as int].pair().1, #[trigger] self.records@[j].pair().1),
            decreases self.records@.len() - i,
        {
            let a = self.records[i].entry.updated_at_ms;
            let b = self.records[best].entry.updated_at_ms;
            if a < b || (a == b && self.records[i].inserted_seq < self.records[best].inserted_seq) {
                best = i;
            }
            i += 1;
        }
        best
    }

    /// Inserts an entry for a key that is not present, evicting the
    /// stalest entry first when the store is full.
    fn insert_new(&mut self, entry: StateEntry)
        requires
            old(self).wf(),
            !old(self).stored().contains_key(entry.key.view_pair()),
        ensures
            final(self).wf(),
            new_key_step(*old(self), *final(self), entry),
    {
        let ghost k = entry.key.view_pair();
        let ghost m = self.stored();
        let ghost victim: KeyView = k;
        let full = self.records.len() == self.capacity;
        if full {
            let v = self.stalest();
            let ghost before = self.records@;
            proof {
                victim = before[v as int].key();
                lemma_stalest_is_victim(before, v as int);
            }
            let _ = self.records.remove(v);
            proof {
                lemma_sorted_remove(before, v as int);
                lemma_sorted_distinct(before);
                assert(record_pairs(self.records@) =~= record_pairs(before).remove(v as int));
                lemma_distinct_remove(record_pairs(before), v as int);
            }
            self.counters.evicted = bump(self.counters.evicted);
        }
        let ghost mid = self.records@;
        proof {
            lemma_sorted_distinct(mid);
            assert(!to_map(record_pairs(mid)).contains_key(k));
        }
        let slot = self.locate(entry.key.source.as_str(), entry.key.kind.as_str());
        let pos = match slot {
            Slot::Found(i) => {
                proof {
                    lemma_to_map_index(record_pairs(mid), i as int);
                    assert(record_pairs(mid)[i as int].0 == k);
                }
                i
            },
            Slot::Vacant(i) => i,
        };
        let seq = self.next_seq;
        let ghost rec = Record { entry, inserted_seq: seq };
        self.records.insert(pos, Record { entry, inserted_seq: seq });
        self.next_seq = bump(self.next_seq);
        proof {
            assert(rec.key() == k);
            assert(self.records@ == mid.insert(pos as int, rec));
            lemma_insert_sorted(mid, pos as int, rec);
            if full {
                assert(m.contains_key(victim));
                assert(forall|x: KeyView| #[trigger] m.contains_key(x) ==> staler_or_same(m[victim], m[x]));
                assert(self.stored() == m.remove(victim).insert(k, (entry, seq)));
            }
        }
    }

    /// Shared upsert: create with `updates = 1`, or move the current value
    /// into `previous_value`, increment `updates`, and refresh recency.
    /// Enforces the capacity cap before inserting a new key.
    fn apply(&mut self, key: StateKey, value: StateValue, updated_at_ms: i64)
        requires
            old(self).wf(),
        ensures
            final(self).wf(),
            upsert_step(*old(self), *final(self), key, value, updated_at_ms),
    {
        let ghost k = key.view_pair();
        let ghost before = self.records@;
        proof {
            lemma_sorted_distinct(before);
        }
        match self.locate(key.source.as_str(), key.kind.as_str()) {
            Slot::Found(i) => {
                proof {
                    lemma_to_map_index(record_pairs(before), i as int);
                }
                let previous = self.records[i].entry.value.clone();
                let updates = bump(self.records[i].entry.updates);
                let rec = &mut self.records[i];
                rec.entry.previous_value = Some(previous);
                rec.entry.value = value;
                rec.entry.updated_at_ms = updated_at_ms;
                rec.entry.updates = updates;
                proof {
                    let e = self.records@[i as int].entry;
                    assert(self.records@[i as int].key() == before[i as int].key());
                    assert(record_pairs(self.records@) =~= record_pairs(before).update(
                        i as int,
                        (k, (e, before[i as int].inserted_seq)),
                    ));
                    lemma_distinct_update(record_pairs(before), i as int, (e, before[i as int].inserted_seq));
                    assert forall|a: int, b: int| 0 <= a < b < self.records@.len() implies pair_lt(
                        #[trigger] self.records@[a].key(),
                        #[trigger] self.records@[b].key(),
                    ) by {
                        assert(self.records@[a].key() == before[a].key());
                        assert(self.records@[b].key() == before[b].key());
                    }
                }
            },
            Slot::Vacant(p) => {
                proof {
                    lemma_vacant_absent(before, k, p as int);
                }
                let ghost v = value;
                self.insert_new(StateEntry { key, value, previous_value: None, updated_at_ms, updates: 1 });
            },
        }
    }

    /// Applies one pipeline output to the store: a raw event updates its
    /// key with `updated_at_ms = event.timestamp`; a window summary stores
    /// its mean, current as of the window's end.
    pub fn observe(&mut self, output: &Output)
        requires
            old(self).wf(),
        ensures
            final(self).wf(),
            observed(*old(self), *final(self), *output),
    {
        match output {
            Output::Event(event) => {
                let key = StateKey { source: event.source.clone(), kind: event.kind.clone() };
                let value = StateValue::from_payload(&event.payload);
                self.apply(key, value, event.timestamp);
            },
            Output::Aggregated(summary) => {
                let key = StateKey { source: summary.source.clone(), kind: summary.kind.clone() };
                self.apply(key, StateValue::Numeric(summary.mean), summary.window_end_ms);
            },
        }
    }

    /// Loads a previously saved entry (the restore path): an existing key
    /// takes the saved entry; a new key is inserted under the capacity cap
    /// like any other.
    pub fn restore_entry(&mut self, entry: StateEntry)
        requires
            old(self).wf(),
        ensures
            final(self).wf(),
            restore_step(*old(self), *final(self), entry),
    {
        let ghost k = entry.key.view_pair();
        let ghost before = self.records@;
        proof {
            lemma_sorted_distinct(before);
        }
        match self.locate(entry.key.source.as_str(), entry.key.kind.as_str()) {
            Slot::Found(i) => {
                proof {
                    lemma_to_map_index(record_pairs(before), i as int);
                }
                let seq = self.records[i].inserted_seq;
                self.records.set(i, Record { entry, inserted_seq: seq });
                proof {
                    assert(record_pairs(self.records@) =~= record_pairs(before).update(i as int, (k, (entry, seq))));
                    lemma_distinct_update(record_pairs(before), i as int, (entry, seq));
                    assert forall|a: int, b: int| 0 <= a < b < self.records@.len() implies pair_lt(
                        #[trigger] self.records@[a].key(),
                        #[trigger] self.records@[b].key(),
                    ) by {
                        assert(self.records@[a].key() == before[a].key());
                        assert(self.records@[b].key() == before[b].key());
                    }
                }
            },
            Slot::Vacant(p) => {
                proof {
                    lemma_vacant_absent(before, k, p as int);
                }
                self.insert_new(entry);
            },
        }
    }

    /// Reads one key's current snapshot.
    pub fn get(&self, key: &StateKey) -> (r: Option<&StateEntry>)
        requires
            self.wf(),
        ensures
            match r {
                Some(e) => self.stored().contains_key(key.view_pair()) && *e == self.stored()[key.view_pair()].0,
                None => !self.stored().contains_key(key.view_pair()),
            },
    {
        proof {
            lemma_sorted_distinct(self.records@);
        }
        match self.locate(key.source.as_str(), key.kind.as_str()) {
            Slot::Found(i) => {
                proof {
                    lemma_to_map_index(record_pairs(self.records@), i as int);
                }
                Some(&self.records[i].entry)
            },
            Slot::Vacant(p) => {
                proof {
                    lemma_vacant_absent(self.records@, key.view_pair(), p as int);
                }
                None
            },
        }
    }

    /// All entries, sorted by `(source, kind)` so downstream evaluation is
    /// deterministic.
    pub fn entries(&self) -> (r: Vec<&StateEntry>)
        ensures
            r@.len() == self.sorted_entries().len(),
            forall|i: int| 0 <= i < r@.len() ==> *(#[trigger] r@[i]) == self.sorted_entries()[i],
    {
        let mut out: Vec<&StateEntry> = Vec::with_capacity(self.records.len());
        let mut i: usize = 0;
        while i < self.records.len()
            invariant
                i <= self.records@.len(),
                out@.len() == i,
                forall|j: int| 0 <= j < i ==> *(#[trigger] out@[j]) == self.records@[j].entry,
            decreases self.records@.len() - i,
        {
            out.push(&self.records[i].entry);
            i += 1;
        }
        out
    }

    /// Number of retained entries.
    pub fn len(&self) -> (r: usize)
        ensures
            r == self.count(),
    {
        self.records.len()
    }

    /// True when the store holds no entries.
    pub fn is_empty(&self) -> (r: bool)
        ensures
            r == (self.count() == 0),
    {
        self.records.len() == 0
    }

    /// Periodic scan-and-evict with an injected clock. An entry expires
    /// when `now_ms - updated_at_ms >= expire_after_ms`; expired entries
    /// are removed and returned (in key order) with their final values.
    /// Negative ages (producer clock skew) never expire. Returns an empty
    /// vector when expiration is disabled.
    pub fn expire(&mut self, now_ms: i64) -> (r: Vec<StateEntry>)
        requires
            old(self).wf(),
        ensures
            final(self).wf(),
            expiration(*old(self), *final(self), now_ms, r@),
    {
        let limit = match self.expire_after_ms {
            None => {
                return Vec::new();
            },
            Some(x) => x,
        };
        let ghost orig = self.records@;
        let mut old_records: Vec<Record> = Vec::new();
        std::mem::swap(&mut old_records, &mut self.records);
        let n = old_records.len();
        let mut kept: Vec<Record> = Vec::new();
        let mut expired: Vec<StateEntry> = Vec::new();
        proof {
            assert(record_pairs(orig.subrange(0, 0)) =~= Seq::empty());
            assert(record_pairs(kept@) =~= Seq::empty());
            assert(unexpired(to_map(record_pairs(orig.subrange(0, 0))), now_ms, limit) =~= Map::empty());
            assert(entries_of(orig.subrange(0, 0)) =~= Seq::empty());
            assert(entries_of(kept@) =~= Seq::empty());
        }
        // Walk the records front to back, splitting them into kept and
        // expired; both keep key order.
        let mut i: usize = 0;
        while i < n
            invariant
                n == orig.len(),
                i <= n,
                old_records@.len() == n,
                forall|j: int| i <= j < n ==> #[trigger] old_records@[j] == orig[j],
                sorted_records(orig),
                kept@.len() <= i,
                sorted_records(kept@),
                forall|a: int, b: int|
                    0 <= a < kept@.len() && i <= b < n ==> pair_lt(#[trigger] kept@[a].key(), #[trigger] orig[b].key()),
                entries_of(kept@) == kept_entries(entries_of(orig.subrange(0, i as int)), now_ms, limit),
                expired@ == expired_entries(entries_of(orig.subrange(0, i as int)), now_ms, limit),
                to_map(record_pairs(kept@)) == unexpired(to_map(record_pairs(orig.subrange(0, i as int))), now_ms, limit),
            decreases n - i,
        {
            let mut rec = vacated_record();
            old_records.set_and_swap(i, &mut rec);
            let ghost prefix = orig.subrange(0, i as int);
            let ghost next = orig.subrange(0, i + 1);
            let ghost k = rec.key();
            let ghost pm = to_map(record_pairs(prefix));
            proof {
                assert(rec == orig[i as int]);
                assert(next =~= prefix.push(rec));
                assert(entries_of(next).drop_last() =~= entries_of(prefix));
                assert(entries_of(next).last() == rec.entry);
                assert(record_pairs(next).drop_last() =~= record_pairs(prefix));
                assert(record_pairs(next).last() == rec.pair());
                assert(to_map(record_pairs(next)) == pm.insert(k, (rec.entry, rec.inserted_seq)));
                assert forall|j: int| 0 <= j < record_pairs(prefix).len() implies record_pairs(prefix)[j].0 != k by {
                    assert(record_pairs(prefix)[j].0 == orig[j].key());
                    lemma_pair_lt_irreflexive(k);
                }
                lemma_to_map_absent(record_pairs(prefix), k);
            }
            let age_expired = (now_ms as i128) - (rec.entry.updated_at_ms as i128) >= (limit as i128);
            if age_expired {
                proof {
                    assert(unexpired(pm.insert(k, (rec.entry, rec.inserted_seq)), now_ms, limit) =~= unexpired(pm, now_ms, limit));
                }
                expired.push(rec.entry);
            } else {
                let ghost before = kept@;
                proof {
                    assert(unexpired(pm.insert(k, (rec.entry, rec.inserted_seq)), now_ms, limit) =~= unexpired(pm, now_ms, limit).insert(
                        k,
                        (rec.entry, rec.inserted_seq),
                    ));
                }
                kept.push(rec);
                proof {
                    assert(kept@.drop_last() =~= before);
                    assert(entries_of(kept@) =~= entries_of(before).push(rec.entry));
                    assert(record_pairs(kept@).drop_last() =~= record_pairs(before));
                    assert(record_pairs(kept@).last() == rec.pair());
                    assert forall|a: int, b: int| 0 <= a < b < kept@.len() implies pair_lt(
                        #[trigger] kept@[a].key(),
                        #[trigger] kept@[b].key(),
                    ) by {
                        if b == kept@.len() - 1 {
                            assert(kept@[a] == before[a]);
                            assert(kept@[b] == orig[i as int]);
                        } else {
                            assert(kept@[a] == before[a] && kept@[b] == before[b]);
                        }
                    }
                }
            }
            proof {
                assert forall|a: int, b: int| 0 <= a < kept@.len() && i + 1 <= b < n implies pair_lt(
                    #[trigger] kept@[a].key(),
                    #[trigger] orig[b].key(),
                ) by {
                    if kept@[a] == orig[i as int] {
                    } else {
                    }
                }
            }
            i += 1;
        }
        proof {
            assert(orig.subrange(0, n as int) =~= orig);
        }
        self.records = kept;
        self.counters.expired = sat_add_exec(self.counters.expired, expired.len());
        expired
    }

    /// Counter snapshot.
    pub fn counters(&self) -> (r: &StateCounters)
        ensures
            *r == self.counter_values(),
    {
        &self.counters
    }

    /// The listed entries are exactly the stored ones: one per stored key,
    /// with distinct keys, each the entry stored under its key.
    pub proof fn lemma_entries_are_stored(&self)
        requires
            self.wf(),
        ensures
            self.count() == self.sorted_entries().len(),
            forall|j: int|
                0 <= j < self.sorted_entries().len() ==> {
                    &&& self.stored().contains_key((#[trigger] self.sorted_entries()[j]).key.view_pair())
                    &&& self.stored()[self.sorted_entries()[j].key.view_pair()].0 == self.sorted_entries()[j]
                },
            forall|k: KeyView|
                #[trigger] self.stored().contains_key(k) ==> exists|j: int|
                    0 <= j < self.sorted_entries().len() && (#[trigger] self.sorted_entries()[j]).key.view_pair() == k,
            forall|i: int, j: int|
                0 <= i < j < self.sorted_entries().len() ==> (#[trigger] self.sorted_entries()[i]).key.view_pair()
                    != (#[trigger] self.sorted_entries()[j]).key.view_pair(),
    {
        let p = record_pairs(self.records@);
        let e = entries_of(self.records@);
        lemma_sorted_distinct(self.records@);
        assert forall|j: int| 0 <= j < e.len() implies {
            &&& self.stored().contains_key((#[trigger] e[j]).key.view_pair())
            &&& self.stored()[e[j].key.view_pair()].0 == e[j]
        } by {
            lemma_to_map_index(p, j);
            assert(p[j].0 == e[j].key.view_pair());
        }
        assert forall|k: KeyView| #[trigger] self.stored().contains_key(k) implies exists|j: int|
            0 <= j < e.len() && (#[trigger] e[j]).key.view_pair() == k by {
            lemma_to_map_dom(p, k);
            let j = choose|j: int| 0 <= j < p.len() && p[j].0 == k;
            assert(e[j].key.view_pair() == k);
        }
        assert forall|i: int, j: int| 0 <= i < j < e.len() implies (#[trigger] e[i]).key.view_pair()
            != (#[trigger] e[j]).key.view_pair() by {
            assert(p[i].0 == e[i].key.view_pair() && p[j].0 == e[j].key.view_pair());
        }
    }

    /// Law: the store never holds more than `max_entries` entries, and its
    /// entries are strictly ordered by `(source, kind)`.
    pub proof fn law_bounded_and_ordered(&self)
        requires
            self.wf(),
        ensures
            self.count() <= self.capacity(),
            forall|i: int, j: int|
                0 <= i < j < self.sorted_entries().len() ==> pair_lt(
                    #[trigger] self.sorted_entries()[i].key.view_pair(),
                    #[trigger] self.sorted_entries()[j].key.view_pair(),
                ),
    {
        assert forall|i: int, j: int|
            0 <= i < j < self.sorted_entries().len() implies pair_lt(
                #[trigger] self.sorted_entries()[i].key.view_pair(),
                #[trigger] self.sorted_entries()[j].key.view_pair(),
            ) by {
            assert(self.sorted_entries()[i] == self.records@[i].entry);
            assert(self.sorted_entries()[j] == self.records@[j].entry);
            assert(pair_lt(self.records@[i].key(), self.records@[j].key()));
        }
    }
}

/// Law (read after write): after an upsert of `key` to `value` at event
/// time `at`, the store holds `key` with exactly that value and time; the
/// previous value is the one it held before, if any, and the update count
/// restarts at one for a new key.
pub proof fn law_read_after_upsert(pre: StateStore, post: StateStore, key: StateKey, value: StateValue, at: i64)
    requires
        pre.wf(),
        upsert_step(pre, post, key, value, at),
    ensures
        post.stored().contains_key(key.view_pair()),
        post.stored()[key.view_pair()].0.value == value,
        post.stored()[key.view_pair()].0.updated_at_ms == at,
        post.stored()[key.view_pair()].0.previous_value == if pre.stored().contains_key(key.view_pair()) {
            Some(pre.stored()[key.view_pair()].0.value)
        } else {
            None::<StateValue>
        },
        post.stored()[key.view_pair()].0.updates == if pre.stored().contains_key(key.view_pair()) {
            inc(pre.stored()[key.view_pair()].0.updates)
        } else {
            1u64
        },
{
    let k = key.view_pair();
    let m = pre.stored();
    if !m.contains_key(k) && pre.count() == pre.capacity() {
        let e = created_entry(key, value, at);
        let victim = choose|victim: KeyView|
            #![trigger m[victim]]
            {
                &&& m.contains_key(victim)
                &&& forall|x: KeyView| #[trigger] m.contains_key(x) ==> staler_or_same(m[victim], m[x])
                &&& post.stored() == m.remove(victim).insert(e.key.view_pair(), (e, pre.next_insertion()))
            };
        assert(post.stored() == m.remove(victim).insert(k, (e, pre.next_insertion())));
    }
}

/// Law (expiration splits the entries): every entry either survives or
/// is returned as expired, never both; what is returned has expired and
/// what survives has not.
pub proof fn law_expire_partitions(s: Seq<StateEntry>, now: i64, limit: i64)
    ensures
        kept_entries(s, now, limit).len() + expired_entries(s, now, limit).len() == s.len(),
        forall|i: int|
            0 <= i < expired_entries(s, now, limit).len() ==> is_expired(#[trigger] expired_entries(s, now, limit)[i], now, limit),
        forall|i: int|
            0 <= i < kept_entries(s, now, limit).len() ==> !is_expired(#[trigger] kept_entries(s, now, limit)[i], now, limit),
    decreases s.len(),
{
    if s.len() > 0 {
        law_expire_partitions(s.drop_last(), now, limit);
        let k0 = kept_entries(s.drop_last(), now, limit);
        let e0 = expired_entries(s.drop_last(), now, limit);
        assert forall|i: int| 0 <= i < expired_entries(s, now, limit).len() implies is_expired(
            #[trigger] expired_entries(s, now, limit)[i],
            now,
            limit,
        ) by {
            if i < e0.len() {
                assert(expired_entries(s, now, limit)[i] == e0[i]);
            }
        }
        assert forall|i: int| 0 <= i < kept_entries(s, now, limit).len() implies !is_expired(
            #[trigger] kept_entries(s, now, limit)[i],
            now,
            limit,
        ) by {
            if i < k0.len() {
                assert(kept_entries(s, now, limit)[i] == k0[i]);
            }
        }
    }
}

/// `a + n`, saturating at `u64::MAX`.
pub open spec fn sat_add(a: u64, n: nat) -> u64 {
    if a + n <= u64::MAX {
        (a + n) as u64
    } else {
        u64::MAX
    }
}

fn sat_add_exec(a: u64, n: usize) -> (r: u64)
    ensures
        r == sat_add(a, n as nat),
{
    let n64 = n as u64;
    if n64 > u64::MAX - a {
        u64::MAX
    } else {
        a + n64
    }
}

/// The part of `m` that survives expiration at `now` with age limit `limit`.
pub open spec fn unexpired(m: Map<KeyView, Stored>, now: i64, limit: i64) -> Map<KeyView, Stored> {
    Map::new(|k: KeyView| m.contains_key(k) && !is_expired(m[k].0, now, limit), |k: KeyView| m[k])
}

/// A record with empty contents, left behind when a record is moved out.
fn vacated_record() -> (r: Record)
    ensures
        r.entry.key.source@.len() == 0,
        r.entry.key.kind@.len() == 0,
        r.entry.value == StateValue::Boolean(false),
        r.entry.previous_value is None,
        r.entry.updated_at_ms == 0,
        r.entry.updates == 0,
        r.inserted_seq == 0,
{
    Record {
        entry: StateEntry {
            key: StateKey { source: String::new(), kind: String::new() },
            value: StateValue::Boolean(false),
            previous_value: None,
            updated_at_ms: 0,
            updates: 0,
        },
        inserted_seq: 0,
    }
}

/// What inserting an entry for a new key does: under the cap it is
/// added; at the cap the stalest entry is evicted first.
pub open spec fn new_key_step(pre: StateStore, post: StateStore, entry: StateEntry) -> bool {
    let k = entry.key.view_pair();
    let m = pre.stored();
    &&& post.capacity() == pre.capacity()
    &&& post.expire_after() == pre.expire_after()
    &&& post.next_insertion() == inc(pre.next_insertion())
    &&& post.counter_values().expired == pre.counter_values().expired
    &&& if pre.count() == pre.capacity() {
        &&& post.count() == pre.count()
        &&& post.counter_values().evicted == inc(pre.counter_values().evicted)
        &&& exists|victim: KeyView|
            #![trigger m[victim]]
            {
                &&& m.contains_key(victim)
                &&& forall|x: KeyView| #[trigger] m.contains_key(x) ==> staler_or_same(m[victim], m[x])
                &&& post.stored() == m.remove(victim).insert(k, (entry, pre.next_insertion()))
            }
    } else {
        &&& post.count() == pre.count() + 1
        &&& post.counter_values().evicted == pre.counter_values().evicted
        &&& post.stored() == m.insert(k, (entry, pre.next_insertion()))
    }
}

/// What one upsert of `key` to `value` at event-time `at` does.
pub open spec fn upsert_step(pre: StateStore, post: StateStore, key: StateKey, value: StateValue, at: i64) -> bool {
    let k = key.view_pair();
    let m = pre.stored();
    if m.contains_key(k) {
        &&& post.stored() == m.insert(k, (updated_entry(m[k].0, value, at), m[k].1))
        &&& post.count() == pre.count()
        &&& post.capacity() == pre.capacity()
        &&& post.expire_after() == pre.expire_after()
        &&& post.next_insertion() == pre.next_insertion()
        &&& post.counter_values() == pre.counter_values()
    } else {
        new_key_step(pre, post, created_entry(key, value, at))
    }
}

/// The key an output updates.
pub open spec fn output_key(o: Output) -> KeyView {
    match o {
        Output::Event(e) => (e.source@, e.kind@),
        Output::Aggregated(a) => (a.source@, a.kind@),
    }
}

/// Apart from the entry for `key`, `post` holds the entries of `pre` less
/// one stalest entry (smallest update time, then insertion order).
pub open spec fn evicted_stalest(pre: StateStore, post: StateStore, key: KeyView) -> bool {
    let m = pre.stored();
    exists|victim: KeyView|
        #![trigger m[victim]]
        {
            &&& m.contains_key(victim)
            &&& forall|x: KeyView| #[trigger] m.contains_key(x) ==> staler_or_same(m[victim], m[x])
            &&& post.stored().remove(key) == m.remove(victim)
        }
}

/// Every state of a run of observations keeps the first state's capacity
/// and holds at most that many entries.
proof fn lemma_run_bounded(trace: Seq<StateStore>, outputs: Seq<Output>, k: int)
    requires
        trace.len() == outputs.len() + 1,
        trace[0].wf(),
        forall|i: int| 0 <= i < outputs.len() ==> #[trigger] observed(trace[i], trace[i + 1], outputs[i]),
        0 <= k < trace.len(),
    ensures
        trace[k].capacity() == trace[0].capacity(),
        trace[k].count() <= trace[0].capacity(),
    decreases k,
{
    if k == 0 {
        trace[0].law_bounded_and_ordered();
    } else {
        lemma_run_bounded(trace, outputs, k - 1);
        let j = k - 1;
        assert(observed(trace[j], trace[j + 1], outputs[j]));
    }
}

/// Law (bounded store): over any run of observations from a well-formed
/// store, the capacity never changes and the store never holds more
/// entries than it; updating a retained key neither evicts nor changes
/// the count; a new key arriving while the store is full evicts exactly
/// one stalest entry and adds one to the eviction counter.
pub proof fn law_store_bounded(trace: Seq<StateStore>, outputs: Seq<Output>)
    requires
        trace.len() == outputs.len() + 1,
        trace[0].wf(),
        forall|i: int| 0 <= i < outputs.len() ==> #[trigger] observed(trace[i], trace[i + 1], outputs[i]),
    ensures
        forall|k: int|
            0 <= k < trace.len() ==> (#[trigger] trace[k]).capacity() == trace[0].capacity() && trace[k].count()
                <= trace[0].capacity(),
        forall|i: int|
            0 <= i < outputs.len() && #[trigger] trace[i].stored().contains_key(output_key(outputs[i])) ==> {
                &&& trace[i + 1].count() == trace[i].count()
                &&& trace[i + 1].counter_values().evicted == trace[i].counter_values().evicted
            },
        forall|i: int|
            0 <= i < outputs.len() && !trace[i].stored().contains_key(output_key(outputs[i])) && #[trigger] trace[i].count()
                == trace[i].capacity() ==> {
                &&& trace[i + 1].count() == trace[i].count()
                &&& trace[i + 1].counter_values().evicted == inc(trace[i].counter_values().evicted)
                &&& evicted_stalest(trace[i], trace[i + 1], output_key(outputs[i]))
            },
{
    assert forall|k: int| 0 <= k < trace.len() implies (#[trigger] trace[k]).capacity() == trace[0].capacity()
        && trace[k].count() <= trace[0].capacity() by {
        lemma_run_bounded(trace, outputs, k);
    }
    assert forall|i: int|
        0 <= i < outputs.len() && #[trigger] trace[i].stored().contains_key(output_key(outputs[i])) implies {
            &&& trace[i + 1].count() == trace[i].count()
            &&& trace[i + 1].counter_values().evicted == trace[i].counter_values().evicted
        } by {
        assert(observed(trace[i], trace[i + 1], outputs[i]));
    }
    assert forall|i: int|
        0 <= i < outputs.len() && !trace[i].stored().contains_key(output_key(outputs[i])) && #[trigger] trace[i].count()
            == trace[i].capacity() implies {
            &&& trace[i + 1].count() == trace[i].count()
            &&& trace[i + 1].counter_values().evicted == inc(trace[i].counter_values().evicted)
            &&& evicted_stalest(trace[i], trace[i + 1], output_key(outputs[i]))
        } by {
        assert(observed(trace[i], trace[i + 1], outputs[i]));
        let m = trace[i].stored();
        let k = output_key(outputs[i]);
        let entry = match outputs[i] {
            Output::Event(e) => created_entry(StateKey { source: e.source, kind: e.kind }, value_of_payload(e.payload), e.timestamp),
            Output::Aggregated(a) => created_entry(StateKey { source: a.source, kind: a.kind }, StateValue::Numeric(a.mean), a.window_end_ms),
        };
        let victim = choose|victim: KeyView|
            #![trigger m[victim]]
            {
                &&& m.contains_key(victim)
                &&& forall|x: KeyView| #[trigger] m.contains_key(x) ==> staler_or_same(m[victim], m[x])
                &&& trace[i + 1].stored() == m.remove(victim).insert(k, (entry, trace[i].next_insertion()))
            };
        assert(m.contains_key(victim));
        assert(trace[i + 1].stored().remove(k) =~= m.remove(victim));
    }
}

} // verus!
