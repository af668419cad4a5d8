//! The metrics model: a fixed-field registry with bounded per-stage
//! latency rings and a throughput window.
//!
//! Bounded state applies to metrics too: the ring overwrites its oldest
//! sample; there are no dynamic labels and no unbounded series. Averages
//! and rates (floating point) are rendered by the application from the
//! exact sums and counts kept here.

use std::collections::VecDeque;

use vstd::prelude::*;
use vstd::relations::sorted_by;

use crate::floatbits::FloatArith;
use crate::json::{json_object, json_u64_value, members_view, object_of, u64_value};
use crate::text::owned;
use crate::processing::{bump, inc};

verus! {

#[verifier::external_type_specification]
#[verifier::external_body]
pub struct ExInstant(std::time::Instant);

/// Trusted: `Instant::now()`, the monotonic clock.
#[verifier::external_body]
pub(crate) fn instant_now() -> std::time::Instant {
    std::time::Instant::now()
}

/// Trusted: `Instant::elapsed` in whole milliseconds (saturating at
/// `u64::MAX`); it depends on the clock, so nothing is promised of it.
#[verifier::external_body]
pub(crate) fn elapsed_ms(since: &std::time::Instant) -> u64 {
    u64::try_from(since.elapsed().as_millis()).unwrap_or(u64::MAX)
}

/// Trusted: `Instant::elapsed` in whole nanoseconds (saturating at
/// `u64::MAX`); it depends on the clock, so nothing is promised of it.
#[verifier::external_body]
pub(crate) fn elapsed_ns(since: &std::time::Instant) -> u64 {
    u64::try_from(since.elapsed().as_nanos()).unwrap_or(u64::MAX)
}

/// The ascending order on samples.
pub open spec fn ascending() -> spec_fn(u64, u64) -> bool {
    |a: u64, b: u64| a <= b
}

/// `<=` on samples is a total order.
pub proof fn lemma_ascending_total()
    ensures
        vstd::relations::total_ordering(ascending()),
{
    let r = ascending();
    assert(vstd::relations::reflexive(r));
    assert(vstd::relations::antisymmetric(r));
    assert forall|x: u64, y: u64, z: u64| #[trigger] r(x, y) && #[trigger] r(y, z) implies r(x, z) by {}
    assert(vstd::relations::strongly_connected(r));
}

/// The sum of a sequence of samples.
pub open spec fn sum_of(s: Seq<u64>) -> int
    decreases s.len(),
{
    if s.len() == 0 {
        0
    } else {
        sum_of(s.drop_last()) + s.last()
    }
}

/// The 1-based nearest rank `rank` clamped to `1..=n`, as a 0-based index.
pub open spec fn clamped_index(rank: usize, n: nat) -> int {
    if rank < 1 {
        0
    } else if rank > n {
        n - 1
    } else {
        rank - 1
    }
}

/// What recording `ms` does to a ring: the capacity stays, the sample is
/// appended, and the oldest is dropped when the ring was full.
pub open spec fn ring_recorded(pre: LatencyRing, post: LatencyRing, ms: u64) -> bool {
    &&& post.wf()
    &&& post.capacity() == pre.capacity()
    &&& post.samples() == if pre.samples().len() == pre.capacity() {
        pre.samples().drop_first().push(ms)
    } else {
        pre.samples().push(ms)
    }
}

/// Law (bounded ring): after `k` recordings into an empty ring, it holds
/// `min(k, capacity)` samples, never more than its capacity.
pub proof fn law_ring_holds_latest(trace: Seq<LatencyRing>, recorded: Seq<u64>)
    requires
        trace.len() == recorded.len() + 1,
        trace[0].wf(),
        trace[0].samples().len() == 0,
        forall|i: int| 0 <= i < recorded.len() ==> ring_recorded(#[trigger] trace[i], trace[i + 1], recorded[i]),
    ensures
        forall|k: int| 0 <= k < trace.len() ==> {
            &&& (#[trigger] trace[k]).capacity() == trace[0].capacity()
            &&& trace[k].samples().len() == if k < trace[0].capacity() {
                k
            } else {
                trace[0].capacity() as int
            }
        },
    decreases recorded.len(),
{
    if recorded.len() > 0 {
        let n = recorded.len() - 1;
        law_ring_holds_latest(trace.take(n + 1), recorded.take(n));
        assert forall|k: int| 0 <= k < trace.len() implies {
            &&& (#[trigger] trace[k]).capacity() == trace[0].capacity()
            &&& trace[k].samples().len() == if k < trace[0].capacity() {
                k
            } else {
                trace[0].capacity() as int
            }
        } by {
            if k < n + 1 {
                assert(trace.take(n + 1)[k] == trace[k]);
            } else {
                assert(trace.take(n + 1)[n] == trace[n]);
                assert(ring_recorded(trace[n], trace[n + 1], recorded[n]));
            }
        }
    }
}

/// One per-stage latency ring. Capacity-bounded (default 1024): when full,
/// the oldest sample is overwritten.
#[derive(Debug, Clone)]
pub struct LatencyRing {
    samples: VecDeque<u64>,
    capacity: usize,
}

impl LatencyRing {
    /// The retained samples, oldest first.
    pub closed spec fn samples(&self) -> Seq<u64> {
        self.samples@
    }

    /// How many samples the ring retains at most.
    pub closed spec fn capacity(&self) -> nat {
        self.capacity as nat
    }

    /// Positive capacity, never exceeded.
    pub closed spec fn wf(&self) -> bool {
        self.capacity >= 1 && self.samples@.len() <= self.capacity
    }

    /// A ring retaining at most `capacity` samples (at least one).
    pub fn new(capacity: usize) -> (r: Self)
        ensures
            r.wf(),
            r.capacity() == if capacity < 1 {
                1
            } else {
                capacity as nat
            },
            r.samples() == Seq::<u64>::empty(),
    {
        let cap = if capacity < 1 {
            1
        } else {
            capacity
        };
        LatencyRing { samples: VecDeque::new(), capacity: cap }
    }

    /// Records one duration in milliseconds, dropping the oldest sample
    /// when the ring is full.
    pub fn record_ms(&mut self, ms: u64)
        requires
            old(self).wf(),
        ensures
            ring_recorded(*old(self), *final(self), ms),
    {
        if self.samples.len() == self.capacity {
            let _ = self.samples.pop_front();
        }
        self.samples.push_back(ms);
    }

    /// Number of retained samples.
    pub fn len(&self) -> (r: usize)
        ensures
            r == self.samples().len(),
    {
        self.samples.len()
    }

    /// True when no sample is retained.
    pub fn is_empty(&self) -> (r: bool)
        ensures
            r == (self.samples().len() == 0),
    {
        self.samples.len() == 0
    }

    /// The exact sum of the retained samples (the average is this over
    /// `len`).
    pub fn sum_ms(&self) -> (r: u128)
        requires
            self.wf(),
        ensures
            r == sum_of(self.samples()),
    {
        let mut total: u128 = 0;
        let mut i: usize = 0;
        while i < self.samples.len()
            invariant
                i <= self.samples@.len(),
                self.samples@.len() <= usize::MAX,
                total == sum_of(self.samples@.subrange(0, i as int)),
                total <= i * (u64::MAX as int),
            decreases self.samples@.len() - i,
        {
            let ghost pre = self.samples@.subrange(0, i as int);
            assert(self.samples@.subrange(0, i + 1).drop_last() =~= pre);
            let v = self.samples[i];
            proof {
                assert(total + v <= (i + 1) * (u64::MAX as int)) by (nonlinear_arith)
                    requires
                        total <= i * (u64::MAX as int),
                        v <= u64::MAX,
                ;
                assert((i + 1) * (u64::MAX as int) <= u128::MAX) by (nonlinear_arith)
                    requires
                        i + 1 <= usize::MAX,
                        usize::MAX <= u64::MAX,
                ;
            }
            total = total + v as u128;
            i += 1;
        }
        assert(self.samples@.subrange(0, i as int) =~= self.samples@);
        total
    }

    /// The retained samples in ascending order.
    pub fn sorted_samples(&self) -> (r: Vec<u64>)
        ensures
            r@ == self.samples().sort_by(ascending()),
    {
        let mut out: Vec<u64> = Vec::new();
        let mut i: usize = 0;
        proof {
            assert(self.samples@.subrange(0, 0) =~= out@);
        }
        while i < self.samples.len()
            invariant
                i <= self.samples@.len(),
                forall|a: int, b: int| 0 <= a < b < out@.len() ==> #[trigger] out@[a] <= #[trigger] out@[b],
                out@.to_multiset() == self.samples@.subrange(0, i as int).to_multiset(),
            decreases self.samples@.len() - i,
        {
            broadcast use vstd::seq_lib::to_multiset_insert, vstd::seq_lib::to_multiset_build;

            let v = self.samples[i];
            let mut pos: usize = 0;
            while pos < out.len() && out[pos] <= v
                invariant
                    pos <= out@.len(),
                    forall|k: int| 0 <= k < pos ==> out@[k] <= v,
                decreases out@.len() - pos,
            {
                pos += 1;
            }
            proof {
                assert(self.samples@.subrange(0, i + 1) =~= self.samples@.subrange(0, i as int).push(v));
                let t = out@.insert(pos as int, v);
                assert(pos < out@.len() ==> out@[pos as int] > v);
                assert forall|a: int, b: int| 0 <= a < b < t.len() implies #[trigger] t[a] <= #[trigger] t[b] by {
                    if b < pos {
                        assert(t[a] == out@[a] && t[b] == out@[b]);
                    } else if b == pos {
                        assert(t[a] == out@[a] && t[b] == v);
                    } else if a == pos {
                        assert(t[a] == v && t[b] == out@[b - 1]);
                        if b - 1 > pos {
                            assert(out@[pos as int] <= out@[b - 1]);
                        }
                    } else if a < pos {
                        assert(t[a] == out@[a] && t[b] == out@[b - 1]);
                    } else {
                        assert(t[a] == out@[a - 1] && t[b] == out@[b - 1]);
                    }
                }
            }
            out.insert(pos, v);
            i += 1;
        }
        proof {
            assert(self.samples@.subrange(0, i as int) =~= self.samples@);
            lemma_ascending_total();
            assert(sorted_by(out@, ascending()));
            self.samples@.lemma_sort_by_ensures(ascending());
            vstd::seq_lib::lemma_sorted_unique(out@, self.samples@.sort_by(ascending()), ascending());
        }
        out
    }

    /// The sample of nearest rank `rank` (1-based, clamped to the number
    /// of samples) in ascending order; 0 when the ring is empty. The
    /// percentile `p` is the sample of rank `ceil(p / 100 * len)`.
    pub fn sample_at_rank(&self, rank: usize) -> (r: u64)
        ensures
            self.samples().len() == 0 ==> r == 0,
            self.samples().len() > 0 ==> r == self.samples().sort_by(ascending())[clamped_index(
                rank,
                self.samples().len(),
            )],
    {
        let sorted = self.sorted_samples();
        proof {
            let leq = ascending();
            lemma_ascending_total();
            self.samples@.lemma_sort_by_ensures(leq);
            vstd::seq_lib::to_multiset_len(self.samples@);
            vstd::seq_lib::to_multiset_len(sorted@);
        }
        let n = sorted.len();
        if n == 0 {
            return 0;
        }
        let index = if rank < 1 {
            0
        } else if rank > n {
            n - 1
        } else {
            rank - 1
        };
        sorted[index]
    }
}


impl LatencyRing {
    /// The average of the retained samples in ms, as a binary64 pattern
    /// (`sum / len`, computed by `arith`); 0.0 when empty.
    pub fn avg_ms<F: FloatArith>(&self, arith: &F) -> (r: u64)
        requires
            self.wf(),
        ensures
            self.samples().len() == 0 ==> r == 0,
            self.samples().len() > 0 ==> call_ensures(
                F::ratio,
                (arith, sum_of(self.samples()) as u128, self.samples().len() as u64),
                r,
            ),
    {
        let n = self.samples.len();
        if n == 0 {
            return 0;
        }
        let sum = self.sum_ms();
        arith.ratio(sum, n as u64)
    }

    /// The nearest-rank percentile of the retained samples in ms, for the
    /// percentile with pattern `p_bits`: the sample of rank
    /// `ceil(p / 100 * len)` clamped to `1..=len`; 0 when empty.
    pub fn percentile_ms<F: FloatArith>(&self, p_bits: u64, arith: &F) -> (r: u64)
        ensures
            is_percentile_of(*self, r),
    {
        let n = self.samples.len();
        let rank = arith.nearest_rank(p_bits, n);
        self.sample_at_rank(rank)
    }
}

/// `v` is a nearest-rank sample of the ring: 0 when it is empty, else the
/// sample of some rank, clamped.
pub open spec fn is_percentile_of(ring: LatencyRing, v: u64) -> bool {
    if ring.samples().len() == 0 {
        v == 0
    } else {
        exists|rank: usize| v == #[trigger] ring.samples().sort_by(ascending())[clamped_index(rank, ring.samples().len())]
    }
}

/// The JSON object of one latency stage: members `avg`, `p95`, `p99`.
pub open spec fn stage_object(avg: serde_json::Value, p95: u64, p99: u64) -> serde_json::Value {
    object_of(seq![("avg"@, avg), ("p95"@, u64_value(p95)), ("p99"@, u64_value(p99))])
}

/// The JSON object of a metrics snapshot: `events_per_sec`,
/// `events_total`, and `latency_ms` with the members `batch`, `pipeline`
/// and `action`.
pub open spec fn metrics_object(
    events_per_sec: serde_json::Value,
    events_total: u64,
    batch: serde_json::Value,
    pipeline: serde_json::Value,
    action: serde_json::Value,
) -> serde_json::Value {
    object_of(
        seq![
            ("events_per_sec"@, events_per_sec),
            ("events_total"@, u64_value(events_total)),
            ("latency_ms"@, object_of(seq![("batch"@, batch), ("pipeline"@, pipeline), ("action"@, action)])),
        ],
    )
}

/// Builds the stage object.
fn stage_json(avg: serde_json::Value, p95: u64, p99: u64) -> (r: serde_json::Value)
    ensures
        r == stage_object(avg, p95, p99),
{
    let ghost a = avg;
    let members = vec![
        (owned("avg"), avg),
        (owned("p95"), json_u64_value(p95)),
        (owned("p99"), json_u64_value(p99)),
    ];
    proof {
        assert(members_view(members@) =~= seq![("avg"@, a), ("p95"@, u64_value(p95)), ("p99"@, u64_value(p99))]);
    }
    json_object(members)
}

/// Builds the metrics snapshot object.
fn metrics_json(
    events_per_sec: serde_json::Value,
    events_total: u64,
    batch: serde_json::Value,
    pipeline: serde_json::Value,
    action: serde_json::Value,
) -> (r: serde_json::Value)
    ensures
        r == metrics_object(events_per_sec, events_total, batch, pipeline, action),
{
    let ghost (e0, b0, p0, a0) = (events_per_sec, batch, pipeline, action);
    let stages = vec![(owned("batch"), batch), (owned("pipeline"), pipeline), (owned("action"), action)];
    proof {
        assert(members_view(stages@) =~= seq![("batch"@, b0), ("pipeline"@, p0), ("action"@, a0)]);
    }
    let latency = json_object(stages);
    let members = vec![
        (owned("events_per_sec"), events_per_sec),
        (owned("events_total"), json_u64_value(events_total)),
        (owned("latency_ms"), latency),
    ];
    proof {
        assert(members_view(members@) =~= seq![
            ("events_per_sec"@, e0),
            ("events_total"@, u64_value(events_total)),
            ("latency_ms"@, object_of(seq![("batch"@, b0), ("pipeline"@, p0), ("action"@, a0)])),
        ]);
    }
    json_object(members)
}

/// `v` is the JSON of a stage over the ring: its average, and samples of
/// nearest rank for the 95th and 99th percentiles.
pub open spec fn is_stage_of(ring: LatencyRing, v: serde_json::Value) -> bool {
    exists|avg: serde_json::Value, p95: u64, p99: u64|
        #![trigger stage_object(avg, p95, p99)]
        v == stage_object(avg, p95, p99) && is_percentile_of(ring, p95) && is_percentile_of(ring, p99)
}

/// The pattern of 95.0.
pub const P95_BITS: u64 = 0x4057_C000_0000_0000;

/// The pattern of 99.0.
pub const P99_BITS: u64 = 0x4058_C000_0000_0000;

/// The JSON of one stage: average and the 95th and 99th percentiles.
fn stage_value<F: FloatArith>(ring: &LatencyRing, arith: &F) -> (r: serde_json::Value)
    requires
        ring.wf(),
    ensures
        is_stage_of(*ring, r),
{
    let avg = arith.number_json(ring.avg_ms(arith));
    let p95 = ring.percentile_ms(P95_BITS, arith);
    let p99 = ring.percentile_ms(P99_BITS, arith);
    let r = stage_json(avg, p95, p99);
    assert(r == stage_object(avg, p95, p99));
    r
}

impl Default for LatencyRing {
    fn default() -> (r: Self)
        ensures
            r.wf(),
            r.capacity() == 1024,
            r.samples() == Seq::<u64>::empty(),
    {
        LatencyRing::new(1024)
    }
}

/// The buckets left after dropping, from the front, those recorded before
/// `cutoff`.
pub open spec fn drop_stale(s: Seq<(u64, u64)>, cutoff: u64) -> Seq<(u64, u64)>
    decreases s.len(),
{
    if s.len() > 0 && s[0].0 < cutoff {
        drop_stale(s.drop_first(), cutoff)
    } else {
        s
    }
}

/// The total count of a sequence of buckets.
pub open spec fn bucket_total(s: Seq<(u64, u64)>) -> int
    decreases s.len(),
{
    if s.len() == 0 {
        0
    } else {
        bucket_total(s.drop_last()) + s.last().1
    }
}

/// The start of the window of length `window_ns` that ends at `now_ns`
/// (zero while the clock has not yet run a whole window).
pub open spec fn window_cutoff(window_ns: u64, now_ns: u64) -> u64 {
    if now_ns >= window_ns {
        (now_ns - window_ns) as u64
    } else {
        0
    }
}

/// `a + b`, saturating at `u64::MAX`.
pub open spec fn sat_add(a: u64, b: u64) -> u64 {
    if a + b <= u64::MAX {
        (a + b) as u64
    } else {
        u64::MAX
    }
}

/// `min(n, u64::MAX)`.
pub open spec fn capped(n: int) -> int {
    if n <= u64::MAX {
        n
    } else {
        u64::MAX as int
    }
}

/// What one call on a throughput window does to its lifetime total:
/// `count` events are added (saturating); the window length stays.
/// `record_event` adds 1, `record_events` its count, and the reading and
/// eviction calls add 0.
pub open spec fn throughput_step(pre: ThroughputWindow, post: ThroughputWindow, count: u64) -> bool {
    &&& post.total() == sat_add(pre.total(), count)
    &&& post.window_len() == pre.window_len()
}

/// Law (lifetime total): over any sequence of calls on a window that
/// starts with a zero total (as `new` and `with_window_secs` give), where
/// call `i` adds `counts[i]` events (`throughput_step`), the total is the
/// number of `record_event` calls plus the counts of the `record_events`
/// calls, saturating at `u64::MAX`; it never decreases, however old the
/// buckets grow.
pub proof fn law_total_counts_every_event(trace: Seq<ThroughputWindow>, counts: Seq<u64>)
    requires
        trace.len() == counts.len() + 1,
        trace[0].total() == 0,
        forall|i: int| 0 <= i < counts.len() ==> #[trigger] throughput_step(trace[i], trace[i + 1], counts[i]),
    ensures
        forall|k: int| 0 <= k < trace.len() ==> (#[trigger] trace[k]).total() == capped(sum_of(counts.take(k))),
        forall|a: int, b: int| 0 <= a <= b < trace.len() ==> #[trigger] trace[a].total() <= #[trigger] trace[b].total(),
    decreases counts.len(),
{
    if counts.len() > 0 {
        let n = counts.len() - 1;
        let t = trace.take(n + 1);
        let c = counts.take(n);
        assert forall|i: int| 0 <= i < c.len() implies #[trigger] throughput_step(t[i], t[i + 1], c[i]) by {
            assert(throughput_step(trace[i], trace[i + 1], counts[i]));
        }
        law_total_counts_every_event(t, c);
        assert forall|k: int| 0 <= k < trace.len() implies (#[trigger] trace[k]).total() == capped(
            sum_of(counts.take(k)),
        ) by {
            if k <= n {
                assert(t[k] == trace[k]);
                assert(c.take(k) =~= counts.take(k));
            } else {
                assert(t[n] == trace[n]);
                assert(c.take(n) =~= counts.take(n));
                assert(counts.take(k).drop_last() =~= counts.take(n));
                assert(throughput_step(trace[n], trace[n + 1], counts[n]));
            }
        }
        assert forall|a: int, b: int| 0 <= a <= b < trace.len() implies #[trigger] trace[a].total() <= #[trigger] trace[b].total() by {
            if b <= n {
                assert(t[a] == trace[a]);
                assert(t[b] == trace[b]);
            } else if a <= n {
                assert(t[a] == trace[a]);
                assert(t[n] == trace[n]);
                assert(throughput_step(trace[n], trace[n + 1], counts[n]));
            }
        }
    }
}

/// Sliding throughput window: event-count buckets stamped with the
/// monotonic time (nanoseconds since the window was created) at which
/// they were recorded.
#[derive(Debug)]
pub struct ThroughputWindow {
    buckets: VecDeque<(u64, u64)>,
    window_secs: u64,
    total_since_start: u64,
    origin: std::time::Instant,
}

impl ThroughputWindow {
    /// The retained `(recorded_at_ns, count)` buckets, oldest first.
    pub closed spec fn buckets(&self) -> Seq<(u64, u64)> {
        self.buckets@
    }

    /// The window length in seconds.
    pub closed spec fn window_len(&self) -> u64 {
        self.window_secs
    }

    /// Events recorded since the window was created (saturating).
    pub closed spec fn total(&self) -> u64 {
        self.total_since_start
    }

    /// The window length in nanoseconds (saturating).
    pub open spec fn window_ns(&self) -> u64 {
        if self.window_len() * 1_000_000_000 <= u64::MAX {
            (self.window_len() * 1_000_000_000) as u64
        } else {
            u64::MAX
        }
    }

    /// A one-minute window.
    pub fn new() -> (r: Self)
        ensures
            r.window_len() == 60,
            r.total() == 0,
            r.buckets() == Seq::<(u64, u64)>::empty(),
    {
        ThroughputWindow::with_window_secs(60)
    }

    /// A window of `window_secs` seconds (at least one).
    pub fn with_window_secs(window_secs: u64) -> (r: Self)
        ensures
            r.window_len() == if window_secs < 1 {
                1
            } else {
                window_secs
            },
            r.total() == 0,
            r.buckets() == Seq::<(u64, u64)>::empty(),
    {
        let secs = if window_secs < 1 {
            1
        } else {
            window_secs
        };
        ThroughputWindow { buckets: VecDeque::new(), window_secs: secs, total_since_start: 0, origin: instant_now() }
    }

    /// Window length in seconds.
    pub fn window_secs(&self) -> (r: u64)
        ensures
            r == self.window_len(),
    {
        self.window_secs
    }

    /// Records one event arrival now.
    pub fn record_event(&mut self)
        ensures
            throughput_step(*old(self), *final(self), 1),
    {
        self.record_events(1);
    }

    /// Records `count` event arrivals now: as `record_events_at` at some
    /// reading of the window's monotonic clock.
    pub fn record_events(&mut self, count: u64)
        ensures
            throughput_step(*old(self), *final(self), count),
            exists|now_ns: u64|
                final(self).buckets() == drop_stale(
                    #[trigger] old(self).buckets().push((now_ns, count)),
                    window_cutoff(old(self).window_ns(), now_ns),
                ),
    {
        let now = elapsed_ns(&self.origin);
        self.record_events_at(count, now);
    }

    /// Records `count` event arrivals at monotonic time `now_ns`, then
    /// drops the buckets older than the window.
    pub fn record_events_at(&mut self, count: u64, now_ns: u64)
        ensures
            throughput_step(*old(self), *final(self), count),
            final(self).buckets() == drop_stale(
                old(self).buckets().push((now_ns, count)),
                window_cutoff(old(self).window_ns(), now_ns),
            ),
    {
        self.buckets.push_back((now_ns, count));
        self.total_since_start = if count > u64::MAX - self.total_since_start {
            u64::MAX
        } else {
            self.total_since_start + count
        };
        self.evict_before(now_ns);
    }

    /// The current rate in events per second over the window ending now,
    /// as a binary64 pattern (`count / window_secs`, computed by `arith`).
    pub fn events_per_sec<F: FloatArith>(&mut self, arith: &F) -> (r: u64)
        ensures
            throughput_step(*old(self), *final(self), 0),
            exists|now_ns: u64|
                final(self).buckets() == drop_stale(
                    old(self).buckets(),
                    #[trigger] window_cutoff(old(self).window_ns(), now_ns),
                ),
            call_ensures(
                F::ratio,
                (arith, bucket_total(final(self).buckets()) as u128, final(self).window_len()),
                r,
            ),
    {
        let count = self.events_in_window();
        arith.ratio(count, self.window_secs)
    }

    /// Events counted in the window ending now (the rate is this over the
    /// window length).
    pub fn events_in_window(&mut self) -> (r: u128)
        ensures
            throughput_step(*old(self), *final(self), 0),
            exists|now_ns: u64|
                final(self).buckets() == drop_stale(
                    old(self).buckets(),
                    #[trigger] window_cutoff(old(self).window_ns(), now_ns),
                ),
            r == bucket_total(final(self).buckets()),
    {
        let now = elapsed_ns(&self.origin);
        self.events_in_window_at(now)
    }

    /// Events counted in the window ending at monotonic time `now_ns`,
    /// after dropping the buckets older than the window.
    pub fn events_in_window_at(&mut self, now_ns: u64) -> (r: u128)
        ensures
            throughput_step(*old(self), *final(self), 0),
            final(self).buckets() == drop_stale(
                old(self).buckets(),
                window_cutoff(old(self).window_ns(), now_ns),
            ),
            r == bucket_total(final(self).buckets()),
    {
        self.evict_before(now_ns);
        let mut total: u128 = 0;
        let mut i: usize = 0;
        while i < self.buckets.len()
            invariant
                i <= self.buckets@.len(),
                total == bucket_total(self.buckets@.subrange(0, i as int)),
                total <= i * (u64::MAX as int),
            decreases self.buckets@.len() - i,
        {
            let ghost pre = self.buckets@.subrange(0, i as int);
            assert(self.buckets@.subrange(0, i + 1).drop_last() =~= pre);
            let (_, c) = self.buckets[i];
            proof {
                assert(total + c <= (i + 1) * (u64::MAX as int)) by (nonlinear_arith)
                    requires
                        total <= i * (u64::MAX as int),
                        c <= u64::MAX,
                ;
                assert((i + 1) * (u64::MAX as int) <= u128::MAX) by (nonlinear_arith)
                    requires
                        i + 1 <= usize::MAX,
                        usize::MAX <= u64::MAX,
                ;
            }
            total = total + c as u128;
            i += 1;
        }
        assert(self.buckets@.subrange(0, i as int) =~= self.buckets@);
        total
    }

    /// Total events since the window was created.
    pub fn total_events(&self) -> (r: u64)
        ensures
            r == self.total(),
    {
        self.total_since_start
    }

    /// Drops, from the front, the buckets recorded before `now_ns` minus
    /// the window length.
    pub fn evict_before(&mut self, now_ns: u64)
        ensures
            throughput_step(*old(self), *final(self), 0),
            final(self).buckets() == drop_stale(
                old(self).buckets(),
                window_cutoff(old(self).window_ns(), now_ns),
            ),
    {
        let window_ns: u64 = if self.window_secs > u64::MAX / 1_000_000_000 {
            u64::MAX
        } else {
            self.window_secs * 1_000_000_000
        };
        proof {
            if self.window_secs > u64::MAX / 1_000_000_000 {
                assert(self.window_secs * 1_000_000_000 > u64::MAX) by (nonlinear_arith)
                    requires
                        self.window_secs > u64::MAX / 1_000_000_000,
                ;
            }
        }
        let cutoff: u64 = if now_ns >= window_ns {
            now_ns - window_ns
        } else {
            0
        };
        loop
            invariant
                drop_stale(old(self).buckets(), cutoff) == drop_stale(self.buckets@, cutoff),
                self.total_since_start == old(self).total(),
                self.window_secs == old(self).window_len(),
            ensures
                drop_stale(old(self).buckets(), cutoff) == self.buckets@,
                self.total_since_start == old(self).total(),
                self.window_secs == old(self).window_len(),
            decreases self.buckets@.len(),
        {
            if self.buckets.len() == 0 {
                break;
            }
            let (at, _) = self.buckets[0];
            if at < cutoff {
                let _ = self.buckets.pop_front();
            } else {
                break;
            }
        }
    }
}

impl Default for ThroughputWindow {
    fn default() -> (r: Self)
        ensures
            r.window_len() == 60,
            r.total() == 0,
    {
        ThroughputWindow::new()
    }
}

/// Fixed-field registry of throughput and latency rings, snapshotted by
/// the status endpoint.
#[derive(Debug)]
pub struct MetricsRegistry {
    /// Events accepted into the pipeline (reached the pipeline boundary).
    pub events_total: ThroughputWindow,
    /// Batch handling latency (validation + enqueue receipt), ms.
    pub batch_latency: LatencyRing,
    /// Pipeline stage latency, ms.
    pub pipeline_latency: LatencyRing,
    /// Action dispatch latency, ms.
    pub action_latency: LatencyRing,
}

impl MetricsRegistry {
    /// The documented starting point: a one-minute window and rings of
    /// 1024 samples.
    pub fn new() -> (r: Self)
        ensures
            r.events_total.window_len() == 60,
            r.events_total.total() == 0,
            r.batch_latency.wf() && r.batch_latency.capacity() == 1024 && r.batch_latency.samples().len() == 0,
            r.pipeline_latency.wf() && r.pipeline_latency.capacity() == 1024 && r.pipeline_latency.samples().len() == 0,
            r.action_latency.wf() && r.action_latency.capacity() == 1024 && r.action_latency.samples().len() == 0,
    {
        MetricsRegistry {
            events_total: ThroughputWindow::new(),
            batch_latency: LatencyRing::new(1024),
            pipeline_latency: LatencyRing::new(1024),
            action_latency: LatencyRing::new(1024),
        }
    }

    /// The snapshot rendered into the status endpoint: the current rate,
    /// the total, and per stage the average and the 95th and 99th
    /// percentiles.
    pub fn snapshot<F: FloatArith>(&mut self, arith: &F) -> (r: serde_json::Value)
        requires
            old(self).batch_latency.wf(),
            old(self).pipeline_latency.wf(),
            old(self).action_latency.wf(),
        ensures
            exists|eps: serde_json::Value, b: serde_json::Value, p: serde_json::Value, a: serde_json::Value|
                #![trigger metrics_object(eps, old(self).events_total.total(), b, p, a)]
                {
                    &&& r == metrics_object(eps, old(self).events_total.total(), b, p, a)
                    &&& is_stage_of(old(self).batch_latency, b)
                    &&& is_stage_of(old(self).pipeline_latency, p)
                    &&& is_stage_of(old(self).action_latency, a)
                },
            final(self).events_total.total() == old(self).events_total.total(),
            final(self).batch_latency == old(self).batch_latency,
            final(self).pipeline_latency == old(self).pipeline_latency,
            final(self).action_latency == old(self).action_latency,
    {
        let eps = arith.number_json(self.events_total.events_per_sec(arith));
        let total = self.events_total.total_events();
        let b = stage_value(&self.batch_latency, arith);
        let p = stage_value(&self.pipeline_latency, arith);
        let a = stage_value(&self.action_latency, arith);
        let r = metrics_json(eps, total, b, p, a);
        assert(r == metrics_object(eps, old(self).events_total.total(), b, p, a));
        r
    }

    /// Records one batch: its event count, and the time since `started`
    /// as its handling latency.
    pub fn record_batch(&mut self, events: usize, started: &std::time::Instant)
        requires
            old(self).batch_latency.wf(),
        ensures
            final(self).events_total.total() == sat_add(old(self).events_total.total(), events as u64),
            final(self).batch_latency.wf(),
            final(self).batch_latency.samples().len() == if old(self).batch_latency.samples().len()
                == old(self).batch_latency.capacity() {
                old(self).batch_latency.samples().len()
            } else {
                old(self).batch_latency.samples().len() + 1
            },
            final(self).pipeline_latency == old(self).pipeline_latency,
            final(self).action_latency == old(self).action_latency,
    {
        self.events_total.record_events(events as u64);
        let ms = elapsed_ms(started);
        self.batch_latency.record_ms(ms);
    }
}

impl Default for MetricsRegistry {
    fn default() -> (r: Self)
        ensures
            r.events_total.window_len() == 60,
            r.batch_latency.wf(),
            r.pipeline_latency.wf(),
            r.action_latency.wf(),
    {
        MetricsRegistry::new()
    }
}

} // verus!
