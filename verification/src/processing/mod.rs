//! The Deltu processing pipeline: filter, deduplication, aggregation and
//! change detection, composed synchronously over the event model.

pub mod aggregate;
pub mod change;
pub mod dedup;
pub mod filter;

pub use aggregate::{AggregateOutcome, Aggregated, WindowAggregator};
pub use change::{ChangeDetector, ChangeOutcome};
pub use dedup::Deduplicator;
pub use filter::KindFilter;

use vstd::prelude::*;

use crate::event::{Event, Payload};
use crate::floatbits::{bits_is_finite, bits_lt, FloatArith, ZERO_BITS};
use crate::text::{chars_equal, chars_of, concat2, decimal_i64, decimal_u64, has_prefix, i64_to_string, lower, owned, u64_to_string};
use aggregate::accept_step;
use change::{change_step, valid_min_delta};
use dedup::dedup_after;
use filter::{admits, normalized_entry, string_views};

verus! {

/// One invalid configuration value, with the offending field named.
#[derive(Debug, Clone, PartialEq)]
pub enum PipelineConfigError {
    /// Window length must be greater than zero.
    InvalidWindowLength(i64),
    /// A capacity field must be greater than zero.
    InvalidCapacity {
        /// The config field that was invalid.
        field: &'static str,
        /// The rejected value.
        value: usize,
    },
    /// `min_delta` must be finite and `>= 0.0` (binary64 bit pattern).
    InvalidMinDelta(u64),
    /// A kind allow-list entry was blank.
    EmptyKindEntry,
}

impl PipelineConfigError {
    /// The error's message; the rejected deadband is rendered by `arith`.
    pub fn message<F: FloatArith>(&self, arith: &F) -> (r: String)
        ensures
            match *self {
                PipelineConfigError::InvalidWindowLength(v) => r@ == "window_ms must be greater than 0, got "@
                    + decimal_i64(v),
                PipelineConfigError::InvalidCapacity { field, value } => r@ == field@
                    + " must be greater than 0, got "@ + decimal_u64(value as u64),
                PipelineConfigError::InvalidMinDelta(bits) => exists|d: String|
                    #[trigger] call_ensures(F::display, (arith, bits), d) && r@ == "min_delta must be finite and >= 0.0, got "@
                        + d@,
                PipelineConfigError::EmptyKindEntry => r@ == "allowed_kinds must not contain blank entries"@,
            },
    {
        match self {
            PipelineConfigError::InvalidWindowLength(v) => {
                let t = i64_to_string(*v);
                concat2("window_ms must be greater than 0, got ", t.as_str())
            },
            PipelineConfigError::InvalidCapacity { field, value } => {
                let t = u64_to_string(*value as u64);
                let head = concat2(field, " must be greater than 0, got ");
                concat2(head.as_str(), t.as_str())
            },
            PipelineConfigError::InvalidMinDelta(bits) => {
                let t = arith.display(*bits);
                concat2("min_delta must be finite and >= 0.0, got ", t.as_str())
            },
            PipelineConfigError::EmptyKindEntry => owned("allowed_kinds must not contain blank entries"),
        }
    }
}

/// Configuration for [`ProcessingPipeline`]. Defaults are conservative for
/// edge-class devices and are a documented starting point, not performance
/// claims.
#[derive(Debug)]
pub struct PipelineConfig {
    /// `None` allows every kind; the default must not silently drop data.
    pub allowed_kinds: Option<Vec<String>>,
    /// Deduplicator id-cache capacity. Default 10_000.
    pub dedup_capacity: usize,
    /// Tumbling window length in event-time milliseconds. Default 60_000.
    pub window_ms: i64,
    /// Maximum open windows across all keys. Default 1_000.
    pub max_open_windows: usize,
    /// Deadband for change detection on window means, as a binary64 bit
    /// pattern. Default `0.0` (never suppress).
    pub min_delta: u64,
    /// Change-detector state capacity (keys). Default 1_000.
    pub change_state_capacity: usize,
}

impl Default for PipelineConfig {
    fn default() -> (r: Self)
        ensures
            r.allowed_kinds is None,
            r.dedup_capacity == 10_000,
            r.window_ms == 60_000,
            r.max_open_windows == 1_000,
            r.min_delta == ZERO_BITS,
            r.change_state_capacity == 1_000,
    {
        PipelineConfig {
            allowed_kinds: None,
            dedup_capacity: 10_000,
            window_ms: 60_000,
            max_open_windows: 1_000,
            min_delta: ZERO_BITS,
            change_state_capacity: 1_000,
        }
    }
}

impl Clone for PipelineConfig {
    fn clone(&self) -> (r: Self)
        ensures
            r.allowed_kinds.is_some() == self.allowed_kinds.is_some(),
            self.allowed_kinds.is_some() ==> string_views(r.allowed_kinds.unwrap()@) == string_views(self.allowed_kinds.unwrap()@),
            r.dedup_capacity == self.dedup_capacity,
            r.window_ms == self.window_ms,
            r.max_open_windows == self.max_open_windows,
            r.min_delta == self.min_delta,
            r.change_state_capacity == self.change_state_capacity,
    {
        PipelineConfig {
            allowed_kinds: clone_kinds(&self.allowed_kinds),
            dedup_capacity: self.dedup_capacity,
            window_ms: self.window_ms,
            max_open_windows: self.max_open_windows,
            min_delta: self.min_delta,
            change_state_capacity: self.change_state_capacity,
        }
    }
}

/// A copy of an allow-list.
pub fn clone_kinds(kinds: &Option<Vec<String>>) -> (r: Option<Vec<String>>)
    ensures
        r.is_some() == kinds.is_some(),
        kinds.is_some() ==> string_views(r.unwrap()@) == string_views(kinds.unwrap()@),
{
    match kinds {
        None => None,
        Some(v) => {
            let mut out: Vec<String> = Vec::with_capacity(v.len());
            let mut i: usize = 0;
            while i < v.len()
                invariant
                    i <= v.len(),
                    out@.len() == i,
                    forall|j: int| 0 <= j < i ==> (#[trigger] out@[j])@ == v@[j]@,
                decreases v.len() - i,
            {
                out.push(v[i].clone());
                i += 1;
            }
            assert(string_views(out@) =~= string_views(v@));
            Some(out)
        },
    }
}

/// The configuration error [`ProcessingPipeline::new`] reports first, if any:
/// window length, dedup capacity, open-window cap, deadband, change-state
/// capacity, then the allow-list entries.
pub open spec fn config_rejection(c: PipelineConfig) -> Option<PipelineConfigError> {
    if c.window_ms <= 0 {
        Some(PipelineConfigError::InvalidWindowLength(c.window_ms))
    } else if c.dedup_capacity == 0 {
        Some(PipelineConfigError::InvalidCapacity { field: "dedup_capacity", value: c.dedup_capacity })
    } else if c.max_open_windows == 0 {
        Some(PipelineConfigError::InvalidCapacity { field: "max_open_windows", value: c.max_open_windows })
    } else if !valid_min_delta(c.min_delta) {
        Some(PipelineConfigError::InvalidMinDelta(c.min_delta))
    } else if c.change_state_capacity == 0 {
        Some(PipelineConfigError::InvalidCapacity { field: "change_state_capacity", value: c.change_state_capacity })
    } else if c.allowed_kinds is Some && exists|i: int|
        0 <= i < c.allowed_kinds->0@.len() && normalized_entry(#[trigger] c.allowed_kinds->0@[i]@).len() == 0 {
        Some(PipelineConfigError::EmptyKindEntry)
    } else {
        None
    }
}

/// What came out of the pipeline for one input event.
#[derive(Debug, PartialEq)]
pub enum Output {
    /// A non-numeric event that survived filter and dedup; aggregation does
    /// not apply to it.
    Event(Event),
    /// A closed-window summary that passed the deadband.
    Aggregated(Aggregated),
}

/// Drop and eviction counters, incremented only on real events.
#[derive(Debug, Clone, Copy, Default, PartialEq, Eq)]
pub struct PipelineCounters {
    /// Events rejected by the kind filter.
    pub filtered_out: u64,
    /// Events dropped as duplicate ids.
    pub duplicates: u64,
    /// Numeric events dropped as late (window already closed).
    pub late_dropped: u64,
    /// Open windows evicted by the capacity cap.
    pub windows_evicted: u64,
    /// Change-detector keys evicted by the capacity cap.
    pub change_states_evicted: u64,
    /// Window summaries suppressed by the deadband.
    pub changes_suppressed: u64,
}

/// The composed synchronous pipeline over one event stream.
///
/// One call to [`process`](ProcessingPipeline::process) yields zero or more
/// outputs: a passing numeric event can close a window and emit; a passing
/// non-numeric event emits itself; drops emit nothing.
#[derive(Debug)]
pub struct ProcessingPipeline<F: FloatArith> {
    config: PipelineConfig,
    filter: KindFilter,
    dedup: Deduplicator,
    aggregator: WindowAggregator<F>,
    detector: ChangeDetector<F>,
    counters: PipelineCounters,
}

impl<F: FloatArith> ProcessingPipeline<F> {
    /// The configuration the pipeline was built with.
    pub closed spec fn config_value(&self) -> PipelineConfig {
        self.config
    }

    /// The kind filter stage.
    pub closed spec fn filter_stage(&self) -> KindFilter {
        self.filter
    }

    /// The deduplication stage.
    pub closed spec fn dedup_stage(&self) -> Deduplicator {
        self.dedup
    }

    /// The aggregation stage.
    pub closed spec fn aggregator_stage(&self) -> WindowAggregator<F> {
        self.aggregator
    }

    /// The change-detection stage.
    pub closed spec fn detector_stage(&self) -> ChangeDetector<F> {
        self.detector
    }

    /// The drop and eviction counters.
    pub closed spec fn counter_values(&self) -> PipelineCounters {
        self.counters
    }

    /// Every stage is well formed, and the eviction counters mirror the
    /// stages' own counts.
    pub closed spec fn wf(&self) -> bool {
        &&& self.dedup.wf()
        &&& self.aggregator.wf()
        &&& self.detector.wf()
        &&& self.counters.windows_evicted == self.aggregator.evicted_count()
        &&& self.counters.change_states_evicted == self.detector.evicted_count()
    }

    /// Validates the configuration and constructs all four stages. `arith`
    /// supplies the window sums, means and deadband distances.
    pub fn new(config: PipelineConfig, arith: F) -> (r: Result<Self, PipelineConfigError>)
        where F: Clone,
        ensures
            match r {
                Ok(p) => {
                    &&& config_rejection(config) is None
                    &&& p.wf()
                    &&& p.filter_stage()@ == match config.allowed_kinds {
                        None => None,
                        Some(kinds) => Some(string_views(kinds@).map_values(|e: Seq<char>| normalized_entry(e))),
                    }
                    &&& p.dedup_stage()@ == Seq::<Seq<char>>::empty()
                    &&& p.dedup_stage().capacity() == config.dedup_capacity
                    &&& p.aggregator_stage().window_len() == config.window_ms
                    &&& p.aggregator_stage().capacity() == config.max_open_windows
                    &&& p.aggregator_stage().open_count() == 0
                    &&& p.aggregator_stage().open_map().is_empty()
                    &&& p.aggregator_stage().closed_map().is_empty()
                    &&& p.detector_stage().deadband() == config.min_delta
                    &&& p.detector_stage().capacity() == config.change_state_capacity
                    &&& p.detector_stage().state_map().is_empty()
                    &&& p.counter_values() == PipelineCounters {
                        filtered_out: 0,
                        duplicates: 0,
                        late_dropped: 0,
                        windows_evicted: 0,
                        change_states_evicted: 0,
                        changes_suppressed: 0,
                    }
                },
                Err(e) => config_rejection(config) == Some(e),
            },
    {
        if config.window_ms <= 0 {
            return Err(PipelineConfigError::InvalidWindowLength(config.window_ms));
        }
        if config.dedup_capacity == 0 {
            return Err(PipelineConfigError::InvalidCapacity { field: "dedup_capacity", value: config.dedup_capacity });
        }
        if config.max_open_windows == 0 {
            return Err(
                PipelineConfigError::InvalidCapacity { field: "max_open_windows", value: config.max_open_windows },
            );
        }
        if !bits_is_finite(config.min_delta) || bits_lt(config.min_delta, ZERO_BITS) {
            return Err(PipelineConfigError::InvalidMinDelta(config.min_delta));
        }
        if config.change_state_capacity == 0 {
            return Err(
                PipelineConfigError::InvalidCapacity {
                    field: "change_state_capacity",
                    value: config.change_state_capacity,
                },
            );
        }
        let kinds = clone_kinds(&config.allowed_kinds);
        let filter = match KindFilter::new(kinds) {
            Ok(f) => f,
            Err(e) => {
                proof {
                    let ks = kinds->0;
                    let cs = config.allowed_kinds->0;
                    assert(string_views(ks@).len() == ks@.len());
                    assert(string_views(cs@).len() == cs@.len());
                    let i = choose|i: int| 0 <= i < ks@.len() && normalized_entry(#[trigger] ks@[i]@).len() == 0;
                    assert(string_views(ks@)[i] == ks@[i]@);
                    assert(string_views(cs@)[i] == cs@[i]@);
                    assert(normalized_entry(cs@[i]@).len() == 0);
                }
                return Err(e);
            },
        };
        proof {
            if config.allowed_kinds is Some {
                let ks = kinds->0;
                assert(string_views(ks@).len() == ks@.len());
                assert(string_views(config.allowed_kinds->0@).len() == config.allowed_kinds->0@.len());
                assert forall|i: int| 0 <= i < config.allowed_kinds->0@.len() implies normalized_entry(
                    #[trigger] config.allowed_kinds->0@[i]@,
                ).len() != 0 by {
                    assert(string_views(ks@)[i] == ks@[i]@);
                    assert(string_views(config.allowed_kinds->0@)[i] == config.allowed_kinds->0@[i]@);
                }
            }
        }
        let dedup = match Deduplicator::new(config.dedup_capacity) {
            Ok(d) => d,
            Err(e) => return Err(e),
        };
        let aggregator = match WindowAggregator::new(config.window_ms, config.max_open_windows, arith.clone()) {
            Ok(a) => a,
            Err(e) => return Err(e),
        };
        let detector = match ChangeDetector::new(config.min_delta, config.change_state_capacity, arith) {
            Ok(d) => d,
            Err(e) => return Err(e),
        };
        Ok(ProcessingPipeline {
            config,
            filter,
            dedup,
            aggregator,
            detector,
            counters: PipelineCounters {
                filtered_out: 0,
                duplicates: 0,
                late_dropped: 0,
                windows_evicted: 0,
                change_states_evicted: 0,
                changes_suppressed: 0,
            },
        })
    }

    /// The configuration the pipeline was built with.
    pub fn config(&self) -> (r: &PipelineConfig)
        ensures
            *r == self.config_value(),
    {
        &self.config
    }

    /// Processes one event through all four stages: filter, then
    /// deduplication, then aggregation, then change detection of any
    /// window the event closed.
    pub fn process(&mut self, event: Event) -> (r: Vec<Output>)
        requires
            old(self).wf(),
        ensures
            process_step(*old(self), *final(self), event, r@),
    {
        if !self.filter.allows(event.kind.as_str()) {
            self.counters.filtered_out = bump(self.counters.filtered_out);
            let r = Vec::new();
            assert(self.counters == PipelineCounters { filtered_out: inc(old(self).counters.filtered_out), ..old(self).counters });
            assert(self.dedup == old(self).dedup);
            assert(self.aggregator == old(self).aggregator);
            assert(!admits(old(self).filter@, lower(event.kind@)));
            return r;
        }
        if !self.dedup.is_new(event.id.as_str()) {
            self.counters.duplicates = bump(self.counters.duplicates);
            return Vec::new();
        }
        let ghost ev = event;
        let outcome = self.aggregator.accept(event);
        let ghost o = outcome;
        self.counters.windows_evicted = self.aggregator.windows_evicted();
        let mut outputs: Vec<Output> = Vec::new();
        match outcome {
            AggregateOutcome::Passthrough(e) => {
                outputs.push(Output::Event(e));
                assert(outputs@ =~= seq![Output::Event(e)]);
            },
            AggregateOutcome::Accumulated => {},
            AggregateOutcome::Late => {
                self.counters.late_dropped = bump(self.counters.late_dropped);
            },
            AggregateOutcome::Closed(summaries) => {
                let mut summaries = summaries;
                let summary = summaries.pop().unwrap();
                let ghost s = summary;
                let c = self.detector.accept(summary);
                let ghost co = c;
                self.counters.change_states_evicted = self.detector.states_evicted();
                match c {
                    ChangeOutcome::Emit(s) => {
                        outputs.push(Output::Aggregated(s));
                        assert(outputs@ =~= seq![Output::Aggregated(s)]);
                    },
                    ChangeOutcome::Suppressed => {
                        self.counters.changes_suppressed = bump(self.counters.changes_suppressed);
                    },
                }
                assert(change_step(old(self).detector_stage(), self.detector_stage(), s, co));
            },
        }
        assert(accept_step(old(self).aggregator_stage(), self.aggregator_stage(), ev, o));
        outputs
    }

    /// Counter snapshot; see [`PipelineCounters`].
    pub fn counters(&self) -> (r: &PipelineCounters)
        ensures
            *r == self.counter_values(),
    {
        &self.counters
    }

    /// Number of currently open windows.
    pub fn open_windows(&self) -> (r: usize)
        ensures
            r == self.aggregator_stage().open_count(),
    {
        self.aggregator.open_windows()
    }
}

/// What one `process` call does: `pre` and `post` are the pipeline before and
/// after, `out` the outputs.
pub open spec fn process_step<F: FloatArith>(
    pre: ProcessingPipeline<F>,
    post: ProcessingPipeline<F>,
    event: Event,
    out: Seq<Output>,
) -> bool {
    let c0 = pre.counter_values();
    let c1 = post.counter_values();
    &&& post.wf()
    &&& post.filter_stage() == pre.filter_stage()
    &&& if !admits(pre.filter_stage()@, lower(event.kind@)) {
        &&& out.len() == 0
        &&& c1 == PipelineCounters { filtered_out: inc(c0.filtered_out), ..c0 }
        &&& post.dedup_stage() == pre.dedup_stage()
        &&& post.aggregator_stage() == pre.aggregator_stage()
        &&& post.detector_stage() == pre.detector_stage()
    } else if pre.dedup_stage()@.contains(event.id@) {
        &&& out.len() == 0
        &&& c1 == PipelineCounters { duplicates: inc(c0.duplicates), ..c0 }
        &&& post.dedup_stage()@ == pre.dedup_stage()@
        &&& post.dedup_stage().capacity() == pre.dedup_stage().capacity()
        &&& post.aggregator_stage() == pre.aggregator_stage()
        &&& post.detector_stage() == pre.detector_stage()
    } else {
        &&& post.dedup_stage()@ == dedup_after(pre.dedup_stage()@, pre.dedup_stage().capacity(), event.id@)
        &&& post.dedup_stage().capacity() == pre.dedup_stage().capacity()
        &&& c1.filtered_out == c0.filtered_out
        &&& c1.duplicates == c0.duplicates
        &&& exists|o: AggregateOutcome|
            #![trigger accept_step(pre.aggregator_stage(), post.aggregator_stage(), event, o)]
            {
                &&& accept_step(pre.aggregator_stage(), post.aggregator_stage(), event, o)
                &&& match o {
                    AggregateOutcome::Passthrough(e) => {
                        &&& out == seq![Output::Event(e)]
                        &&& post.detector_stage() == pre.detector_stage()
                        &&& c1.late_dropped == c0.late_dropped
                        &&& c1.changes_suppressed == c0.changes_suppressed
                    },
                    AggregateOutcome::Accumulated => {
                        &&& out.len() == 0
                        &&& post.detector_stage() == pre.detector_stage()
                        &&& c1.late_dropped == c0.late_dropped
                        &&& c1.changes_suppressed == c0.changes_suppressed
                    },
                    AggregateOutcome::Late => {
                        &&& out.len() == 0
                        &&& post.detector_stage() == pre.detector_stage()
                        &&& c1.late_dropped == inc(c0.late_dropped)
                        &&& c1.changes_suppressed == c0.changes_suppressed
                    },
                    AggregateOutcome::Closed(summaries) => {
                        &&& summaries@.len() == 1
                        &&& c1.late_dropped == c0.late_dropped
                        &&& exists|co: ChangeOutcome|
                            #![trigger change_step(pre.detector_stage(), post.detector_stage(), summaries@[0], co)]
                            {
                                &&& change_step(pre.detector_stage(), post.detector_stage(), summaries@[0], co)
                                &&& match co {
                                    ChangeOutcome::Emit(s) => {
                                        &&& out == seq![Output::Aggregated(s)]
                                        &&& c1.changes_suppressed == c0.changes_suppressed
                                    },
                                    ChangeOutcome::Suppressed => {
                                        &&& out.len() == 0
                                        &&& c1.changes_suppressed == inc(c0.changes_suppressed)
                                    },
                                }
                            }
                    },
                }
            }
    }
}

/// One event yields at most one output.
pub proof fn lemma_process_yields_at_most_one<F: FloatArith>(
    pre: ProcessingPipeline<F>,
    post: ProcessingPipeline<F>,
    event: Event,
    out: Seq<Output>,
)
    requires
        process_step(pre, post, event, out),
    ensures
        out.len() <= 1,
{
    if admits(pre.filter_stage()@, lower(event.kind@)) && !pre.dedup_stage()@.contains(event.id@) {
        let o = choose|o: AggregateOutcome| accept_step(pre.aggregator_stage(), post.aggregator_stage(), event, o) && match o {
            AggregateOutcome::Passthrough(e) => out == seq![Output::Event(e)],
            AggregateOutcome::Closed(summaries) => summaries@.len() == 1 && exists|co: ChangeOutcome|
                #![trigger change_step(pre.detector_stage(), post.detector_stage(), summaries@[0], co)]
                {
                    &&& change_step(pre.detector_stage(), post.detector_stage(), summaries@[0], co)
                    &&& match co {
                        ChangeOutcome::Emit(s) => out == seq![Output::Aggregated(s)],
                        ChangeOutcome::Suppressed => out.len() == 0,
                    }
                },
            _ => out.len() == 0,
        };
        match o {
            AggregateOutcome::Closed(summaries) => {
                let co = choose|co: ChangeOutcome| change_step(pre.detector_stage(), post.detector_stage(), summaries@[0], co) && match co {
                    ChangeOutcome::Emit(s) => out == seq![Output::Aggregated(s)],
                    ChangeOutcome::Suppressed => out.len() == 0,
                };
            },
            _ => {},
        }
    }
}

/// A counter after one more event (saturating at `u64::MAX`).
pub open spec fn inc(x: u64) -> u64 {
    if x < u64::MAX {
        (x + 1) as u64
    } else {
        x
    }
}

/// Increments a counter, saturating at `u64::MAX`.
pub fn bump(x: u64) -> (r: u64)
    ensures
        r == inc(x),
{
    if x < u64::MAX {
        x + 1
    } else {
        x
    }
}

/// Integer division truncating toward zero (Rust's `/` on integers).
pub open spec fn trunc_div(a: int, b: int) -> int {
    if a >= 0 {
        a / b
    } else {
        -((-a) / b)
    }
}

/// `kind` is `family` itself or a dotted member of it
/// (`temperature.reading` is in `temperature`; `temperatures.x` is not).
pub open spec fn in_family(kind: Seq<char>, family: Seq<char>) -> bool {
    kind == family || has_prefix(kind, family.push('.'))
}

/// Whether `kind` is `family` or a dotted member of it.
pub fn kind_matches_family(kind: &str, family: &str) -> (r: bool)
    ensures
        r == in_family(kind@, family@),
{
    let k = chars_of(kind);
    let f = chars_of(family);
    if chars_equal(&k, &f) {
        return true;
    }
    if k.len() <= f.len() {
        assert(!has_prefix(k@, f@.push('.')));
        return false;
    }
    let mut i: usize = 0;
    while i < f.len()
        invariant
            f.len() < k.len(),
            k@ == kind@,
            f@ == family@,
            k@ != f@,
            i <= f.len(),
            forall|j: int| 0 <= j < i ==> k@[j] == f@[j],
        decreases f.len() - i,
    {
        if k[i] != f[i] {
            assert(k@.subrange(0, f.len() + 1)[i as int] != f@.push('.')[i as int]);
            assert(k@.subrange(0, f.len() + 1) != f@.push('.'));
            return false;
        }
        i += 1;
    }
    if k[f.len()] != '.' {
        assert(k@.subrange(0, f.len() + 1)[f.len() as int] != f@.push('.')[f.len() as int]);
        assert(k@.subrange(0, f.len() + 1) != f@.push('.'));
        return false;
    }
    assert(k@.subrange(0, f.len() + 1) =~= f@.push('.'));
    true
}

} // verus!
