use deltu::event::{Event, Payload};
use deltu::floatbits::FloatArith;
use deltu::processing::aggregate::{AggregateOutcome, Aggregated, WindowAggregator};
use deltu::processing::change::{ChangeDetector, ChangeOutcome};
use deltu::processing::dedup::Deduplicator;
use deltu::processing::filter::KindFilter;
use deltu::processing::{Output, PipelineConfig, PipelineConfigError, ProcessingPipeline};

#[derive(Debug, Clone, Copy)]
struct Arith;

impl FloatArith for Arith {
    fn add(&self, a: u64, b: u64) -> u64 {
        (f64::from_bits(a) + f64::from_bits(b)).to_bits()
    }
    fn mean(&self, sum: u64, count: u64) -> u64 {
        (f64::from_bits(sum) / count as f64).to_bits()
    }
    fn from_count(&self, count: u64) -> u64 {
        (count as f64).to_bits()
    }
    fn abs_diff(&self, a: u64, b: u64) -> u64 {
        (f64::from_bits(a) - f64::from_bits(b)).abs().to_bits()
    }
    fn parse_decimal(&self, text: &str) -> Option<u64> {
        text.parse::<f64>().ok().map(f64::to_bits)
    }
    fn json_number(&self, n: &serde_json::Number) -> Option<u64> {
        n.as_f64().map(f64::to_bits)
    }
    fn number_json(&self, bits: u64) -> serde_json::Value {
        serde_json::Value::from(f64::from_bits(bits))
    }
    fn ratio(&self, num: u128, den: u64) -> u64 {
        (num as f64 / den as f64).to_bits()
    }
    fn display(&self, bits: u64) -> String {
        f64::from_bits(bits).to_string()
    }

    fn nearest_rank(&self, p_bits: u64, count: usize) -> usize {
        ((f64::from_bits(p_bits) / 100.0) * count as f64).ceil() as usize
    }
}

fn f(bits: u64) -> f64 {
    f64::from_bits(bits)
}

fn dedup(capacity: usize) -> Deduplicator {
    Deduplicator::new(capacity).unwrap()
}

#[test]
fn first_id_passes() {
    let mut dedup = dedup(10);
    assert!(dedup.is_new("evt-1"));
}

#[test]
fn immediate_replay_is_dropped() {
    let mut dedup = dedup(10);
    assert!(dedup.is_new("evt-1"));
    assert!(!dedup.is_new("evt-1"));
}

#[test]
fn distinct_ids_pass() {
    let mut dedup = dedup(10);
    assert!(dedup.is_new("evt-1"));
    assert!(dedup.is_new("evt-2"));
    assert!(dedup.is_new("evt-3"));
}

#[test]
fn oldest_id_is_evicted_at_capacity_and_replay_passes_again() {
    let mut dedup = dedup(2);
    assert!(dedup.is_new("a"));
    assert!(dedup.is_new("b"));
    assert!(dedup.is_new("c"));
    assert!(dedup.is_new("a"));
    assert!(dedup.is_new("b"));
}

#[test]
fn capacity_one_edge() {
    let mut dedup = dedup(1);
    assert!(dedup.is_new("a"));
    assert!(!dedup.is_new("a"));
    assert!(dedup.is_new("b"));
    assert!(!dedup.is_new("b"));
    assert!(dedup.is_new("a"));
}

#[test]
fn dedup_zero_capacity_is_rejected() {
    let err = Deduplicator::new(0).unwrap_err();
    assert_eq!(err, PipelineConfigError::InvalidCapacity { field: "dedup_capacity", value: 0 });
}

fn filter(entries: &[&str]) -> KindFilter {
    KindFilter::new(Some(entries.iter().map(|s| s.to_string()).collect())).unwrap()
}

#[test]
fn allows_everything_when_none() {
    let filter = KindFilter::new(None).unwrap();
    assert!(filter.allows("temperature.reading"));
    assert!(filter.allows("door.state"));
    assert!(filter.allows("anything.at.all"));
}

#[test]
fn matches_exact_kind() {
    let filter = filter(&["temperature.reading"]);
    assert!(filter.allows("temperature.reading"));
    assert!(filter.allows("temperature.reading.raw"));
    assert!(!filter.allows("temperature"));
    assert!(!filter.allows("temperaturex"));
}

#[test]
fn matches_dotted_family_prefix() {
    let filter = filter(&["temperature"]);
    assert!(filter.allows("temperature.reading"));
    assert!(filter.allows("temperature"));
    assert!(filter.allows("Temperature.HUMIDITY"));
}

#[test]
fn sibling_prefix_does_not_match() {
    let filter = filter(&["temperature"]);
    assert!(!filter.allows("temperatures.x"));
}

#[test]
fn disallowed_kind_is_dropped() {
    let filter = filter(&["temperature"]);
    assert!(!filter.allows("door.state"));
}

#[test]
fn entries_are_trimmed_and_lowercased() {
    let filter = filter(&["  Temperature  "]);
    assert!(filter.allows("temperature.reading"));
}

#[test]
fn blank_entry_is_rejected() {
    let err = KindFilter::new(Some(vec!["temperature".to_string(), "   ".to_string()])).unwrap_err();
    assert_eq!(err, PipelineConfigError::EmptyKindEntry);
}

fn aggregator() -> WindowAggregator<Arith> {
    WindowAggregator::new(1_000, 1_000, Arith).unwrap()
}

fn numeric_event(id: &str, ts: i64, value: f64) -> Event {
    Event::new(id, "sensor-1", "temperature.reading", ts, Payload::Numeric { value_bits: value.to_bits() }).unwrap()
}

fn text_event(id: &str, ts: i64, text: &str) -> Event {
    Event::new(id, "sensor-1", "door.state", ts, Payload::Text { value: text.to_string() }).unwrap()
}

#[test]
fn non_numeric_event_passes_through_unchanged() {
    let mut agg = aggregator();
    let event = text_event("d1", 500, "open");
    match agg.accept(event.clone()) {
        AggregateOutcome::Passthrough(out) => assert_eq!(out, event),
        other => panic!("expected passthrough, got {other:?}"),
    }
}

#[test]
fn accumulation_tracks_count_min_max_sum_last() {
    let mut agg = aggregator();
    assert!(matches!(agg.accept(numeric_event("a", 100, 20.0)), AggregateOutcome::Accumulated));
    assert!(matches!(agg.accept(numeric_event("b", 200, 25.0)), AggregateOutcome::Accumulated));
    assert!(matches!(agg.accept(numeric_event("c", 300, 10.0)), AggregateOutcome::Accumulated));
    assert!(matches!(agg.accept(numeric_event("d", 1_500, 99.0)), AggregateOutcome::Closed(_)));

    let mut agg2 = aggregator();
    for ts in [100, 200, 300] {
        let _ = agg2.accept(numeric_event("x", ts, [20.0, 25.0, 10.0][ts as usize / 100 - 1]));
    }
    match agg2.accept(numeric_event("y", 1_500, 99.0)) {
        AggregateOutcome::Closed(summaries) => {
            let s = &summaries[0];
            assert_eq!(s.count, 3);
            assert_eq!(f(s.min), 10.0);
            assert_eq!(f(s.max), 25.0);
            assert_eq!(f(s.sum), 55.0);
            assert_eq!(f(s.mean), 55.0 / 3.0);
            assert_eq!(f(s.last), 10.0);
            assert_eq!(s.window_start_ms, 0);
            assert_eq!(s.window_end_ms, 1_000);
        }
        other => panic!("expected closed window, got {other:?}"),
    }
}

#[test]
fn close_on_advance_emits_with_correct_bounds() {
    let mut agg = aggregator();
    let _ = agg.accept(numeric_event("a", 1_234, 5.0));
    match agg.accept(numeric_event("b", 2_500, 6.0)) {
        AggregateOutcome::Closed(summaries) => {
            assert_eq!(summaries.len(), 1);
            assert_eq!(summaries[0].window_start_ms, 1_000);
            assert_eq!(summaries[0].window_end_ms, 2_000);
            assert_eq!(f(summaries[0].last), 5.0);
        }
        other => panic!("expected closed window, got {other:?}"),
    }
}

#[test]
fn boundary_timestamp_belongs_to_newer_window() {
    let mut agg = aggregator();
    let _ = agg.accept(numeric_event("a", 500, 1.0));
    match agg.accept(numeric_event("b", 1_000, 2.0)) {
        AggregateOutcome::Closed(summaries) => {
            assert_eq!(summaries.len(), 1);
            assert_eq!(summaries[0].window_start_ms, 0);
            assert_eq!(summaries[0].window_end_ms, 1_000);
            assert_eq!(summaries[0].count, 1);
            assert_eq!(f(summaries[0].last), 1.0);
        }
        other => panic!("expected closed window, got {other:?}"),
    }
    match agg.accept(numeric_event("c", 3_000, 3.0)) {
        AggregateOutcome::Closed(summaries) => {
            assert_eq!(summaries[0].window_start_ms, 1_000);
            assert_eq!(summaries[0].window_end_ms, 2_000);
            assert_eq!(summaries[0].count, 1);
            assert_eq!(f(summaries[0].last), 2.0);
        }
        other => panic!("expected closed window, got {other:?}"),
    }
}

#[test]
fn late_event_is_dropped_and_counted() {
    let mut agg = aggregator();
    let _ = agg.accept(numeric_event("a", 5_500, 1.0));
    let _ = agg.accept(numeric_event("b", 6_500, 2.0));
    assert!(matches!(agg.accept(numeric_event("c", 5_100, 3.0)), AggregateOutcome::Late));
    assert_eq!(agg.late_dropped(), 1);
}

#[test]
fn oldest_open_window_is_evicted_at_capacity_and_counted() {
    let mut agg = WindowAggregator::new(1_000, 1, Arith).unwrap();
    let mut e1 = numeric_event("a", 100, 1.0);
    e1.source = "sensor-A".to_string();
    let mut e2 = numeric_event("b", 200, 2.0);
    e2.source = "sensor-B".to_string();
    let _ = agg.accept(e1);
    assert_eq!(agg.open_windows(), 1);
    let _ = agg.accept(e2);
    assert_eq!(agg.open_windows(), 1);
    assert_eq!(agg.windows_evicted(), 1);
}

#[test]
fn zero_window_length_is_rejected() {
    let err = WindowAggregator::new(0, 10, Arith).unwrap_err();
    assert_eq!(err, PipelineConfigError::InvalidWindowLength(0));
}

#[test]
fn aggregate_zero_capacity_is_rejected() {
    let err = WindowAggregator::new(1_000, 0, Arith).unwrap_err();
    assert_eq!(err, PipelineConfigError::InvalidCapacity { field: "max_open_windows", value: 0 });
}

fn detector(min_delta: f64) -> ChangeDetector<Arith> {
    ChangeDetector::new(min_delta.to_bits(), 1_000, Arith).unwrap()
}

fn summary(source: &str, kind: &str, mean: f64) -> Aggregated {
    let m = mean.to_bits();
    Aggregated {
        source: source.to_string(),
        kind: kind.to_string(),
        window_start_ms: 0,
        window_end_ms: 1_000,
        count: 1,
        min: m,
        max: m,
        sum: m,
        mean: m,
        last: m,
    }
}

#[test]
fn first_summary_for_a_key_is_emitted() {
    let mut det = detector(0.5);
    assert!(matches!(det.accept(summary("s", "k", 20.0)), ChangeOutcome::Emit(_)));
}

#[test]
fn below_delta_is_suppressed_and_counted() {
    let mut det = detector(0.5);
    let _ = det.accept(summary("s", "k", 20.0));
    assert!(matches!(det.accept(summary("s", "k", 20.3)), ChangeOutcome::Suppressed));
    assert_eq!(det.suppressed(), 1);
}

#[test]
fn movement_at_delta_is_emitted() {
    let mut det = detector(0.5);
    let _ = det.accept(summary("s", "k", 20.0));
    assert!(matches!(det.accept(summary("s", "k", 20.5)), ChangeOutcome::Emit(_)));
}

#[test]
fn zero_delta_never_suppresses() {
    let mut det = detector(0.0);
    let _ = det.accept(summary("s", "k", 20.0));
    assert!(matches!(det.accept(summary("s", "k", 20.0)), ChangeOutcome::Emit(_)));
    assert_eq!(det.suppressed(), 0);
}

#[test]
fn keys_are_independent() {
    let mut det = detector(0.5);
    let _ = det.accept(summary("s", "temperature", 20.0));
    assert!(matches!(det.accept(summary("s", "humidity", 20.0)), ChangeOutcome::Emit(_)));
}

#[test]
fn suppression_compares_against_last_emitted_not_last_seen() {
    let mut det = detector(1.0);
    let _ = det.accept(summary("s", "k", 10.0));
    let _ = det.accept(summary("s", "k", 10.9));
    let _ = det.accept(summary("s", "k", 10.95));
    assert!(matches!(det.accept(summary("s", "k", 10.5)), ChangeOutcome::Suppressed));
}

#[test]
fn state_is_evicted_at_capacity_and_counted() {
    let mut det = ChangeDetector::new(0.5f64.to_bits(), 1, Arith).unwrap();
    let _ = det.accept(summary("s", "a", 1.0));
    let _ = det.accept(summary("s", "b", 1.0));
    assert_eq!(det.states_evicted(), 1);
    assert!(matches!(det.accept(summary("s", "a", 1.0001)), ChangeOutcome::Emit(_)));
}

#[test]
fn invalid_min_delta_is_rejected() {
    assert!(matches!(
        ChangeDetector::new(f64::NAN.to_bits(), 10, Arith).unwrap_err(),
        PipelineConfigError::InvalidMinDelta(_)
    ));
    assert!(matches!(
        ChangeDetector::new(f64::INFINITY.to_bits(), 10, Arith).unwrap_err(),
        PipelineConfigError::InvalidMinDelta(_)
    ));
    assert_eq!(
        ChangeDetector::new((-0.5f64).to_bits(), 10, Arith).unwrap_err(),
        PipelineConfigError::InvalidMinDelta((-0.5f64).to_bits())
    );
}

#[test]
fn change_zero_capacity_is_rejected() {
    let err = ChangeDetector::new(0.5f64.to_bits(), 0, Arith).unwrap_err();
    assert_eq!(err, PipelineConfigError::InvalidCapacity { field: "change_state_capacity", value: 0 });
}

fn test_event(id: &str, source: &str, kind: &str, timestamp: i64, value: f64) -> Event {
    Event::new(id, source, kind, timestamp, Payload::Numeric { value_bits: value.to_bits() }).unwrap()
}

fn pipeline() -> ProcessingPipeline<Arith> {
    ProcessingPipeline::new(PipelineConfig::default(), Arith).unwrap()
}

#[test]
fn mod_defaults_are_conservative_and_documented() {
    let config = PipelineConfig::default();
    assert_eq!(config.allowed_kinds, None);
    assert_eq!(config.dedup_capacity, 10_000);
    assert_eq!(config.window_ms, 60_000);
    assert_eq!(config.max_open_windows, 1_000);
    assert_eq!(f(config.min_delta), 0.0);
    assert_eq!(config.change_state_capacity, 1_000);
}

#[test]
fn invalid_configs_are_rejected_with_named_fields() {
    assert_eq!(
        ProcessingPipeline::new(PipelineConfig { window_ms: 0, ..PipelineConfig::default() }, Arith).unwrap_err(),
        PipelineConfigError::InvalidWindowLength(0)
    );
    assert_eq!(
        ProcessingPipeline::new(PipelineConfig { dedup_capacity: 0, ..PipelineConfig::default() }, Arith)
            .unwrap_err(),
        PipelineConfigError::InvalidCapacity { field: "dedup_capacity", value: 0 }
    );
    assert_eq!(
        ProcessingPipeline::new(PipelineConfig { max_open_windows: 0, ..PipelineConfig::default() }, Arith)
            .unwrap_err(),
        PipelineConfigError::InvalidCapacity { field: "max_open_windows", value: 0 }
    );
    assert!(matches!(
        ProcessingPipeline::new(PipelineConfig { min_delta: f64::NAN.to_bits(), ..PipelineConfig::default() }, Arith)
            .unwrap_err(),
        PipelineConfigError::InvalidMinDelta(_)
    ));
    assert_eq!(
        ProcessingPipeline::new(PipelineConfig { change_state_capacity: 0, ..PipelineConfig::default() }, Arith)
            .unwrap_err(),
        PipelineConfigError::InvalidCapacity { field: "change_state_capacity", value: 0 }
    );
    assert_eq!(
        ProcessingPipeline::new(
            PipelineConfig { allowed_kinds: Some(vec!["  ".to_string()]), ..PipelineConfig::default() },
            Arith
        )
        .unwrap_err(),
        PipelineConfigError::EmptyKindEntry
    );
}

#[test]
fn filtered_event_yields_no_output_and_counts() {
    let mut pipeline = ProcessingPipeline::new(
        PipelineConfig { allowed_kinds: Some(vec!["temperature".to_string()]), ..PipelineConfig::default() },
        Arith,
    )
    .unwrap();
    let event = test_event("e1", "s", "door.state", 100, 1.0);
    assert!(pipeline.process(event).is_empty());
    assert_eq!(pipeline.counters().filtered_out, 1);
    assert_eq!(pipeline.counters().duplicates, 0);
}

#[test]
fn duplicate_event_yields_no_output_and_counts() {
    let mut pipeline = pipeline();
    let first = test_event("dup", "s", "door.state", 100, 1.0);
    let second = test_event("dup", "s", "door.state", 200, 1.0);
    assert!(pipeline.process(first).is_empty());
    assert!(pipeline.process(second).is_empty());
    assert_eq!(pipeline.counters().duplicates, 1);
    assert_eq!(pipeline.counters().filtered_out, 0);
    assert_eq!(pipeline.open_windows(), 1);
}

#[test]
fn numeric_sequence_crossing_boundary_emits_one_aggregate() {
    let mut pipeline =
        ProcessingPipeline::new(PipelineConfig { window_ms: 1_000, ..PipelineConfig::default() }, Arith).unwrap();
    let _ = pipeline.process(test_event("a", "s", "temperature.reading", 100, 20.0));
    let _ = pipeline.process(test_event("b", "s", "temperature.reading", 200, 25.0));
    let _ = pipeline.process(test_event("c", "s", "temperature.reading", 300, 10.0));
    let outputs = pipeline.process(test_event("d", "s", "temperature.reading", 1_500, 99.0));

    assert_eq!(outputs.len(), 1);
    match &outputs[0] {
        Output::Aggregated(summary) => {
            assert_eq!(summary.source, "s");
            assert_eq!(summary.kind, "temperature.reading");
            assert_eq!(summary.window_start_ms, 0);
            assert_eq!(summary.window_end_ms, 1_000);
            assert_eq!(summary.count, 3);
            assert_eq!(f(summary.min), 10.0);
            assert_eq!(f(summary.max), 25.0);
            assert_eq!(f(summary.sum), 55.0);
            assert_eq!(f(summary.mean), 55.0 / 3.0);
            assert_eq!(f(summary.last), 10.0);
        }
        Output::Event(event) => panic!("expected Aggregated, got Event {event:?}"),
    }
}

#[test]
fn non_numeric_sequence_passes_through_as_events() {
    let mut pipeline = pipeline();
    let e1 = Event::new("n1", "s", "door.state", 100, Payload::Text { value: "open".to_string() }).unwrap();
    let e2 = Event::new("n2", "s", "door.state", 200, Payload::Boolean { value: true }).unwrap();
    let out1 = pipeline.process(e1.clone());
    let out2 = pipeline.process(e2.clone());
    assert_eq!(out1, vec![Output::Event(e1)]);
    assert_eq!(out2, vec![Output::Event(e2)]);
}

#[test]
fn counter_totals_match_dropped_inputs() {
    let mut pipeline = ProcessingPipeline::new(
        PipelineConfig {
            allowed_kinds: Some(vec!["temperature".to_string()]),
            window_ms: 1_000,
            ..PipelineConfig::default()
        },
        Arith,
    )
    .unwrap();
    let _ = pipeline.process(test_event("f1", "s", "door.state", 100, 1.0));
    let _ = pipeline.process(test_event("f2", "s", "door.state", 200, 1.0));
    let _ = pipeline.process(test_event("d", "s", "temperature.reading", 100, 1.0));
    let _ = pipeline.process(test_event("d", "s", "temperature.reading", 150, 1.0));
    let _ = pipeline.process(test_event("k", "s", "temperature.reading", 200, 1.0));
    let _ = pipeline.process(test_event("k2", "s", "temperature.reading", 1_500, 2.0));
    let _ = pipeline.process(test_event("late", "s", "temperature.reading", 500, 3.0));

    let counters = pipeline.counters();
    assert_eq!(counters.filtered_out, 2);
    assert_eq!(counters.duplicates, 1);
    assert_eq!(counters.late_dropped, 1);
    assert_eq!(counters.changes_suppressed, 0);
    assert_eq!(counters.windows_evicted, 0);
    assert_eq!(counters.change_states_evicted, 0);
}

#[test]
fn family_matching_is_dot_delimited() {
    assert!(deltu::processing::kind_matches_family("temperature.reading", "temperature"));
    assert!(deltu::processing::kind_matches_family("temperature", "temperature"));
    assert!(!deltu::processing::kind_matches_family("temperatures.x", "temperature"));
    assert!(!deltu::processing::kind_matches_family("temp", "temperature"));
}

#[test]
fn pipeline_config_errors_have_messages() {
    assert_eq!(PipelineConfigError::InvalidWindowLength(0).message(&Arith), "window_ms must be greater than 0, got 0");
    assert_eq!(
        PipelineConfigError::InvalidCapacity { field: "dedup_capacity", value: 0 }.message(&Arith),
        "dedup_capacity must be greater than 0, got 0"
    );
    assert_eq!(
        PipelineConfigError::InvalidMinDelta((-1.5f64).to_bits()).message(&Arith),
        "min_delta must be finite and >= 0.0, got -1.5"
    );
    assert_eq!(PipelineConfigError::EmptyKindEntry.message(&Arith), "allowed_kinds must not contain blank entries");
}
