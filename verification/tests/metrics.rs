use deltu::floatbits::FloatArith;
use deltu::metrics::{LatencyRing, MetricsRegistry, ThroughputWindow, P95_BITS, P99_BITS};

#[derive(Debug, Clone, Copy)]
struct Arith;

impl FloatArith for Arith {
    fn add(&self, a: u64, b: u64) -> u64 {
        (f64::from_bits(a) + f64::from_bits(b)).to_bits()
    }
    fn mean(&self, sum: u64, count: u64) -> u64 {
        (f64::from_bits(sum) / count as f64).to_bits()
    }
    fn from_count(&self, count: u64) -> u64 {
        (count as f64).to_bits()
    }
    fn abs_diff(&self, a: u64, b: u64) -> u64 {
        (f64::from_bits(a) - f64::from_bits(b)).abs().to_bits()
    }
    fn parse_decimal(&self, text: &str) -> Option<u64> {
        text.parse::<f64>().ok().map(f64::to_bits)
    }
    fn json_number(&self, n: &serde_json::Number) -> Option<u64> {
        n.as_f64().map(f64::to_bits)
    }
    fn number_json(&self, bits: u64) -> serde_json::Value {
        serde_json::Value::from(f64::from_bits(bits))
    }
    fn ratio(&self, num: u128, den: u64) -> u64 {
        (num as f64 / den as f64).to_bits()
    }
    fn display(&self, bits: u64) -> String {
        f64::from_bits(bits).to_string()
    }

    fn nearest_rank(&self, p_bits: u64, count: usize) -> usize {
        ((f64::from_bits(p_bits) / 100.0) * count as f64).ceil() as usize
    }
}

fn p(v: f64) -> u64 {
    v.to_bits()
}

#[test]
fn ring_percentile_math_on_known_inputs() {
    let mut ring = LatencyRing::new(1024);
    for ms in 1..=100 {
        ring.record_ms(ms);
    }
    assert_eq!(ring.len(), 100);
    assert!((f64::from_bits(ring.avg_ms(&Arith)) - 50.5).abs() < f64::EPSILON);
    assert_eq!(ring.percentile_ms(p(95.0), &Arith), 95);
    assert_eq!(ring.percentile_ms(p(99.0), &Arith), 99);
    assert_eq!(ring.percentile_ms(p(50.0), &Arith), 50);
    assert_eq!(ring.percentile_ms(p(0.0), &Arith), 1);
    assert_eq!(ring.percentile_ms(p(100.0), &Arith), 100);
}

#[test]
fn ring_is_bounded_and_overwrites_oldest() {
    let mut ring = LatencyRing::new(4);
    for ms in 1..=10 {
        ring.record_ms(ms);
    }
    assert_eq!(ring.len(), 4);
    assert_eq!(ring.percentile_ms(p(100.0), &Arith), 10);
    assert_eq!(f64::from_bits(ring.avg_ms(&Arith)), 8.5);
}

#[test]
fn empty_ring_reports_zeroes() {
    let ring = LatencyRing::new(8);
    assert!(ring.is_empty());
    assert_eq!(f64::from_bits(ring.avg_ms(&Arith)), 0.0);
    assert_eq!(ring.percentile_ms(p(99.0), &Arith), 0);
}

#[test]
fn throughput_window_computes_rate() {
    let mut window = ThroughputWindow::with_window_secs(60);
    for _ in 0..120 {
        window.record_event();
    }
    assert!((f64::from_bits(window.events_per_sec(&Arith)) - 2.0).abs() < f64::EPSILON);
    assert_eq!(window.total_events(), 120);
}

#[test]
fn throughput_window_evicts_old_buckets_at_explicit_times() {
    let mut window = ThroughputWindow::with_window_secs(1);
    window.record_events_at(500, 0);
    assert_eq!(window.events_in_window_at(500_000_000), 500);
    assert_eq!(window.events_in_window_at(2_100_000_000), 0);
    assert_eq!(window.total_events(), 500);
}

#[test]
fn snapshot_has_documented_shape() {
    let mut registry = MetricsRegistry::new();
    registry.record_batch(3, &std::time::Instant::now());
    let snapshot = registry.snapshot(&Arith);
    assert!(snapshot["events_per_sec"].as_f64().is_some());
    assert!(snapshot["events_total"].as_u64().is_some());
    assert!(snapshot["latency_ms"]["batch"]["p95"].as_u64().is_some());
    assert!(snapshot["latency_ms"]["pipeline"]["p99"].as_u64().is_some());
    assert!(snapshot["latency_ms"]["action"]["avg"].as_f64().is_some());
}

#[test]
fn percentile_constants_are_95_and_99() {
    assert_eq!(f64::from_bits(P95_BITS), 95.0);
    assert_eq!(f64::from_bits(P99_BITS), 99.0);
}

#[test]
fn sorted_samples_and_sum() {
    let mut ring = LatencyRing::new(8);
    for ms in [5, 1, 4] {
        ring.record_ms(ms);
    }
    assert_eq!(ring.sorted_samples(), vec![1, 4, 5]);
    assert_eq!(ring.sum_ms(), 10);
    assert_eq!(ring.sample_at_rank(2), 4);
    assert_eq!(ring.sample_at_rank(0), 1);
    assert_eq!(ring.sample_at_rank(9), 5);
}
