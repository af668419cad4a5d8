use deltu::event::Payload;
use deltu::floatbits::FloatArith;
use deltu::input::mqtt::convert::{convert_message, MessageSequence};
use deltu::input::mqtt::{
    check_qos, next_backoff_ms, parse_broker_url, reconnect_step, topic_to_kind, topic_to_source, ConversionOutcome,
    LinkEvent, MqttConfig, MqttCounters, RECONNECT_BASE_MS,
};

#[derive(Debug, Clone, Copy)]
struct Arith;

impl FloatArith for Arith {
    fn add(&self, a: u64, b: u64) -> u64 {
        (f64::from_bits(a) + f64::from_bits(b)).to_bits()
    }
    fn mean(&self, sum: u64, count: u64) -> u64 {
        (f64::from_bits(sum) / count as f64).to_bits()
    }
    fn from_count(&self, count: u64) -> u64 {
        (count as f64).to_bits()
    }
    fn abs_diff(&self, a: u64, b: u64) -> u64 {
        (f64::from_bits(a) - f64::from_bits(b)).abs().to_bits()
    }
    fn parse_decimal(&self, text: &str) -> Option<u64> {
        text.parse::<f64>().ok().map(f64::to_bits)
    }
    fn json_number(&self, n: &serde_json::Number) -> Option<u64> {
        n.as_f64().map(f64::to_bits)
    }
    fn number_json(&self, bits: u64) -> serde_json::Value {
        serde_json::Value::from(f64::from_bits(bits))
    }
    fn ratio(&self, num: u128, den: u64) -> u64 {
        (num as f64 / den as f64).to_bits()
    }
    fn display(&self, bits: u64) -> String {
        f64::from_bits(bits).to_string()
    }

    fn nearest_rank(&self, p_bits: u64, count: usize) -> usize {
        ((f64::from_bits(p_bits) / 100.0) * count as f64).ceil() as usize
    }
}

fn numeric(v: f64) -> Payload {
    Payload::Numeric { value_bits: v.to_bits() }
}

#[test]
fn topic_maps_to_source_and_kind() {
    assert_eq!(topic_to_source("sensors/esp32-1/temp"), "mqtt://sensors/esp32-1/temp");
    assert_eq!(topic_to_kind("sensors/esp32-1/Temperature"), Some("temperature".to_string()));
}

#[test]
fn topic_with_trailing_slash_uses_last_non_empty_segment() {
    assert_eq!(topic_to_kind("sensors/esp32-1/"), Some("esp32-1".to_string()));
    assert_eq!(topic_to_kind("//"), None);
}

#[test]
fn json_object_payload_is_structured() {
    let payload = br#"{"value": 21.5}"#;
    match convert_message("sensors/esp32-1/temp", payload, 1_000, 0, &Arith) {
        ConversionOutcome::Event(event) => {
            assert_eq!(event.kind, "temp");
            assert_eq!(event.source, "mqtt://sensors/esp32-1/temp");
            assert_eq!(event.timestamp, 1_000);
            assert_eq!(event.payload, numeric(21.5));
        }
        other => panic!("expected event, got {other:?}"),
    }
}

#[test]
fn tagged_object_converts_to_inner_value() {
    for (payload, expected) in [
        (br#"{"type":"text","value":"open"}"#.as_slice(), Payload::Text { value: "open".to_string() }),
        (br#"{"type":"numeric","value":7}"#.as_slice(), numeric(7.0)),
        (br#"{"type":"boolean","value":true}"#.as_slice(), Payload::Boolean { value: true }),
    ] {
        match convert_message("sensors/esp32-1/door.state", payload, 1_000, 0, &Arith) {
            ConversionOutcome::Event(event) => assert_eq!(event.payload, expected, "payload {payload:?}"),
            other => panic!("expected event for {payload:?}, got {other:?}"),
        }
    }
}

#[test]
fn object_without_value_field_is_structured() {
    match convert_message("sensors/esp32-1/meta", br#"{"firmware":"1.2","uptime":90}"#, 1_000, 0, &Arith) {
        ConversionOutcome::Event(event) => assert!(matches!(event.payload, Payload::Json { .. })),
        other => panic!("expected event, got {other:?}"),
    }
}

#[test]
fn raw_numeric_payload_converts_to_numeric() {
    match convert_message("sensors/esp32-1/temp", br"21.5", 1_000, 0, &Arith) {
        ConversionOutcome::Event(event) => assert_eq!(event.payload, numeric(21.5)),
        other => panic!("expected event, got {other:?}"),
    }
}

#[test]
fn raw_scalar_json_payloads_convert() {
    for (payload, expected) in [
        (br#"21.5"#.as_slice(), numeric(21.5)),
        (br#""open""#.as_slice(), Payload::Text { value: "open".to_string() }),
        (br#"true"#.as_slice(), Payload::Boolean { value: true }),
    ] {
        match convert_message("sensors/d/door.state", payload, 1_000, 0, &Arith) {
            ConversionOutcome::Event(event) => assert_eq!(event.payload, expected),
            other => panic!("expected event, got {other:?}"),
        }
    }
}

#[test]
fn structured_json_payload_is_preserved() {
    let payload = br#"{"battery": 97, "ok": true}"#;
    match convert_message("sensors/esp32-1/status", payload, 1_000, 0, &Arith) {
        ConversionOutcome::Event(event) => {
            let expected: serde_json::Value = serde_json::from_str(r#"{ "battery": 97, "ok": true }"#).unwrap();
            assert_eq!(event.payload, Payload::Json { value: expected });
        }
        other => panic!("expected event, got {other:?}"),
    }
}

#[test]
fn non_json_payload_is_rejected_not_coerced() {
    match convert_message("sensors/esp32-1/temp", b"\x01\x02not-json", 1_000, 0, &Arith) {
        ConversionOutcome::Rejected(reason) => assert!(reason.contains("not valid JSON"), "reason: {reason}"),
        other => panic!("expected rejection, got {other:?}"),
    }
}

#[test]
fn empty_payload_is_rejected() {
    let outcome = convert_message("sensors/esp32-1/temp", b"", 1_000, 0, &Arith);
    assert!(matches!(outcome, ConversionOutcome::Rejected(_)));
}

#[test]
fn empty_topic_is_rejected() {
    let outcome = convert_message("", br#"{"value": 1}"#, 1_000, 0, &Arith);
    assert!(matches!(outcome, ConversionOutcome::Rejected(_)));
}

#[test]
fn derived_ids_are_unique_per_message() {
    let payload = br#"{"value": 1}"#;
    let mut sequence = MessageSequence::new();
    let first = match convert_message("sensors/t", payload, 1_000, sequence.take(), &Arith) {
        ConversionOutcome::Event(event) => event.id,
        other => panic!("expected event, got {other:?}"),
    };
    let second = match convert_message("sensors/t", payload, 1_000, sequence.take(), &Arith) {
        ConversionOutcome::Event(event) => event.id,
        other => panic!("expected event, got {other:?}"),
    };
    assert_ne!(first, second);
    assert!(second.starts_with(&first.split('#').take(2).collect::<Vec<_>>().join("#")));
}

#[test]
fn broker_url_parses_host_and_port() {
    assert_eq!(parse_broker_url("mqtt://broker.local:1883").unwrap(), ("broker.local".to_string(), 1883));
    assert_eq!(parse_broker_url("mqtt://127.0.0.1:1883").unwrap(), ("127.0.0.1".to_string(), 1883));
}

#[test]
fn broker_url_errors_are_actionable() {
    assert!(parse_broker_url("http://broker:1883").unwrap_err().contains("mqtt://"));
    assert!(parse_broker_url("mqtt://broker").unwrap_err().contains("port"));
    assert!(parse_broker_url("mqtt://:1883").unwrap_err().contains("host"));
    assert!(parse_broker_url("mqtt://broker:port").unwrap_err().contains("invalid port"));
}

#[test]
fn qos_must_be_zero_one_or_two() {
    assert_eq!(check_qos(0), Ok(0));
    assert_eq!(check_qos(2), Ok(2));
    assert_eq!(check_qos(3).unwrap_err(), "mqtt qos must be 0, 1, or 2, got 3");
}

#[test]
fn reconnect_backoff_doubles_up_to_the_cap() {
    assert_eq!(next_backoff_ms(100, 30_000), 200);
    assert_eq!(next_backoff_ms(20_000, 30_000), 30_000);
    assert_eq!(next_backoff_ms(30_000, 30_000), 30_000);
}

#[test]
fn mqtt_defaults_and_counters() {
    let config = MqttConfig::default();
    assert_eq!(config.qos, 1);
    assert_eq!(config.keep_alive_secs, 30);
    let mut counters = MqttCounters::default();
    counters.record_received();
    counters.record_rejection("bad".to_string());
    counters.record_reconnect();
    counters.record_dropped();
    assert_eq!(counters.messages_received, 1);
    assert_eq!(counters.messages_rejected, 1);
    assert_eq!(counters.last_rejection, Some("bad".to_string()));
    assert_eq!(counters.reconnects, 1);
    assert_eq!(counters.messages_dropped, 1);
}

#[test]
fn reconnect_sleeps_double_from_the_base_and_reset_on_connect() {
    let mut counters = MqttCounters::default();
    let mut delay = RECONNECT_BASE_MS;
    let mut slept = Vec::new();
    for _ in 0..10 {
        let (sleep_ms, next) = reconnect_step(delay, LinkEvent::Failed, &mut counters);
        slept.push(sleep_ms);
        delay = next;
    }
    assert_eq!(slept, vec![100, 200, 400, 800, 1_600, 3_200, 6_400, 12_800, 25_600, 30_000]);
    let (sleep_ms, next) = reconnect_step(delay, LinkEvent::Connected, &mut counters);
    assert_eq!((sleep_ms, next), (0, 100));
    assert_eq!(reconnect_step(next, LinkEvent::Failed, &mut counters).0, 100);
    assert_eq!(counters.reconnects, 12);
}
