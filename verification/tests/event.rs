use deltu::event::{Event, EventError, Payload};

fn valid_event() -> Event {
    Event::new(
        "evt-000001",
        "mqtt://broker.local/sensors/esp32-1",
        "Temperature.Reading",
        1_769_412_000_123,
        Payload::Numeric { value_bits: 21.5f64.to_bits() },
    )
    .unwrap()
}

#[test]
fn constructs_with_numeric_payload() {
    let event = valid_event();
    assert_eq!(event.kind, "temperature.reading");
    assert_eq!(event.payload, Payload::Numeric { value_bits: 21.5f64.to_bits() });
}

#[test]
fn constructs_with_text_payload() {
    let event = Event::new("id", "src", "door.state", 1, Payload::Text { value: "open".into() }).unwrap();
    assert_eq!(event.payload, Payload::Text { value: "open".into() });
}

#[test]
fn text_payload_is_stored_trimmed() {
    let event = Event::new("id", "src", "door.state", 1, Payload::Text { value: "  open  ".into() }).unwrap();
    assert_eq!(event.payload, Payload::Text { value: "open".into() });
}

#[test]
fn constructs_with_boolean_payload() {
    let event = Event::new("id", "src", "door.state", 1, Payload::Boolean { value: true }).unwrap();
    assert_eq!(event.payload, Payload::Boolean { value: true });
}

#[test]
fn constructs_with_json_payload() {
    let value: serde_json::Value = serde_json::from_str(r#"{ "battery": 97 }"#).unwrap();
    let event = Event::new("id", "src", "device.status", 1, Payload::Json { value: value.clone() }).unwrap();
    assert_eq!(event.payload, Payload::Json { value });
}

#[test]
fn rejects_empty_id() {
    let err = Event::new("   ", "src", "kind", 1, Payload::Boolean { value: true }).unwrap_err();
    assert_eq!(err, EventError::EmptyId);
}

#[test]
fn rejects_empty_source() {
    let err = Event::new("id", "", "kind", 1, Payload::Boolean { value: true }).unwrap_err();
    assert_eq!(err, EventError::EmptySource);
}

#[test]
fn rejects_empty_kind() {
    let err = Event::new("id", "src", "  ", 1, Payload::Boolean { value: true }).unwrap_err();
    assert_eq!(err, EventError::EmptyKind);
}

#[test]
fn rejects_zero_timestamp() {
    let err = Event::new("id", "src", "kind", 0, Payload::Boolean { value: true }).unwrap_err();
    assert_eq!(err, EventError::InvalidTimestamp(0));
}

#[test]
fn rejects_negative_timestamp() {
    let err = Event::new("id", "src", "kind", -5, Payload::Boolean { value: true }).unwrap_err();
    assert_eq!(err, EventError::InvalidTimestamp(-5));
}

#[test]
fn rejects_nan_payload() {
    let err = Event::new("id", "src", "kind", 1, Payload::Numeric { value_bits: f64::NAN.to_bits() }).unwrap_err();
    assert!(matches!(err, EventError::InvalidPayload(_)));
}

#[test]
fn rejects_positive_infinity_payload() {
    let err =
        Event::new("id", "src", "kind", 1, Payload::Numeric { value_bits: f64::INFINITY.to_bits() }).unwrap_err();
    assert!(matches!(err, EventError::InvalidPayload(_)));
}

#[test]
fn rejects_negative_infinity_payload() {
    let err = Event::new("id", "src", "kind", 1, Payload::Numeric { value_bits: f64::NEG_INFINITY.to_bits() })
        .unwrap_err();
    assert!(matches!(err, EventError::InvalidPayload(_)));
}

#[test]
fn rejects_blank_text_payload() {
    let err = Event::new("id", "src", "kind", 1, Payload::Text { value: "   ".into() }).unwrap_err();
    assert!(matches!(err, EventError::InvalidPayload(_)));
}

#[test]
fn trims_and_lowercases_kind_preserving_id_and_source_case() {
    let event = Event::new(
        "  Event-42  ",
        "  MQTT://Broker/Sensors  ",
        "  Temperature.Reading  ",
        1,
        Payload::Numeric { value_bits: 1.0f64.to_bits() },
    )
    .unwrap();
    assert_eq!(event.id, "Event-42");
    assert_eq!(event.source, "MQTT://Broker/Sensors");
    assert_eq!(event.kind, "temperature.reading");
}

#[test]
fn validate_keeps_a_valid_event_and_rejects_a_bad_one() {
    let event = valid_event();
    assert_eq!(event.clone().validate().unwrap(), event);
    let mut bad = valid_event();
    bad.timestamp = -1;
    assert_eq!(bad.validate().unwrap_err(), EventError::InvalidTimestamp(-1));
}

#[test]
fn error_messages_name_the_rule() {
    assert_eq!(EventError::EmptyId.message(), "event id must be a non-empty string");
    assert_eq!(
        EventError::InvalidTimestamp(-5).message(),
        "event timestamp must be a positive Unix epoch millisecond value, got -5"
    );
    let err = Event::new("id", "src", "kind", 1, Payload::Text { value: " ".into() }).unwrap_err();
    assert!(err.message().starts_with("invalid event payload: "));
}
