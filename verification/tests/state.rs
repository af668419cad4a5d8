use deltu::event::{Event, Payload};
use deltu::processing::aggregate::Aggregated;
use deltu::processing::Output;
use deltu::state::{StateConfig, StateError, StateKey, StateStore, StateValue};

fn store() -> StateStore {
    StateStore::new(StateConfig::default()).unwrap()
}

fn text_event(id: &str, ts: i64, value: &str) -> Event {
    text_event_on(id, "sensor-1", "door.state", ts, value)
}

fn text_event_on(id: &str, source: &str, kind: &str, ts: i64, value: &str) -> Event {
    Event::new(id, source, kind, ts, Payload::Text { value: value.to_string() }).unwrap()
}

fn summary(source: &str, kind: &str, window_end: i64, mean: f64) -> Aggregated {
    Aggregated {
        source: source.to_string(),
        kind: kind.to_string(),
        window_start_ms: window_end - 1_000,
        window_end_ms: window_end,
        count: 2,
        min: (mean - 1.0).to_bits(),
        max: (mean + 1.0).to_bits(),
        sum: (mean * 2.0).to_bits(),
        mean: mean.to_bits(),
        last: (mean + 1.0).to_bits(),
    }
}

#[test]
fn raw_text_event_creates_entry_with_event_timestamp() {
    let mut store = store();
    store.observe(&Output::Event(text_event("e1", 5_000, "open")));
    let entry = store.get(&StateKey::new("sensor-1", "door.state")).unwrap();
    assert_eq!(entry.value, StateValue::Text("open".into()));
    assert_eq!(entry.updated_at_ms, 5_000);
    assert_eq!(entry.updates, 1);
    assert_eq!(entry.previous_value, None);
}

#[test]
fn raw_boolean_event_creates_entry() {
    let mut store = store();
    let event = Event::new("e1", "sensor-1", "door.contact", 100, Payload::Boolean { value: true }).unwrap();
    store.observe(&Output::Event(event));
    let entry = store.get(&StateKey::new("sensor-1", "door.contact")).unwrap();
    assert_eq!(entry.value, StateValue::Boolean(true));
}

#[test]
fn raw_structured_event_creates_entry() {
    let mut store = store();
    let value: serde_json::Value = serde_json::from_str(r#"{ "battery": 97 }"#).unwrap();
    let event = Event::new("e1", "sensor-1", "device.status", 100, Payload::Json { value: value.clone() }).unwrap();
    store.observe(&Output::Event(event));
    let entry = store.get(&StateKey::new("sensor-1", "device.status")).unwrap();
    assert_eq!(entry.value, StateValue::Structured(value));
}

#[test]
fn aggregated_summary_stores_mean_with_window_end_timestamp() {
    let mut store = store();
    store.observe(&Output::Aggregated(summary("sensor-1", "temperature.reading", 61_000, 21.5)));
    let entry = store.get(&StateKey::new("sensor-1", "temperature.reading")).unwrap();
    assert_eq!(entry.value, StateValue::Numeric(21.5f64.to_bits()));
    assert_eq!(entry.updated_at_ms, 61_000);
    assert_eq!(entry.updates, 1);
}

#[test]
fn reobservation_sets_previous_value_increments_updates_refreshes_recency() {
    let mut store = store();
    store.observe(&Output::Event(text_event("e1", 1_000, "open")));
    store.observe(&Output::Event(text_event("e2", 2_000, "closed")));
    let entry = store.get(&StateKey::new("sensor-1", "door.state")).unwrap();
    assert_eq!(entry.value, StateValue::Text("closed".into()));
    assert_eq!(entry.previous_value, Some(StateValue::Text("open".into())));
    assert_eq!(entry.updated_at_ms, 2_000);
    assert_eq!(entry.updates, 2);
}

#[test]
fn get_misses_unknown_key() {
    let store = store();
    assert!(store.get(&StateKey::new("nope", "nope")).is_none());
}

#[test]
fn entries_are_sorted_by_source_then_kind() {
    let mut store = store();
    for (source, kind, ts) in [("s-b", "k-2", 100), ("s-a", "k-2", 100), ("s-b", "k-1", 100), ("s-a", "k-1", 100)] {
        let event = Event::new("id", source, kind, ts, Payload::Text { value: "v".to_string() }).unwrap();
        store.observe(&Output::Event(event));
    }
    let keys: Vec<(String, String)> =
        store.entries().into_iter().map(|e| (e.key.source.clone(), e.key.kind.clone())).collect();
    assert_eq!(
        keys,
        vec![
            ("s-a".to_string(), "k-1".to_string()),
            ("s-a".to_string(), "k-2".to_string()),
            ("s-b".to_string(), "k-1".to_string()),
            ("s-b".to_string(), "k-2".to_string()),
        ]
    );
}

#[test]
fn len_and_is_empty() {
    let mut store = store();
    assert!(store.is_empty());
    assert_eq!(store.len(), 0);
    store.observe(&Output::Event(text_event("e1", 100, "open")));
    assert!(!store.is_empty());
    assert_eq!(store.len(), 1);
}

#[test]
fn entry_past_limit_is_removed_returned_and_counted() {
    let mut store = store();
    store.observe(&Output::Event(text_event("e1", 1_000, "open")));
    store.observe(&Output::Event(text_event_on("e2", "sensor-1", "light.state", 250_000, "on")));
    let expired = store.expire(301_001);
    assert_eq!(expired.len(), 1);
    assert_eq!(expired[0].key, StateKey::new("sensor-1", "door.state"));
    assert_eq!(expired[0].value, StateValue::Text("open".into()));
    assert_eq!(store.counters().expired, 1);
    assert_eq!(store.len(), 1);
    assert!(store.get(&StateKey::new("sensor-1", "light.state")).is_some());
}

#[test]
fn boundary_age_expires() {
    let mut store = store();
    store.observe(&Output::Event(text_event("e1", 1_000, "open")));
    let expired = store.expire(301_000);
    assert_eq!(expired.len(), 1);
}

#[test]
fn fresh_entry_survives() {
    let mut store = store();
    store.observe(&Output::Event(text_event("e1", 300_000, "open")));
    assert!(store.expire(300_100).is_empty());
    assert_eq!(store.len(), 1);
    assert_eq!(store.counters().expired, 0);
}

#[test]
fn expiration_can_be_disabled() {
    let mut store = StateStore::new(StateConfig { expire_after_ms: None, ..StateConfig::default() }).unwrap();
    store.observe(&Output::Event(text_event("e1", 1_000, "open")));
    assert!(store.expire(10_000_000).is_empty());
    assert_eq!(store.len(), 1);
}

#[test]
fn negative_age_never_expires() {
    let mut store = StateStore::new(StateConfig { expire_after_ms: Some(1_000), ..StateConfig::default() }).unwrap();
    store.observe(&Output::Event(text_event("e1", 5_000, "open")));
    assert!(store.expire(4_999).is_empty());
    assert_eq!(store.len(), 1);
}

#[test]
fn reobserved_expired_key_starts_fresh() {
    let mut store = StateStore::new(StateConfig { expire_after_ms: Some(1_000), ..StateConfig::default() }).unwrap();
    store.observe(&Output::Event(text_event("e1", 1_000, "open")));
    store.observe(&Output::Event(text_event("e2", 1_100, "closed")));
    let _ = store.expire(3_000);
    assert!(store.is_empty());
    store.observe(&Output::Event(text_event("e3", 3_100, "ajar")));
    let entry = store.get(&StateKey::new("sensor-1", "door.state")).unwrap();
    assert_eq!(entry.value, StateValue::Text("ajar".into()));
    assert_eq!(entry.updates, 1);
    assert_eq!(entry.previous_value, None);
}

#[test]
fn inserting_beyond_capacity_evicts_stalest_and_counts() {
    let mut store = StateStore::new(StateConfig { max_entries: 2, expire_after_ms: None }).unwrap();
    for (source, kind, ts) in [("s", "old", 100), ("s", "middle", 200), ("s", "new", 300)] {
        let event = Event::new("id", source, kind, ts, Payload::Text { value: "v".to_string() }).unwrap();
        store.observe(&Output::Event(event));
    }
    assert_eq!(store.len(), 2);
    assert_eq!(store.counters().evicted, 1);
    assert!(store.get(&StateKey::new("s", "old")).is_none());
    assert!(store.get(&StateKey::new("s", "middle")).is_some());
    assert!(store.get(&StateKey::new("s", "new")).is_some());
}

#[test]
fn tie_break_evicts_earliest_inserted() {
    let mut store = StateStore::new(StateConfig { max_entries: 2, expire_after_ms: None }).unwrap();
    for (id, kind, ts) in [("i1", "first", 100), ("i2", "second", 100), ("i3", "third", 100)] {
        let event = Event::new(id, "s", kind, ts, Payload::Text { value: "v".to_string() }).unwrap();
        store.observe(&Output::Event(event));
    }
    assert_eq!(store.counters().evicted, 1);
    assert!(store.get(&StateKey::new("s", "first")).is_none());
    assert!(store.get(&StateKey::new("s", "second")).is_some());
    assert!(store.get(&StateKey::new("s", "third")).is_some());
}

#[test]
fn updated_entry_refreshes_recency_and_survives() {
    let mut store = StateStore::new(StateConfig { max_entries: 2, expire_after_ms: None }).unwrap();
    store.observe(&Output::Event(text_event("e1", 100, "open")));
    store.observe(&Output::Aggregated(summary("s", "temp", 150, 20.0)));
    store.observe(&Output::Event(text_event("e2", 200, "closed")));
    let event = Event::new("e3", "s", "third.key", 300, Payload::Text { value: "v".to_string() }).unwrap();
    store.observe(&Output::Event(event));
    assert_eq!(store.counters().evicted, 1);
    assert!(store.get(&StateKey::new("s", "temp")).is_none());
    assert!(store.get(&StateKey::new("sensor-1", "door.state")).is_some());
}

#[test]
fn store_zero_capacity_is_rejected() {
    assert_eq!(
        StateStore::new(StateConfig { max_entries: 0, expire_after_ms: None }).unwrap_err(),
        StateError::InvalidCapacity(0)
    );
}

#[test]
fn non_positive_expire_after_is_rejected() {
    assert_eq!(
        StateStore::new(StateConfig { max_entries: 10, expire_after_ms: Some(0) }).unwrap_err(),
        StateError::InvalidExpireAfter(0)
    );
    assert_eq!(
        StateStore::new(StateConfig { max_entries: 10, expire_after_ms: Some(-1) }).unwrap_err(),
        StateError::InvalidExpireAfter(-1)
    );
}

#[test]
fn store_defaults_are_conservative_and_documented() {
    let config = StateConfig::default();
    assert_eq!(config.max_entries, 10_000);
    assert_eq!(config.expire_after_ms, Some(300_000));
}

#[test]
fn realistic_output_sequence_produces_expected_state() {
    let mut store = store();
    store.observe(&Output::Event(text_event("d1", 1_000, "open")));
    store.observe(&Output::Aggregated(summary("sensor-1", "temperature.reading", 61_000, 21.5)));
    store.observe(&Output::Event(text_event("d2", 61_500, "closed")));
    assert_eq!(store.len(), 2);
    let door = store.get(&StateKey::new("sensor-1", "door.state")).unwrap();
    assert_eq!(door.value, StateValue::Text("closed".into()));
    assert_eq!(door.previous_value, Some(StateValue::Text("open".into())));
    let temperature = store.get(&StateKey::new("sensor-1", "temperature.reading")).unwrap();
    assert_eq!(temperature.value, StateValue::Numeric(21.5f64.to_bits()));
    assert_eq!(temperature.updated_at_ms, 61_000);
}

#[test]
fn read_after_write_returns_what_was_written() {
    let mut store = StateStore::new(StateConfig { max_entries: 3, expire_after_ms: None }).unwrap();
    store.observe(&Output::Event(text_event_on("w1", "a", "k", 10, "first")));
    store.observe(&Output::Event(text_event_on("w2", "b", "k", 20, "second")));
    let entry = store.get(&StateKey::new("a", "k")).unwrap();
    assert_eq!(entry.value, StateValue::Text("first".into()));
    assert_eq!(entry.updated_at_ms, 10);
}

#[test]
fn state_error_messages_name_the_field() {
    assert!(StateError::InvalidCapacity(0).message().contains("max_entries"));
    assert!(StateError::InvalidExpireAfter(-1).message().contains("expire_after_ms"));
}
