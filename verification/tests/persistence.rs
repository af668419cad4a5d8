use deltu::event::{Event, Payload};
use deltu::persistence::{
    apply_snapshot, check_format_version, snapshot_of, HistoricalSink, InMemoryHistoricalSink, PersistenceError,
    Snapshot, SNAPSHOT_FORMAT_VERSION,
};
use deltu::processing::Output;
use deltu::state::{StateConfig, StateKey, StateStore, StateValue};

fn text_event(id: &str, ts: i64, value: &str) -> Event {
    Event::new(id, "sensor-1", "door.state", ts, Payload::Text { value: value.to_string() }).unwrap()
}

#[test]
fn bounded_sink_drops_and_counts_never_fails() {
    let mut sink = InMemoryHistoricalSink::new(2).unwrap();
    let events: Vec<Event> = (0..5).map(|i| text_event(&format!("e{i}"), 1_000 + i, "x")).collect();
    sink.write_batch(&events).unwrap();
    assert_eq!(sink.written(), 5);
    assert_eq!(sink.dropped(), 3);
    assert_eq!(sink.backlog(), 2);
}

#[test]
fn zero_capacity_sink_is_a_configuration_error() {
    assert!(InMemoryHistoricalSink::new(0).is_err());
}

#[test]
fn failed_batches_are_counted_not_fatal() {
    let mut sink = InMemoryHistoricalSink::new(4).unwrap();
    sink.record_failure(3);
    assert_eq!(sink.failures(), 1);
    assert_eq!(sink.dropped(), 3);
    sink.write_batch(&[text_event("e1", 1, "x")]).unwrap();
    assert_eq!(sink.written(), 1);
}

#[test]
fn snapshot_and_apply_round_trip_in_memory() {
    let mut source = StateStore::new(StateConfig::default()).unwrap();
    source.observe(&Output::Event(text_event("e1", 1_000, "open")));
    source.observe(&Output::Event(text_event("e2", 2_000, "closed")));
    let snapshot = snapshot_of(&source);
    assert_eq!(snapshot.entries.len(), 1);

    let mut target = StateStore::new(StateConfig::default()).unwrap();
    apply_snapshot(&mut target, &snapshot);
    let entry = target.get(&StateKey::new("sensor-1", "door.state")).unwrap();
    assert_eq!(entry.value, StateValue::Text("closed".into()));
    assert_eq!(entry.previous_value, Some(StateValue::Text("open".into())));
    assert_eq!(entry.updated_at_ms, 2_000);
    assert_eq!(entry.updates, 2);
}

#[test]
fn restore_cannot_violate_store_capacity_in_memory() {
    let mut source = StateStore::new(StateConfig { max_entries: 2, expire_after_ms: None }).unwrap();
    for (id, kind, ts) in [("a", "one", 100), ("b", "two", 200)] {
        let event = Event::new(id, "s", kind, ts, Payload::Text { value: "v".to_string() }).unwrap();
        source.observe(&Output::Event(event));
    }
    let snapshot = snapshot_of(&source);
    let mut tiny = StateStore::new(StateConfig { max_entries: 1, expire_after_ms: None }).unwrap();
    apply_snapshot(&mut tiny, &snapshot);
    assert!(tiny.len() <= 1);
    assert_eq!(tiny.counters().evicted, 1);
}

#[test]
fn unknown_format_version_is_rejected_with_reason() {
    assert!(check_format_version(SNAPSHOT_FORMAT_VERSION, "snap.json").is_ok());
    match check_format_version(999, "snap.json") {
        Err(PersistenceError::Corrupted { path, reason }) => {
            assert_eq!(path, "snap.json");
            assert_eq!(reason, "unsupported format version 999 (expected 1)");
        }
        other => panic!("expected version error, got {other:?}"),
    }
}

#[test]
fn empty_snapshot_changes_nothing() {
    let mut store = StateStore::new(StateConfig::default()).unwrap();
    apply_snapshot(&mut store, &Snapshot::default());
    assert!(store.is_empty());
}

#[test]
fn corrupted_message_names_path_and_reason() {
    let error = PersistenceError::Corrupted { path: "snap.json".to_string(), reason: "bad".to_string() };
    assert_eq!(error.message(), "snapshot snap.json is corrupted: bad");
}
