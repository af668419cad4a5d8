use deltu::actions::{ActionConfigError, ActionDefinition, ActionDispatcher, ActionKind, LogLevel};
use deltu::event::{Event, Payload};
use deltu::floatbits::FloatArith;
use deltu::processing::{PipelineConfig, ProcessingPipeline};
use deltu::rules::{Condition, Field, Literal, Operator, Rule, RuleEngine, Trigger};
use deltu::runtime::config::{ConfigError, PersistenceSection, RuntimeConfig};
use deltu::runtime::http::{batch_items, collect_batch, error_message, invalid_json, ApiError};
use deltu::runtime::worker::{unix_ms_of, EngineCore, EXPIRE_INTERVAL_SECS};
use deltu::state::{StateConfig, StateStore};

#[derive(Debug, Clone, Copy)]
struct Arith;

impl FloatArith for Arith {
    fn add(&self, a: u64, b: u64) -> u64 {
        (f64::from_bits(a) + f64::from_bits(b)).to_bits()
    }
    fn mean(&self, sum: u64, count: u64) -> u64 {
        (f64::from_bits(sum) / count as f64).to_bits()
    }
    fn from_count(&self, count: u64) -> u64 {
        (count as f64).to_bits()
    }
    fn abs_diff(&self, a: u64, b: u64) -> u64 {
        (f64::from_bits(a) - f64::from_bits(b)).abs().to_bits()
    }
    fn parse_decimal(&self, text: &str) -> Option<u64> {
        text.parse::<f64>().ok().map(f64::to_bits)
    }
    fn json_number(&self, n: &serde_json::Number) -> Option<u64> {
        n.as_f64().map(f64::to_bits)
    }
    fn number_json(&self, bits: u64) -> serde_json::Value {
        serde_json::Value::from(f64::from_bits(bits))
    }
    fn ratio(&self, num: u128, den: u64) -> u64 {
        (num as f64 / den as f64).to_bits()
    }
    fn display(&self, bits: u64) -> String {
        f64::from_bits(bits).to_string()
    }

    fn nearest_rank(&self, p_bits: u64, count: usize) -> usize {
        ((f64::from_bits(p_bits) / 100.0) * count as f64).ceil() as usize
    }
}

#[test]
fn persistence_disabled_by_default_and_validated_when_enabled() {
    let config = RuntimeConfig::default();
    assert!(!config.persistence.enabled);
    config.validate().unwrap();

    let enabled_no_path = RuntimeConfig {
        persistence: PersistenceSection { enabled: true, path: None, snapshot_interval_secs: 60 },
        ..RuntimeConfig::default()
    };
    assert!(enabled_no_path.validate().is_err());

    let enabled_zero_interval = RuntimeConfig {
        persistence: PersistenceSection {
            enabled: true,
            path: Some("snapshots.json".into()),
            snapshot_interval_secs: 0,
        },
        ..RuntimeConfig::default()
    };
    assert!(enabled_zero_interval.validate().is_err());

    let valid = RuntimeConfig {
        persistence: PersistenceSection {
            enabled: true,
            path: Some("snapshots.json".into()),
            snapshot_interval_secs: 30,
        },
        ..RuntimeConfig::default()
    };
    valid.validate().unwrap();
}

fn log_action(id: &str) -> ActionDefinition {
    ActionDefinition { id: id.to_string(), kind: ActionKind::Log { level: LogLevel::Info, template: None } }
}

fn door_rule(id: &str, action: &str, kind: &str) -> Rule {
    Rule {
        id: id.to_string(),
        description: None,
        on: Trigger::Event { kind: kind.to_string() },
        condition: Condition::Exists { field: Field::EventValue },
        action: action.to_string(),
        suppression: None,
    }
}

#[test]
fn validation_reports_references_and_duplicates() {
    let unknown = RuntimeConfig { rules: vec![door_rule("r", "nope", "door")], ..RuntimeConfig::default() };
    match unknown.validate() {
        Err(ConfigError::UnknownAction { rule_id, action }) => {
            assert_eq!(rule_id, "r");
            assert_eq!(action, "nope");
        }
        other => panic!("expected unknown action, got {other:?}"),
    }
    let duplicate_action = RuntimeConfig { actions: vec![log_action("a"), log_action("a")], ..RuntimeConfig::default() };
    match duplicate_action.validate() {
        Err(ConfigError::Validation(message)) => assert_eq!(message, "duplicate action id: a"),
        other => panic!("expected validation error, got {other:?}"),
    }
    let duplicate_rule = RuntimeConfig {
        actions: vec![log_action("a")],
        rules: vec![door_rule("r", "a", "door"), door_rule("r", "a", "door")],
        ..RuntimeConfig::default()
    };
    match duplicate_rule.validate() {
        Err(ConfigError::Validation(message)) => assert_eq!(message, "duplicate rule id: r"),
        other => panic!("expected validation error, got {other:?}"),
    }
    let blank_kind =
        RuntimeConfig { actions: vec![log_action("a")], rules: vec![door_rule("r", "a", "  ")], ..RuntimeConfig::default() };
    match blank_kind.validate() {
        Err(ConfigError::Validation(message)) => assert_eq!(message, "rule r has an empty trigger kind"),
        other => panic!("expected validation error, got {other:?}"),
    }
    let zero_queue = RuntimeConfig { queue_capacity: 0, ..RuntimeConfig::default() };
    assert_eq!(
        zero_queue.validate().unwrap_err().message(),
        "invalid configuration: queue_capacity must be > 0"
    );
}

#[test]
fn env_overrides_apply_in_order_and_reject_bad_values() {
    let mut config = RuntimeConfig::default();
    let vars = vec![
        ("DELTU_HTTP_BIND".to_string(), "0.0.0.0:9000".to_string()),
        ("DELTU_QUEUE_CAPACITY".to_string(), "64".to_string()),
        ("DELTU_SNAPSHOT_INTERVAL_SECS".to_string(), "15".to_string()),
        ("UNRELATED".to_string(), "x".to_string()),
    ];
    config.apply_env_overrides(&vars).unwrap();
    assert_eq!(config.http.bind, "0.0.0.0:9000");
    assert_eq!(config.queue_capacity, 64);
    assert_eq!(config.persistence.snapshot_interval_secs, 15);

    let mut config = RuntimeConfig::default();
    let bad = vec![("DELTU_QUEUE_CAPACITY".to_string(), "lots".to_string())];
    match config.apply_env_overrides(&bad) {
        Err(ConfigError::Validation(message)) => {
            assert_eq!(message, "DELTU_QUEUE_CAPACITY must be a positive integer, got \"lots\"")
        }
        other => panic!("expected validation error, got {other:?}"),
    }
    let zero = vec![("DELTU_SNAPSHOT_INTERVAL_SECS".to_string(), "0".to_string())];
    match config.apply_env_overrides(&zero) {
        Err(ConfigError::Validation(message)) => assert_eq!(message, "DELTU_SNAPSHOT_INTERVAL_SECS must be > 0"),
        other => panic!("expected validation error, got {other:?}"),
    }
    assert_eq!(config.queue_capacity, 1_000);
}

#[test]
fn validate_actions_checks_ids() {
    let config = RuntimeConfig { actions: vec![log_action("a"), log_action("b")], ..RuntimeConfig::default() };
    assert_eq!(config.validate_actions().unwrap(), vec![log_action("a"), log_action("b")]);
    let blank = RuntimeConfig { actions: vec![log_action("  ")], ..RuntimeConfig::default() };
    assert_eq!(blank.validate_actions().unwrap_err(), ActionConfigError::EmptyActionId("  ".to_string()));
    let dup = RuntimeConfig { actions: vec![log_action("a"), log_action("a")], ..RuntimeConfig::default() };
    assert_eq!(dup.validate_actions().unwrap_err(), ActionConfigError::DuplicateActionId("a".to_string()));
}

#[test]
fn runtime_defaults_are_documented() {
    let config = RuntimeConfig::default();
    assert_eq!(config.http.bind, "127.0.0.1:8080");
    assert_eq!(config.http.max_body_bytes, 1_048_576);
    assert_eq!(config.http.max_batch, 1_000);
    assert_eq!(config.queue_capacity, 1_000);
    assert_eq!(config.persistence.snapshot_interval_secs, 60);
    assert!(!config.mqtt.enabled);
    assert_eq!(EXPIRE_INTERVAL_SECS, 30);
}

fn text_event(id: &str, ts: i64, value: &str) -> Event {
    Event::new(id, "sensor-1", "door.state", ts, Payload::Text { value: value.to_string() }).unwrap()
}

fn numeric_event(id: &str, ts: i64, value: f64) -> Event {
    Event::new(id, "sensor-1", "temperature.reading", ts, Payload::Numeric { value_bits: value.to_bits() }).unwrap()
}

fn engine_with_rule(rule: Rule) -> EngineCore<Arith> {
    let pipeline = ProcessingPipeline::new(PipelineConfig::default(), Arith).unwrap();
    let state = StateStore::new(StateConfig::default()).unwrap();
    let rules = RuleEngine::new(vec![rule]).unwrap();
    let actions = ActionDispatcher::new(vec![log_action("log-ops")]).unwrap();
    EngineCore::new(pipeline, state, rules, actions, Arith)
}

fn engine_with_hot_rule() -> EngineCore<Arith> {
    engine_with_rule(Rule {
        id: "hot".to_string(),
        description: None,
        on: Trigger::Event { kind: "temperature".to_string() },
        condition: Condition::Comparison {
            field: Field::EventValue,
            op: Operator::Gt,
            value: Literal::Numeric(80.0f64.to_bits()),
        },
        action: "log-ops".to_string(),
        suppression: None,
    })
}

#[test]
fn batch_processes_and_fires_rule_end_to_end() {
    let mut core = engine_with_hot_rule();
    let events = vec![numeric_event("e1", 1_000, 85.0), text_event("e2", 1_000, "open")];
    let outcome = core.process_batch(events, 2_000);
    assert_eq!(outcome.accepted, vec![true, true]);
    assert!(outcome.action_outcomes.is_empty());
}

#[test]
fn numeric_event_accumulates_without_immediate_output() {
    let mut core = engine_with_hot_rule();
    let _ = core.process_batch(vec![numeric_event("e1", 1_000, 85.0)], 2_000);
    assert_eq!(core.state_entries(), 0);
}

#[test]
fn non_numeric_event_lands_in_state() {
    let mut core = engine_with_hot_rule();
    let _ = core.process_batch(vec![text_event("d", 1_000, "open")], 2_000);
    assert_eq!(core.state_entries(), 1);
}

#[test]
fn unknown_action_in_rule_is_reported_as_failed_outcome_not_panic() {
    let mut core = engine_with_rule(Rule {
        id: "door-open".to_string(),
        description: None,
        on: Trigger::Event { kind: "door".to_string() },
        condition: Condition::Comparison {
            field: Field::EventValue,
            op: Operator::Eq,
            value: Literal::Text("open".to_string()),
        },
        action: "no-such-action".to_string(),
        suppression: None,
    });
    let outcome = core.process_batch(vec![text_event("d", 1_000, "open")], 2_000);
    assert_eq!(outcome.action_outcomes.len(), 1);
    assert!(outcome.action_outcomes[0].result.is_err());
}

fn door_open_rule() -> Rule {
    Rule {
        id: "door-open".to_string(),
        description: None,
        on: Trigger::Event { kind: "door".to_string() },
        condition: Condition::Comparison {
            field: Field::EventValue,
            op: Operator::Eq,
            value: Literal::Text("open".to_string()),
        },
        action: "log-ops".to_string(),
        suppression: None,
    }
}

#[test]
fn pending_requests_dispatch_once() {
    let mut core = engine_with_rule(door_open_rule());
    assert!(core.process_pipeline_and_state(vec![text_event("d1", 1_000, "open"), text_event("d2", 1_100, "shut")], 2_000));
    let outcome = core.dispatch_pending(2_000);
    assert_eq!(outcome.accepted, vec![true, true]);
    assert_eq!(outcome.action_outcomes.len(), 1);
    assert!(outcome.action_outcomes[0].result.is_ok());
    let again = core.dispatch_pending(2_000);
    assert!(again.accepted.is_empty());
    assert!(again.action_outcomes.is_empty());
    assert_eq!(core.action_counters().actions_succeeded, 1);
}

#[test]
fn single_event_path_and_status() {
    let mut core = engine_with_rule(door_open_rule());
    assert!(core.process_event(text_event("d1", 1_000, "open"), 2_000));
    let status = core.status();
    assert_eq!(status.state_entries, 1);
    assert_eq!(status.actions.actions_attempted, 1);
    assert_eq!(status.queue_depth, 0);
    assert_eq!(core.expire_state(1_000 + 300_000), 1);
    assert_eq!(core.state_entries(), 0);
    assert_eq!(core.state_counters().expired, 1);
}

#[test]
fn wall_clock_conversion() {
    assert_eq!(unix_ms_of(Some(1_700_000_000_000)), 1_700_000_000_000);
    assert_eq!(unix_ms_of(None), 0);
}

#[test]
fn api_errors_map_to_documented_statuses() {
    assert_eq!(ApiError::BadRequest("x".to_string()).status(), 400);
    assert_eq!(ApiError::TooLarge.status(), 413);
    assert_eq!(ApiError::QueueFull.status(), 429);
    assert_eq!(ApiError::ShuttingDown.status(), 503);
    assert_eq!(ApiError::BadRequest("x".to_string()).code(), "invalid_event");
    assert_eq!(ApiError::QueueFull.code(), "queue_full");
    assert_eq!(error_message(&ApiError::QueueFull), "the processing queue is full; retry with backoff");
    assert_eq!(error_message(&ApiError::BadRequest("bad".to_string())), "bad");
    assert_eq!(
        invalid_json("EOF while parsing"),
        ApiError::BadRequest("request body is not valid JSON: EOF while parsing".to_string())
    );
}

fn json(text: &str) -> serde_json::Value {
    serde_json::from_str(text).unwrap()
}

#[test]
fn batch_shape_is_checked_before_events() {
    assert_eq!(
        batch_items(&json("{}"), 10).unwrap_err(),
        ApiError::BadRequest("missing required field: events".to_string())
    );
    assert_eq!(
        batch_items(&json(r#"{"events": 3}"#), 10).unwrap_err(),
        ApiError::BadRequest("field `events` must be an array".to_string())
    );
    assert_eq!(
        batch_items(&json(r#"{"events": []}"#), 10).unwrap_err(),
        ApiError::BadRequest("field `events` must contain at least one event".to_string())
    );
    assert_eq!(
        batch_items(&json(r#"{"events": [1, 2, 3]}"#), 2).unwrap_err(),
        ApiError::BadRequest("batch exceeds the configured maximum of 2 events".to_string())
    );
    assert_eq!(batch_items(&json(r#"{"events": [1, 2]}"#), 2).unwrap().len(), 2);
}

#[test]
fn invalid_event_fails_validation_with_named_index() {
    let mut bad = text_event("x", 1_000, "open");
    bad.timestamp = 0;
    let parsed = vec![Ok(text_event("a", 1_000, "open")), Ok(bad)];
    assert_eq!(
        collect_batch(parsed).unwrap_err(),
        ApiError::BadRequest(
            "events[1] failed validation: event timestamp must be a positive Unix epoch millisecond value, got 0"
                .to_string()
        )
    );
    let parsed = vec![Err("missing field `kind`".to_string()), Ok(text_event("b", 1_000, "open"))];
    assert_eq!(
        collect_batch(parsed).unwrap_err(),
        ApiError::BadRequest("events[0] is not a valid event: missing field `kind`".to_string())
    );
    let ok = collect_batch(vec![Ok(text_event("c", 1_000, "open"))]).unwrap();
    assert_eq!(ok.len(), 1);
}

#[test]
fn read_error_message_names_the_path() {
    let error = ConfigError::Read("deltu.yaml".to_string(), std::io::Error::new(std::io::ErrorKind::NotFound, "gone"));
    assert_eq!(error.message(), "failed to read config file deltu.yaml: gone");
    let parse = ConfigError::Parse { path: "deltu.yaml".to_string(), source: "bad indent".to_string() };
    assert_eq!(parse.message(), "failed to parse config file deltu.yaml: bad indent");
}
