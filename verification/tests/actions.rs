use deltu::actions::log_action::render_line;
use deltu::actions::{
    ActionConfigError, ActionDefinition, ActionDispatcher, ActionError, ActionExecutor, ActionKind, ActionSummary,
    LogExecutor, LogLevel,
};
use deltu::ai::{request_from_action, AiError, AiManager, AiOutcome, AiRequest, ScriptedProvider};
use deltu::rules::ActionRequest;

fn json(text: &str) -> serde_json::Value {
    serde_json::from_str(text).unwrap()
}

#[test]
fn line_contains_rule_id_payload_and_timestamp() {
    let line = render_line("hot-room", "log-ops", LogLevel::Warn, &json(r#"{ "mean": 85.0 }"#), 1_769_412_000_123, None);
    let parsed: serde_json::Value = serde_json::from_str(&line).unwrap();
    assert_eq!(parsed["rule_id"], "hot-room");
    assert_eq!(parsed["action"], "log-ops");
    assert_eq!(parsed["level"], "warn");
    assert_eq!(parsed["ts_ms"], 1_769_412_000_123i64);
    assert_eq!(parsed["payload"]["mean"], 85.0);
}

#[test]
fn template_substitutes_placeholders() {
    let line = render_line(
        "hot-room",
        "log-ops",
        LogLevel::Error,
        &json(r#"{ "mean": 85.0 }"#),
        1_000,
        Some("Rule {rule_id} fired with {payload}"),
    );
    let parsed: serde_json::Value = serde_json::from_str(&line).unwrap();
    assert_eq!(parsed["message"], r#"Rule hot-room fired with {"mean":85.0}"#);
}

#[test]
fn levels_render_lowercase() {
    assert_eq!(LogLevel::Debug.as_str(), "debug");
    assert_eq!(LogLevel::Info.as_str(), "info");
    assert_eq!(LogLevel::Warn.as_str(), "warn");
    assert_eq!(LogLevel::Error.as_str(), "error");
}

fn request(rule_id: &str, action_id: &str) -> ActionRequest {
    ActionRequest { rule_id: rule_id.to_string(), action: action_id.to_string(), payload: json(r#"{ "mean": 85.0 }"#) }
}

fn log_def(id: &str) -> ActionDefinition {
    ActionDefinition { id: id.to_string(), kind: ActionKind::Log { level: LogLevel::Warn, template: None } }
}

struct FailingExecutor;

impl ActionExecutor for FailingExecutor {
    fn execute(&mut self, _request: &ActionRequest, _now_ms: i64) -> Result<ActionSummary, ActionError> {
        Err(ActionError::ExecutionFailed {
            action_id: "will-fail".to_string(),
            reason: "external system rejected the request".to_string(),
        })
    }
}

#[test]
fn log_action_execution_succeeds_with_rendered_line() {
    let mut dispatcher = ActionDispatcher::new(vec![log_def("log-ops")]).unwrap();
    let outcomes = dispatcher.dispatch(&[request("hot-room", "log-ops")], 1_000);
    assert_eq!(outcomes.len(), 1);
    assert!(outcomes[0].result.is_ok());
    let summary = outcomes[0].result.as_ref().unwrap();
    let parsed: serde_json::Value = serde_json::from_str(&summary.detail).unwrap();
    assert_eq!(parsed["rule_id"], "hot-room");
    assert_eq!(parsed["payload"]["mean"], 85.0);
    assert_eq!(dispatcher.counters().actions_succeeded, 1);
    assert_eq!(dispatcher.counters().actions_failed, 0);
}

#[test]
fn failing_action_yields_failed_outcome_without_panicking() {
    let executors: Vec<(String, Box<dyn ActionExecutor>)> = vec![("will-fail".to_string(), Box::new(FailingExecutor))];
    let mut dispatcher = ActionDispatcher::with_executors(executors);
    let outcomes = dispatcher.dispatch(&[request("hot-room", "will-fail")], 1_000);
    assert_eq!(outcomes.len(), 1);
    match &outcomes[0].result {
        Err(ActionError::ExecutionFailed { action_id, .. }) => assert_eq!(action_id, "will-fail"),
        other => panic!("expected execution failure, got {other:?}"),
    }
    assert_eq!(dispatcher.counters().actions_failed, 1);
    assert_eq!(dispatcher.counters().actions_succeeded, 0);
}

#[test]
fn one_failing_action_does_not_abort_remaining_requests() {
    let executors: Vec<(String, Box<dyn ActionExecutor>)> = vec![
        ("log-ops".to_string(), Box::new(LogExecutor { level: LogLevel::Info, template: None })),
        ("will-fail".to_string(), Box::new(FailingExecutor)),
    ];
    let mut dispatcher = ActionDispatcher::with_executors(executors);
    let requests = vec![request("r1", "log-ops"), request("r2", "will-fail"), request("r3", "log-ops")];
    let outcomes = dispatcher.dispatch(&requests, 1_000);
    assert_eq!(outcomes.len(), 3);
    assert!(outcomes[0].result.is_ok());
    assert!(outcomes[1].result.is_err());
    assert!(outcomes[2].result.is_ok());
    assert_eq!(dispatcher.counters().actions_attempted, 3);
    assert_eq!(dispatcher.counters().actions_succeeded, 2);
    assert_eq!(dispatcher.counters().actions_failed, 1);
}

#[test]
fn unknown_action_id_is_an_error_outcome_not_a_panic() {
    let mut dispatcher = ActionDispatcher::new(vec![log_def("log-ops")]).unwrap();
    let outcomes = dispatcher.dispatch(&[request("r", "no-such-action")], 1_000);
    assert_eq!(outcomes[0].result, Err(ActionError::UnknownAction("no-such-action".to_string())));
    assert_eq!(dispatcher.counters().actions_failed, 1);
}

#[test]
fn outcome_order_matches_request_order() {
    let mut dispatcher = ActionDispatcher::new(vec![log_def("a1"), log_def("a2")]).unwrap();
    let requests = vec![request("r", "a2"), request("r", "a1")];
    let outcomes = dispatcher.dispatch(&requests, 1_000);
    assert_eq!(outcomes[0].action_id, "a2");
    assert_eq!(outcomes[1].action_id, "a1");
}

#[test]
fn empty_action_id_is_rejected() {
    let err = ActionDispatcher::new(vec![ActionDefinition {
        id: "   ".to_string(),
        kind: ActionKind::Log { level: LogLevel::Info, template: None },
    }])
    .err()
    .unwrap();
    assert_eq!(err, ActionConfigError::EmptyActionId(String::new()));
}

#[test]
fn duplicate_action_ids_are_rejected() {
    let err = ActionDispatcher::new(vec![log_def("dup"), log_def("dup")]).err().unwrap();
    assert_eq!(err, ActionConfigError::DuplicateActionId("dup".to_string()));
}

fn ai_def(id: &str) -> ActionDefinition {
    ActionDefinition { id: id.to_string(), kind: ActionKind::Ai }
}

#[test]
fn ai_action_routes_through_manager_and_counts_usage() {
    let mut dispatcher = ActionDispatcher::new(vec![ai_def("ai-triage")]).unwrap();
    dispatcher.set_ai_manager(AiManager::with_provider(Box::new(ScriptedProvider::new(
        "test-model",
        vec![Ok((json(r#"{ "triage": "critical" }"#), 42))],
    ))));
    let outcomes = dispatcher.dispatch(&[request("hot-room", "ai-triage")], 1_000);
    assert!(outcomes[0].result.is_ok());
    let summary = outcomes[0].result.as_ref().unwrap();
    assert!(summary.detail.contains("critical"));
    let usage = dispatcher.ai_usage();
    assert_eq!(usage.calls, 1);
    assert_eq!(usage.calls_succeeded, 1);
    assert_eq!(usage.tokens_used, 42);
}

#[test]
fn ai_action_without_provider_fails_fast_as_counted_outcome() {
    let mut dispatcher = ActionDispatcher::new(vec![ai_def("ai-triage")]).unwrap();
    let outcomes = dispatcher.dispatch(&[request("hot-room", "ai-triage")], 1_000);
    assert!(outcomes[0].result.is_err());
    assert_eq!(dispatcher.ai_usage().calls, 1);
    assert_eq!(dispatcher.ai_usage().calls_failed, 1);
}

#[test]
fn policy_ai_manager_is_unreachable_without_an_ai_action() {
    let mut dispatcher = ActionDispatcher::new(vec![log_def("log-ops")]).unwrap();
    dispatcher.set_ai_manager(AiManager::with_provider(Box::new(ScriptedProvider::new("test-model", vec![]))));
    let outcomes = dispatcher.dispatch(&[request("r", "log-ops")], 1_000);
    assert!(outcomes[0].result.is_ok());
    assert_eq!(dispatcher.ai_usage().calls, 0);
}

fn ai_request() -> AiRequest {
    AiRequest {
        rule_id: "hot-room".to_string(),
        action_id: "ai-triage".to_string(),
        payload: json(r#"{ "mean": 91.0 }"#),
        event_time_ms: 1_000,
    }
}

#[test]
fn disabled_manager_fails_fast_and_counts() {
    let mut manager = AiManager::disabled();
    assert!(!manager.enabled());
    match manager.handle(&ai_request()) {
        AiOutcome::Failed(AiError::ProviderFailed(reason)) => assert!(reason.contains("no ai provider")),
        other => panic!("expected failure, got {other:?}"),
    }
    assert_eq!(manager.usage().calls, 1);
    assert_eq!(manager.usage().calls_failed, 1);
    assert_eq!(manager.usage().calls_succeeded, 0);
}

#[test]
fn scripted_provider_returns_structured_result_with_usage() {
    let mut manager = AiManager::with_provider(Box::new(ScriptedProvider::new(
        "test-model",
        vec![Ok((json(r#"{ "triage": "critical" }"#), 42))],
    )));
    assert!(manager.enabled());
    match manager.handle(&ai_request()) {
        AiOutcome::Completed(result) => {
            assert_eq!(result.output, json(r#"{ "triage": "critical" }"#));
            assert_eq!(result.model, "test-model");
            assert_eq!(result.tokens_used, 42);
        }
        other => panic!("expected completion, got {other:?}"),
    }
    assert_eq!(manager.usage().calls, 1);
    assert_eq!(manager.usage().calls_succeeded, 1);
    assert_eq!(manager.usage().tokens_used, 42);
}

#[test]
fn provider_failure_is_isolated_and_counted() {
    let mut manager =
        AiManager::with_provider(Box::new(ScriptedProvider::new("test-model", vec![Err("model crashed".to_string())])));
    match manager.handle(&ai_request()) {
        AiOutcome::Failed(AiError::ProviderFailed(reason)) => assert_eq!(reason, "model crashed"),
        other => panic!("expected failure, got {other:?}"),
    }
    assert_eq!(manager.usage().calls_failed, 1);
    assert!(manager.enabled());
}

#[test]
fn script_exhaustion_fails_cleanly() {
    let mut manager = AiManager::with_provider(Box::new(ScriptedProvider::new("test-model", vec![])));
    assert!(matches!(manager.handle(&ai_request()), AiOutcome::Failed(AiError::ProviderFailed(_))));
}

#[test]
fn request_from_action_carries_rule_context() {
    let action = ActionRequest {
        rule_id: "hot-room".to_string(),
        action: "ai-triage".to_string(),
        payload: json(r#"{ "mean": 91.0 }"#),
    };
    let ai_request = request_from_action(&action, 5_000);
    assert_eq!(ai_request.rule_id, "hot-room");
    assert_eq!(ai_request.action_id, "ai-triage");
    assert_eq!(ai_request.event_time_ms, 5_000);
    assert_eq!(ai_request.payload, json(r#"{ "mean": 91.0 }"#));
}

#[test]
fn usage_latency_is_accumulated() {
    let mut manager = AiManager::with_provider(Box::new(ScriptedProvider::new(
        "test-model",
        vec![Ok((json("1"), 0)), Ok((json("2"), 0))],
    )));
    let _ = manager.handle(&ai_request());
    let _ = manager.handle(&ai_request());
    assert_eq!(manager.usage().calls, 2);
    assert!(manager.usage().latency_ms < u64::MAX);
}

#[test]
fn action_config_error_messages() {
    assert_eq!(ActionConfigError::DuplicateActionId("dup".to_string()).message(), "duplicate action id: dup");
    assert_eq!(
        ActionConfigError::EmptyActionId(String::new()).message(),
        "action id must be a non-empty string, got \"\""
    );
}
