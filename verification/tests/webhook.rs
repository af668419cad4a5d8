use deltu::actions::webhook::{
    validate_config, Delivery, WebhookConfig, WebhookExecutor, WebhookHeader, WebhookMethod, MAX_TIMEOUT_MS,
};
use deltu::actions::ActionError;
use deltu::rules::ActionRequest;

fn request() -> ActionRequest {
    ActionRequest {
        rule_id: "hot-room".to_string(),
        action: "notify".to_string(),
        payload: serde_json::from_str(r#"{ "mean": 85.5 }"#).unwrap(),
    }
}

fn base(url: &str) -> WebhookConfig {
    WebhookConfig { url: url.to_string(), method: WebhookMethod::Post, headers: vec![], timeout_ms: 1_000 }
}

#[test]
fn config_validation_rejects_bad_urls_and_values() {
    assert!(validate_config(&base("http://example.com/hook")).is_ok());
    assert!(validate_config(&base("https://example.com/hook")).is_ok());
    assert!(WebhookExecutor::new(base("ftp://example.com")).is_err());
    assert!(WebhookExecutor::new(base("not a url")).is_err());
    assert!(WebhookExecutor::new(base("http://")).is_err());
    let zero_timeout = WebhookConfig { timeout_ms: 0, ..base("http://example.com/hook") };
    assert!(validate_config(&zero_timeout).is_err());
    let huge_timeout = WebhookConfig { timeout_ms: MAX_TIMEOUT_MS + 1, ..base("http://example.com/hook") };
    assert!(validate_config(&huge_timeout).is_err());
}

#[test]
fn build_body_contains_rule_action_payload_timestamp() {
    let body = WebhookExecutor::build_body(&request(), 1_769_412_000_123);
    assert_eq!(body["rule_id"], "hot-room");
    assert_eq!(body["action"], "notify");
    assert_eq!(body["payload"]["mean"], 85.5);
    assert_eq!(body["ts_ms"], 1_769_412_000_123i64);
}

#[test]
fn put_and_patch_methods_are_configurable() {
    assert_eq!(WebhookMethod::default().as_str(), "POST");
    assert_eq!(WebhookMethod::Put.as_str(), "PUT");
    assert_eq!(WebhookMethod::Patch.as_str(), "PATCH");
}

#[test]
fn headers_are_validated() {
    let bad_name = WebhookConfig {
        headers: vec![WebhookHeader { name: "bad name".to_string(), value: "x".to_string() }],
        ..base("http://example.com/hook")
    };
    assert!(validate_config(&bad_name).is_err());
    let good = WebhookConfig {
        headers: vec![WebhookHeader { name: "x-deltu-test".to_string(), value: "yes".to_string() }],
        ..base("http://example.com/hook")
    };
    assert!(validate_config(&good).is_ok());
}

#[test]
fn settle_maps_answers_to_outcomes() {
    let executor = WebhookExecutor::new(base("http://example.com/hook")).unwrap();
    let ok = executor.settle("notify", Delivery::Answered { status: 200, reason: Some("OK".to_string()) });
    assert!(ok.unwrap().detail.contains("200"));
    match executor.settle("notify", Delivery::Answered { status: 500, reason: Some("Internal Server Error".to_string()) })
    {
        Err(ActionError::ExecutionFailed { action_id, reason }) => {
            assert_eq!(action_id, "notify");
            assert!(reason.contains("500"));
        }
        other => panic!("expected failure, got {other:?}"),
    }
    match executor.settle("notify", Delivery::TimedOut) {
        Err(ActionError::ExecutionFailed { reason, .. }) => assert!(reason.contains("timed out after 1000 ms")),
        other => panic!("expected timeout failure, got {other:?}"),
    }
    match executor.settle("notify", Delivery::ConnectFailed("connection refused".to_string())) {
        Err(ActionError::ExecutionFailed { reason, .. }) => assert!(reason.contains("could not connect")),
        other => panic!("expected connect failure, got {other:?}"),
    }
}

#[test]
fn executor_exposes_its_configuration() {
    let executor = WebhookExecutor::new(WebhookConfig {
        method: WebhookMethod::Put,
        timeout_ms: 2_000,
        ..base("https://example.com/hook")
    })
    .unwrap();
    assert_eq!(executor.url(), "https://example.com/hook");
    assert_eq!(executor.method(), WebhookMethod::Put);
    assert_eq!(executor.timeout_ms(), 2_000);
    assert!(executor.headers().is_empty());
}
