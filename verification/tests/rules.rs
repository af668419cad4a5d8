use deltu::event::{Event, Payload};
use deltu::floatbits::FloatArith;
use deltu::processing::aggregate::Aggregated;
use deltu::processing::Output;
use deltu::rules::dsl::{parse_duration_ms, parse_when_expression, DslRuleConfig};
use deltu::rules::{
    ActionRequest, Condition, EvalInput, Field, Literal, OncePerWindow, Operator, Rule, RuleConfigError, RuleEngine,
    Stat, Trigger,
};
use deltu::state::{StateConfig, StateStore};

#[derive(Debug, Clone, Copy)]
struct Arith;

impl FloatArith for Arith {
    fn add(&self, a: u64, b: u64) -> u64 {
        (f64::from_bits(a) + f64::from_bits(b)).to_bits()
    }
    fn mean(&self, sum: u64, count: u64) -> u64 {
        (f64::from_bits(sum) / count as f64).to_bits()
    }
    fn from_count(&self, count: u64) -> u64 {
        (count as f64).to_bits()
    }
    fn abs_diff(&self, a: u64, b: u64) -> u64 {
        (f64::from_bits(a) - f64::from_bits(b)).abs().to_bits()
    }
    fn parse_decimal(&self, text: &str) -> Option<u64> {
        text.parse::<f64>().ok().map(f64::to_bits)
    }
    fn json_number(&self, n: &serde_json::Number) -> Option<u64> {
        n.as_f64().map(f64::to_bits)
    }
    fn number_json(&self, bits: u64) -> serde_json::Value {
        serde_json::Value::from(f64::from_bits(bits))
    }
    fn ratio(&self, num: u128, den: u64) -> u64 {
        (num as f64 / den as f64).to_bits()
    }
    fn display(&self, bits: u64) -> String {
        f64::from_bits(bits).to_string()
    }

    fn nearest_rank(&self, p_bits: u64, count: usize) -> usize {
        ((f64::from_bits(p_bits) / 100.0) * count as f64).ceil() as usize
    }
}

fn num(v: f64) -> Literal {
    Literal::Numeric(v.to_bits())
}

fn store() -> StateStore {
    StateStore::new(StateConfig::default()).unwrap()
}

fn numeric_event(id: &str, kind: &str, ts: i64, value: f64) -> Event {
    Event::new(id, "sensor-1", kind, ts, Payload::Numeric { value_bits: value.to_bits() }).unwrap()
}

fn text_event(id: &str, kind: &str, ts: i64, value: &str) -> Event {
    Event::new(id, "sensor-1", kind, ts, Payload::Text { value: value.to_string() }).unwrap()
}

fn text_event_on(id: &str, source: &str, kind: &str, ts: i64, value: &str) -> Event {
    Event::new(id, source, kind, ts, Payload::Text { value: value.to_string() }).unwrap()
}

fn summary(kind: &str, end_ms: i64, mean: f64) -> Aggregated {
    Aggregated {
        source: "sensor-1".to_string(),
        kind: kind.to_string(),
        window_start_ms: end_ms - 1_000,
        window_end_ms: end_ms,
        count: 2,
        min: (mean - 1.0).to_bits(),
        max: (mean + 1.0).to_bits(),
        sum: (mean * 2.0).to_bits(),
        mean: mean.to_bits(),
        last: (mean + 1.0).to_bits(),
    }
}

fn rule(id: &str, action: &str, condition: Condition) -> Rule {
    Rule {
        id: id.to_string(),
        description: None,
        on: Trigger::Event { kind: "temperature".to_string() },
        condition,
        action: action.to_string(),
        suppression: None,
    }
}

fn comparison(field: Field, op: Operator, value: Literal) -> Condition {
    Condition::Comparison { field, op, value }
}

#[test]
fn numeric_operators_hold() {
    let state = store();
    let event = numeric_event("e", "temperature.reading", 1_000, 85.0);
    let input = EvalInput::from_event(&event, &state);
    let cases = [
        (Operator::Gt, 80.0, true),
        (Operator::Gt, 85.0, false),
        (Operator::Gte, 85.0, true),
        (Operator::Lt, 90.0, true),
        (Operator::Lt, 85.0, false),
        (Operator::Lte, 85.0, true),
        (Operator::Eq, 85.0, true),
        (Operator::Ne, 85.0, false),
        (Operator::Ne, 84.0, true),
    ];
    for (op, literal, expected) in cases {
        let mut engine = RuleEngine::new(vec![rule("r", "a", comparison(Field::EventValue, op, num(literal)))]).unwrap();
        let fired = engine.evaluate(&input, &Arith);
        assert_eq!(!fired.is_empty(), expected, "{op:?} {literal}");
    }
}

#[test]
fn text_equality_operators_hold() {
    let state = store();
    let event = text_event("e", "door.state", 1_000, "open");
    let input = EvalInput::from_event(&event, &state);
    let mk = |id: &str, literal: &str| Rule {
        id: id.to_string(),
        description: None,
        on: Trigger::Event { kind: "door".to_string() },
        condition: comparison(Field::EventValue, Operator::Eq, Literal::Text(literal.to_string())),
        action: "notify".to_string(),
        suppression: None,
    };
    let mut engine = RuleEngine::new(vec![mk("door-open", "open")]).unwrap();
    assert_eq!(engine.evaluate(&input, &Arith).len(), 1);
    let mut engine = RuleEngine::new(vec![mk("door-closed", "closed")]).unwrap();
    assert!(engine.evaluate(&input, &Arith).is_empty());
}

#[test]
fn boolean_equality_operators_hold() {
    let state = store();
    let event = Event::new("e", "sensor-1", "door.contact", 1_000, Payload::Boolean { value: true }).unwrap();
    let input = EvalInput::from_event(&event, &state);
    let mut engine = RuleEngine::new(vec![Rule {
        id: "contact".to_string(),
        description: None,
        on: Trigger::Event { kind: "door".to_string() },
        condition: comparison(Field::EventValue, Operator::Eq, Literal::Boolean(true)),
        action: "notify".to_string(),
        suppression: None,
    }])
    .unwrap();
    assert_eq!(engine.evaluate(&input, &Arith).len(), 1);
}

#[test]
fn all_and_any_and_not_truth_tables() {
    let state = store();
    let event = numeric_event("e", "temperature.reading", 1_000, 85.0);
    let input = EvalInput::from_event(&event, &state);
    let hot = comparison(Field::EventValue, Operator::Gt, num(80.0));
    let cold = comparison(Field::EventValue, Operator::Lt, num(10.0));
    let mut engine = RuleEngine::new(vec![
        rule("all-true", "a", Condition::All(vec![hot.clone(), hot.clone()])),
        rule("all-false", "a", Condition::All(vec![hot.clone(), cold.clone()])),
        rule("any-true", "a", Condition::Any(vec![hot.clone(), cold.clone()])),
        rule("any-false", "a", Condition::Any(vec![cold.clone(), cold.clone()])),
        rule("not-hot", "a", Condition::Not(Box::new(hot.clone()))),
        rule("not-cold", "a", Condition::Not(Box::new(cold.clone()))),
    ])
    .unwrap();
    let fired: Vec<String> = engine.evaluate(&input, &Arith).into_iter().map(|r| r.rule_id).collect();
    assert_eq!(fired, vec!["all-true", "any-true", "not-cold"]);
}

#[test]
fn missing_state_compares_false_not_error() {
    let state = store();
    let event = numeric_event("e", "temperature.reading", 1_000, 85.0);
    let input = EvalInput::from_event(&event, &state);
    let mut engine = RuleEngine::new(vec![rule(
        "needs-state",
        "a",
        comparison(
            Field::State { source: "sensor-1".into(), kind: "door.state".into() },
            Operator::Eq,
            Literal::Text("open".into()),
        ),
    )])
    .unwrap();
    assert!(engine.evaluate(&input, &Arith).is_empty());
}

#[test]
fn present_state_compares_true() {
    let mut state = store();
    state.observe(&Output::Event(text_event_on("d", "sensor-1", "door.state", 1_000, "open")));
    let event = numeric_event("e", "temperature.reading", 2_000, 85.0);
    let input = EvalInput::from_event(&event, &state);
    let mut engine = RuleEngine::new(vec![rule(
        "door-open-and-hot",
        "a",
        Condition::All(vec![
            comparison(
                Field::State { source: "sensor-1".into(), kind: "door.state".into() },
                Operator::Eq,
                Literal::Text("open".into()),
            ),
            comparison(Field::EventValue, Operator::Gt, num(80.0)),
        ]),
    )])
    .unwrap();
    assert_eq!(engine.evaluate(&input, &Arith).len(), 1);
}

#[test]
fn type_mismatch_compares_false_including_ne() {
    let state = store();
    let event = text_event("e", "door.state", 1_000, "open");
    let input = EvalInput::from_event(&event, &state);
    for op in [Operator::Gt, Operator::Eq, Operator::Ne] {
        let mut engine = RuleEngine::new(vec![rule("mismatch", "a", comparison(Field::EventValue, op, num(5.0)))]).unwrap();
        assert!(engine.evaluate(&input, &Arith).is_empty(), "{op:?} on text-vs-numeric must be false");
    }
}

#[test]
fn event_trigger_matches_kind_family_not_siblings() {
    let state = store();
    let event = numeric_event("e", "temperature.reading", 1_000, 85.0);
    let mut engine =
        RuleEngine::new(vec![rule("family", "a", comparison(Field::EventValue, Operator::Gt, num(80.0)))]).unwrap();
    assert_eq!(engine.evaluate(&EvalInput::from_event(&event, &state), &Arith).len(), 1);
    let other = numeric_event("e2", "temperatures.x", 1_000, 85.0);
    assert!(engine.evaluate(&EvalInput::from_event(&other, &state), &Arith).is_empty());
}

#[test]
fn event_trigger_matches_summary_kind_so_aggregation_field_is_reachable() {
    let state = store();
    let mut engine = RuleEngine::new(vec![rule(
        "hot-window",
        "a",
        comparison(Field::Aggregation { stat: Stat::Mean }, Operator::Gt, num(30.0)),
    )])
    .unwrap();
    let s = summary("temperature.reading", 61_000, 32.5);
    let fired = engine.evaluate(&EvalInput::from_aggregated(&s, &state), &Arith);
    assert_eq!(fired.len(), 1);
}

#[test]
fn state_trigger_fires_when_key_exists() {
    let mut state = store();
    state.observe(&Output::Event(text_event_on("d", "sensor-1", "door.state", 1_000, "open")));
    let unrelated = numeric_event("e", "unrelated.kind", 2_000, 1.0);
    let mut engine = RuleEngine::new(vec![Rule {
        id: "door-state-exists".to_string(),
        description: None,
        on: Trigger::State { source: "sensor-1".to_string(), kind: "door.state".to_string() },
        condition: comparison(
            Field::State { source: "sensor-1".into(), kind: "door.state".into() },
            Operator::Eq,
            Literal::Text("open".into()),
        ),
        action: "a".to_string(),
        suppression: None,
    }])
    .unwrap();
    assert_eq!(engine.evaluate(&EvalInput::from_event(&unrelated, &state), &Arith).len(), 1);
}

#[test]
fn state_trigger_stays_silent_while_key_absent() {
    let state = store();
    let event = numeric_event("e", "unrelated.kind", 2_000, 1.0);
    let mut engine = RuleEngine::new(vec![Rule {
        id: "door-state".to_string(),
        description: None,
        on: Trigger::State { source: "sensor-1".to_string(), kind: "door.state".to_string() },
        condition: Condition::Exists { field: Field::State { source: "sensor-1".into(), kind: "door.state".into() } },
        action: "a".to_string(),
        suppression: None,
    }])
    .unwrap();
    assert!(engine.evaluate(&EvalInput::from_event(&event, &state), &Arith).is_empty());
}

#[test]
fn suppression_fires_once_per_event_time_window() {
    let state = store();
    let make = |id: &str, ts: i64| numeric_event(id, "temperature.reading", ts, 85.0);
    let mk_rule = |id: &str| Rule {
        id: id.to_string(),
        description: None,
        on: Trigger::Event { kind: "temperature".to_string() },
        condition: comparison(Field::EventValue, Operator::Gt, num(80.0)),
        action: "a".to_string(),
        suppression: Some(OncePerWindow { window_ms: 1_000 }),
    };
    let mut engine = RuleEngine::new(vec![mk_rule("r")]).unwrap();
    assert_eq!(engine.evaluate(&EvalInput::from_event(&make("a", 100), &state), &Arith).len(), 1);
    assert_eq!(engine.evaluate(&EvalInput::from_event(&make("b", 500), &state), &Arith).len(), 0);
    assert_eq!(engine.suppressed(), 1);
    assert_eq!(engine.evaluate(&EvalInput::from_event(&make("c", 1_100), &state), &Arith).len(), 1);
    assert_eq!(engine.suppressed(), 1);
}

#[test]
fn suppression_remembers_every_window_it_fired_in() {
    let state = store();
    let make = |id: &str, ts: i64| numeric_event(id, "temperature.reading", ts, 85.0);
    let r = Rule {
        id: "r".to_string(),
        description: None,
        on: Trigger::Event { kind: "temperature".to_string() },
        condition: comparison(Field::EventValue, Operator::Gt, num(80.0)),
        action: "a".to_string(),
        suppression: Some(OncePerWindow { window_ms: 1_000 }),
    };
    let mut engine = RuleEngine::new(vec![r]).unwrap();
    assert_eq!(engine.evaluate(&EvalInput::from_event(&make("a", 100), &state), &Arith).len(), 1);
    assert_eq!(engine.evaluate(&EvalInput::from_event(&make("b", 500), &state), &Arith).len(), 0);
    assert_eq!(engine.evaluate(&EvalInput::from_event(&make("c", 1_100), &state), &Arith).len(), 1);
    assert_eq!(engine.evaluate(&EvalInput::from_event(&make("d", 200), &state), &Arith).len(), 0);
    assert_eq!(engine.suppressed(), 2);
}

#[test]
fn suppression_uses_summary_window_end_as_event_time() {
    let state = store();
    let mk_rule = || Rule {
        id: "r".to_string(),
        description: None,
        on: Trigger::Event { kind: "temperature".to_string() },
        condition: comparison(Field::Aggregation { stat: Stat::Mean }, Operator::Gt, num(30.0)),
        action: "a".to_string(),
        suppression: Some(OncePerWindow { window_ms: 60_000 }),
    };
    let mut engine = RuleEngine::new(vec![mk_rule()]).unwrap();
    let first = summary("temperature.reading", 60_000, 32.0);
    let second = summary("temperature.reading", 119_999, 33.0);
    let third = summary("temperature.reading", 120_000, 34.0);
    assert_eq!(engine.evaluate(&EvalInput::from_aggregated(&first, &state), &Arith).len(), 1);
    assert_eq!(engine.evaluate(&EvalInput::from_aggregated(&second, &state), &Arith).len(), 0);
    assert_eq!(engine.evaluate(&EvalInput::from_aggregated(&third, &state), &Arith).len(), 1);
    assert_eq!(engine.suppressed(), 1);
}

#[test]
fn matches_are_ordered_by_rule_id_regardless_of_definition_order() {
    let state = store();
    let event = numeric_event("e", "temperature.reading", 1_000, 85.0);
    let mut engine = RuleEngine::new(vec![
        rule("zeta", "a", comparison(Field::EventValue, Operator::Gt, num(80.0))),
        rule("alpha", "a", comparison(Field::EventValue, Operator::Gt, num(80.0))),
        rule("mid", "a", comparison(Field::EventValue, Operator::Gt, num(80.0))),
    ])
    .unwrap();
    let ids: Vec<String> =
        engine.evaluate(&EvalInput::from_event(&event, &state), &Arith).into_iter().map(|r| r.rule_id).collect();
    assert_eq!(ids, vec!["alpha", "mid", "zeta"]);
}

#[test]
fn config_errors_are_rejected_with_right_variants() {
    let base = |id: &str| rule(id, "a", Condition::Exists { field: Field::EventValue });
    assert_eq!(RuleEngine::new(vec![base("")]).unwrap_err(), RuleConfigError::EmptyRuleId);
    assert_eq!(
        RuleEngine::new(vec![base("r"), base("r")]).unwrap_err(),
        RuleConfigError::DuplicateRuleId("r".to_string())
    );
    let empty_action = Rule {
        id: "r".to_string(),
        description: None,
        on: Trigger::Event { kind: "k".to_string() },
        condition: Condition::Exists { field: Field::EventValue },
        action: "  ".to_string(),
        suppression: None,
    };
    assert_eq!(RuleEngine::new(vec![empty_action]).unwrap_err(), RuleConfigError::EmptyActionId);
    assert_eq!(
        RuleEngine::new(vec![rule("r", "a", Condition::All(vec![]))]).unwrap_err(),
        RuleConfigError::EmptyConditionList("r".to_string())
    );
    let bad_window = Rule {
        id: "r".to_string(),
        description: None,
        on: Trigger::Event { kind: "k".to_string() },
        condition: Condition::Exists { field: Field::EventValue },
        action: "a".to_string(),
        suppression: Some(OncePerWindow { window_ms: 0 }),
    };
    assert_eq!(
        RuleEngine::new(vec![bad_window]).unwrap_err(),
        RuleConfigError::InvalidSuppressionWindow { rule_id: "r".to_string(), window_ms: 0 }
    );
}

#[test]
fn fired_match_becomes_a_request_with_the_snapshot_payload() {
    let state = store();
    let event = numeric_event("e", "temperature.reading", 1_000, 85.0);
    let mut engine = RuleEngine::new(vec![Rule {
        id: "hot".to_string(),
        description: Some("too hot".to_string()),
        on: Trigger::Event { kind: "temperature".to_string() },
        condition: comparison(Field::EventValue, Operator::Gt, num(80.0)),
        action: "log-ops".to_string(),
        suppression: None,
    }])
    .unwrap();
    let matches = engine.evaluate(&EvalInput::from_event(&event, &state), &Arith);
    assert_eq!(matches.len(), 1);
    let request = ActionRequest::from_match(matches.into_iter().next().unwrap(), &Arith);
    assert_eq!(request.rule_id, "hot");
    assert_eq!(request.action, "log-ops");
    assert_eq!(request.payload["rule_id"], "hot");
    assert_eq!(request.payload["rule_description"], "too hot");
    assert_eq!(request.payload["trigger_kind"], "temperature");
    assert_eq!(request.payload["event_time_ms"], 1_000);
    assert_eq!(request.payload["satisfied_value"], 85.0);
}

#[test]
fn parse_simple_numeric_dsl() {
    let dsl = DslRuleConfig {
        id: Some("high-temp".to_string()),
        name: None,
        description: Some("Warn when temp > 80".to_string()),
        when: "temperature > 80".to_string(),
        within: Some("60s".to_string()),
        action: Some("log-ops".to_string()),
    };
    let rule = dsl.compile(&Arith).unwrap();
    assert_eq!(rule.id, "high-temp");
    assert_eq!(rule.action, "log-ops");
    assert_eq!(rule.on, Trigger::Event { kind: "temperature".to_string() });
    assert_eq!(rule.suppression, Some(OncePerWindow { window_ms: 60000 }));
    if let Condition::Comparison { field, op, value } = rule.condition {
        assert_eq!(field, Field::EventValue);
        assert_eq!(op, Operator::Gt);
        assert_eq!(value, num(80.0));
    } else {
        panic!("expected comparison condition");
    }
}

#[test]
fn parse_aggregation_count_dsl() {
    let dsl = DslRuleConfig {
        id: None,
        name: Some("error-storm".to_string()),
        description: None,
        when: "count(http.error) > 10".to_string(),
        within: Some("30s".to_string()),
        action: Some("alert-webhook".to_string()),
    };
    let rule = dsl.compile(&Arith).unwrap();
    assert_eq!(rule.id, "error-storm");
    assert_eq!(rule.on, Trigger::Event { kind: "http.error".to_string() });
    if let Condition::Comparison { field, op, value } = rule.condition {
        assert_eq!(field, Field::Aggregation { stat: Stat::Count });
        assert_eq!(op, Operator::Gt);
        assert_eq!(value, num(10.0));
    } else {
        panic!("expected aggregation comparison");
    }
}

#[test]
fn parse_text_literal_dsl() {
    let dsl = DslRuleConfig {
        id: Some("door-alert".to_string()),
        name: None,
        description: None,
        when: "door == 'open'".to_string(),
        within: None,
        action: Some("log-ops".to_string()),
    };
    let rule = dsl.compile(&Arith).unwrap();
    if let Condition::Comparison { field, op, value } = rule.condition {
        assert_eq!(field, Field::EventValue);
        assert_eq!(op, Operator::Eq);
        assert_eq!(value, Literal::Text("open".to_string()));
    } else {
        panic!("expected text comparison");
    }
}

#[test]
fn parse_combinator_dsl() {
    let (t, c) = parse_when_expression("temperature > 80 AND count(cpu.spike) >= 5", &Arith).unwrap();
    assert_eq!(t, Trigger::Event { kind: "temperature".to_string() });
    if let Condition::All(children) = c {
        assert_eq!(children.len(), 2);
    } else {
        panic!("expected All condition");
    }
}

#[test]
fn duration_parser_handles_units() {
    assert_eq!(parse_duration_ms("500ms").unwrap(), 500);
    assert_eq!(parse_duration_ms("30s").unwrap(), 30000);
    assert_eq!(parse_duration_ms("2m").unwrap(), 120000);
    assert_eq!(parse_duration_ms("10").unwrap(), 10000);
    assert!(parse_duration_ms("invalid").is_err());
}

#[test]
fn duration_parser_reports_overflow_as_an_error() {
    assert!(parse_duration_ms("99999999999999999m").is_err());
}

#[test]
fn text_and_boolean_values_become_json_in_the_payload() {
    let state = store();
    let text = text_event("t", "door.state", 1_000, "open");
    let mut engine = RuleEngine::new(vec![Rule {
        id: "door".to_string(),
        description: None,
        on: Trigger::Event { kind: "door".to_string() },
        condition: Condition::Exists { field: Field::EventValue },
        action: "a".to_string(),
        suppression: None,
    }])
    .unwrap();
    let m = engine.evaluate(&EvalInput::from_event(&text, &state), &Arith).into_iter().next().unwrap();
    let request = ActionRequest::from_match(m, &Arith);
    assert_eq!(request.payload["satisfied_value"], "open");
    assert!(request.payload["rule_description"].is_null());
    let flag = Event::new("b", "sensor-1", "door.contact", 2_000, Payload::Boolean { value: true }).unwrap();
    let m = engine.evaluate(&EvalInput::from_event(&flag, &state), &Arith).into_iter().next().unwrap();
    let request = ActionRequest::from_match(m, &Arith);
    assert_eq!(request.payload["satisfied_value"], true);
    assert_eq!(request.payload["trigger_kind"], "door");
}
