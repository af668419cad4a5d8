//! Deltu's deterministic rule engine: typed conditions evaluated against
//! pipeline inputs and current state, producing action requests.
//!
//! Pure, synchronous, total: evaluation never errors (missing state or
//! type mismatches compare `false`), and output is deterministic (matches
//! ordered by rule id).

pub mod definition;
pub mod dsl;
pub mod error;

pub use definition::{Condition, Field, Literal, OncePerWindow, Operator, Rule, Stat, Trigger};
pub use error::{RuleConfigError, RuleErrorView};

use vstd::prelude::*;

use crate::event::Event;
use crate::json::{
    bool_value, clone_json, i64_value, json_bool_value, json_i64_value, json_object, json_option_value, json_text_value, members_view,
    object_of, option_value, text_value,
};
use crate::floatbits::{bits_eq, bits_le, bits_lt, float_eq, float_le, float_lt, FloatArith};
use crate::processing::{bump, in_family, inc, kind_matches_family, trunc_div, Aggregated};
use crate::state::store::{value_of_payload, KeyView, StateKey, StateStore, StateValue};
use crate::order::{
    compare_chars, lemma_seq_lt_asymmetric, lemma_seq_lt_irreflexive, lemma_seq_lt_total, lemma_seq_lt_transitive,
    seq_lt, Rank,
};
use crate::text::{
    chars_of, concat3, owned, lemma_blank_iff_trimmed_empty, lower, str_blank, str_equal, str_trim, to_lowercase, trimmed,
};

verus! {

/// What the rule engine evaluates: the triggering input (a raw event, a
/// window summary, or neither, for pure state rules) plus the current
/// state.
pub struct EvalInput<'a> {
    /// The triggering raw event, when the input was one.
    pub event: Option<&'a Event>,
    /// The triggering window summary, when the input was one.
    pub aggregated: Option<&'a Aggregated>,
    /// Current runtime state.
    pub state: &'a StateStore,
}

impl<'a> EvalInput<'a> {
    /// Builds an input from a raw event.
    pub fn from_event(event: &'a Event, state: &'a StateStore) -> (r: Self)
        ensures
            r.event == Some(event),
            r.aggregated.is_none(),
            r.state == state,
    {
        EvalInput { event: Some(event), aggregated: None, state }
    }

    /// Builds an input from a window summary.
    pub fn from_aggregated(aggregated: &'a Aggregated, state: &'a StateStore) -> (r: Self)
        ensures
            r.event.is_none(),
            r.aggregated == Some(aggregated),
            r.state == state,
    {
        EvalInput { event: None, aggregated: Some(aggregated), state }
    }
}

/// The statistic `stat` of a window summary; `count_bits` is the binary64
/// pattern of the window's count.
pub open spec fn stat_bits(s: Aggregated, stat: Stat, count_bits: u64) -> u64 {
    match stat {
        Stat::Mean => s.mean,
        Stat::Min => s.min,
        Stat::Max => s.max,
        Stat::Sum => s.sum,
        Stat::Count => count_bits,
        Stat::Last => s.last,
    }
}

/// The value a field reads on this input, if it exists.
pub open spec fn field_reading(f: Field, i: EvalInput, count_bits: u64) -> Option<StateValue> {
    match f {
        Field::EventValue => match i.event {
            Some(e) => Some(value_of_payload(e.payload)),
            None => match i.aggregated {
                Some(s) => Some(StateValue::Numeric(s.mean)),
                None => None,
            },
        },
        Field::Aggregation { stat } => match i.aggregated {
            Some(s) => Some(StateValue::Numeric(stat_bits(*s, stat, count_bits))),
            None => None,
        },
        Field::State { source, kind } => {
            let m = i.state.stored();
            let k = (source@, kind@);
            if m.contains_key(k) {
                Some(m[k].0.value)
            } else {
                None
            }
        },
    }
}

/// Whether the field's value exists on this input.
pub open spec fn field_present(f: Field, i: EvalInput) -> bool {
    match f {
        Field::EventValue => i.event.is_some() || i.aggregated.is_some(),
        Field::Aggregation { .. } => i.aggregated.is_some(),
        Field::State { source, kind } => i.state.stored().contains_key((source@, kind@)),
    }
}

/// A value compared against a literal under an operator. Numbers compare
/// by IEEE-754; text and booleans support only equality; type mismatches
/// (including cross-type `Ne`) are `false`.
pub open spec fn satisfies(v: StateValue, op: Operator, lit: Literal) -> bool {
    match (v, lit) {
        (StateValue::Numeric(a), Literal::Numeric(b)) => match op {
            Operator::Gt => float_lt(b, a),
            Operator::Gte => float_le(b, a),
            Operator::Lt => float_lt(a, b),
            Operator::Lte => float_le(a, b),
            Operator::Eq => float_eq(a, b),
            Operator::Ne => !float_eq(a, b),
        },
        (StateValue::Text(a), Literal::Text(b)) => match op {
            Operator::Eq => a@ == b@,
            Operator::Ne => a@ != b@,
            _ => false,
        },
        (StateValue::Boolean(a), Literal::Boolean(b)) => match op {
            Operator::Eq => a == b,
            Operator::Ne => a != b,
            _ => false,
        },
        _ => false,
    }
}

/// Whether a condition holds on this input. Total: missing values and
/// type mismatches make a comparison `false`.
pub open spec fn holds(c: Condition, i: EvalInput, count_bits: u64) -> bool
    decreases c,
{
    match c {
        Condition::All(cs) => {
            proof {
                vstd::std_specs::vec::axiom_vec_decreases_to_view(cs);
            }
            all_hold_seq(cs@, i, count_bits)
        },
        Condition::Any(cs) => {
            proof {
                vstd::std_specs::vec::axiom_vec_decreases_to_view(cs);
            }
            any_holds_seq(cs@, i, count_bits)
        },
        Condition::Not(b) => !holds(*b, i, count_bits),
        Condition::Comparison { field, op, value } => match field_reading(field, i, count_bits) {
            Some(v) => satisfies(v, op, value),
            None => false,
        },
        Condition::Exists { field } => field_present(field, i),
    }
}

/// Every condition of the list holds.
pub open spec fn all_hold_seq(s: Seq<Condition>, i: EvalInput, count_bits: u64) -> bool
    decreases s,
{
    if s.len() == 0 {
        true
    } else {
        holds(s[0], i, count_bits) && all_hold_seq(s.drop_first(), i, count_bits)
    }
}

/// Some condition of the list holds.
pub open spec fn any_holds_seq(s: Seq<Condition>, i: EvalInput, count_bits: u64) -> bool
    decreases s,
{
    if s.len() == 0 {
        false
    } else {
        holds(s[0], i, count_bits) || any_holds_seq(s.drop_first(), i, count_bits)
    }
}

/// `All` holds exactly when each of its children does; `Any` exactly
/// when one of them does.
pub proof fn lemma_lists(s: Seq<Condition>, i: EvalInput, count_bits: u64)
    ensures
        all_hold_seq(s, i, count_bits) == forall|j: int| 0 <= j < s.len() ==> #[trigger] holds(s[j], i, count_bits),
        any_holds_seq(s, i, count_bits) == exists|j: int| 0 <= j < s.len() && #[trigger] holds(s[j], i, count_bits),
    decreases s.len(),
{
    if s.len() > 0 {
        let t = s.drop_first();
        lemma_lists(t, i, count_bits);
        assert forall|j: int| 0 < j < s.len() implies #[trigger] holds(s[j], i, count_bits) == holds(t[j - 1], i, count_bits) by {
            assert(s[j] == t[j - 1]);
        }
        if exists|j: int| 0 <= j < s.len() && #[trigger] holds(s[j], i, count_bits) {
            let j = choose|j: int| 0 <= j < s.len() && #[trigger] holds(s[j], i, count_bits);
            if j > 0 {
                assert(holds(t[j - 1], i, count_bits));
            }
        }
        if exists|j: int| 0 <= j < t.len() && #[trigger] holds(t[j], i, count_bits) {
            let j = choose|j: int| 0 <= j < t.len() && #[trigger] holds(t[j], i, count_bits);
            assert(holds(s[j + 1], i, count_bits));
        }
        if forall|j: int| 0 <= j < t.len() ==> #[trigger] holds(t[j], i, count_bits) {
            if holds(s[0], i, count_bits) {
                assert forall|j: int| 0 <= j < s.len() implies #[trigger] holds(s[j], i, count_bits) by {
                    if j > 0 {
                        assert(holds(t[j - 1], i, count_bits));
                    }
                }
            }
        } else {
            let j = choose|j: int| 0 <= j < t.len() && !#[trigger] holds(t[j], i, count_bits);
            assert(!holds(s[j + 1], i, count_bits));
        }
    }
}

/// Compares a value against a literal under an operator.
fn value_satisfies(value: &StateValue, op: Operator, literal: &Literal) -> (r: bool)
    ensures
        r == satisfies(*value, op, *literal),
{
    match (value, literal) {
        (StateValue::Numeric(v), Literal::Numeric(l)) => match op {
            Operator::Gt => bits_lt(*l, *v),
            Operator::Gte => bits_le(*l, *v),
            Operator::Lt => bits_lt(*v, *l),
            Operator::Lte => bits_le(*v, *l),
            Operator::Eq => bits_eq(*v, *l),
            Operator::Ne => !bits_eq(*v, *l),
        },
        (StateValue::Text(v), Literal::Text(l)) => match op {
            Operator::Eq => str_equal(v.as_str(), l.as_str()),
            Operator::Ne => !str_equal(v.as_str(), l.as_str()),
            _ => false,
        },
        (StateValue::Boolean(v), Literal::Boolean(l)) => match op {
            Operator::Eq => *v == *l,
            Operator::Ne => *v != *l,
            _ => false,
        },
        _ => false,
    }
}

/// Whether the field's value exists on this input.
fn field_exists(field: &Field, input: &EvalInput) -> (r: bool)
    requires
        input.state.wf(),
    ensures
        r == field_present(*field, *input),
{
    match field {
        Field::EventValue => input.event.is_some() || input.aggregated.is_some(),
        Field::Aggregation { .. } => input.aggregated.is_some(),
        Field::State { source, kind } => {
            let key = StateKey::new(source.as_str(), kind.as_str());
            input.state.get(&key).is_some()
        },
    }
}

/// Evaluates a comparison against the input.
fn compare_field(field: &Field, op: Operator, literal: &Literal, input: &EvalInput, count_bits: u64) -> (r: bool)
    requires
        input.state.wf(),
    ensures
        r == match field_reading(*field, *input, count_bits) {
            Some(v) => satisfies(v, op, *literal),
            None => false,
        },
{
    match field {
        Field::EventValue => match input.event {
            Some(event) => {
                let v = StateValue::from_payload(&event.payload);
                value_satisfies(&v, op, literal)
            },
            None => match input.aggregated {
                Some(summary) => value_satisfies(&StateValue::Numeric(summary.mean), op, literal),
                None => false,
            },
        },
        Field::Aggregation { stat } => match input.aggregated {
            Some(summary) => {
                let bits = match stat {
                    Stat::Mean => summary.mean,
                    Stat::Min => summary.min,
                    Stat::Max => summary.max,
                    Stat::Sum => summary.sum,
                    Stat::Count => count_bits,
                    Stat::Last => summary.last,
                };
                value_satisfies(&StateValue::Numeric(bits), op, literal)
            },
            None => false,
        },
        Field::State { source, kind } => {
            let key = StateKey::new(source.as_str(), kind.as_str());
            match input.state.get(&key) {
                Some(entry) => value_satisfies(&entry.value, op, literal),
                None => false,
            }
        },
    }
}

/// Evaluates a condition tree against the input. Total: `false` for
/// missing values or type mismatches, never an error.
fn condition_value(condition: &Condition, input: &EvalInput, count_bits: u64) -> (r: bool)
    requires
        input.state.wf(),
    ensures
        r == holds(*condition, *input, count_bits),
    decreases condition,
{
    match condition {
        Condition::All(children) => {
            let r = all_hold(children, input, count_bits);
            proof {
                lemma_lists(children@, *input, count_bits);
            }
            r
        },
        Condition::Any(children) => {
            let r = any_holds(children, input, count_bits);
            proof {
                lemma_lists(children@, *input, count_bits);
            }
            r
        },
        Condition::Not(child) => !condition_value(child, input, count_bits),
        Condition::Comparison { field, op, value } => compare_field(field, *op, value, input, count_bits),
        Condition::Exists { field } => field_exists(field, input),
    }
}

/// Whether every condition of the list holds (stops at the first that
/// does not).
fn all_hold(children: &Vec<Condition>, input: &EvalInput, count_bits: u64) -> (r: bool)
    requires
        input.state.wf(),
    ensures
        r == forall|j: int| 0 <= j < children@.len() ==> #[trigger] holds(children@[j], *input, count_bits),
    decreases children,
{
    let mut i: usize = 0;
    while i < children.len()
        invariant
            input.state.wf(),
            i <= children@.len(),
            forall|j: int| 0 <= j < i ==> #[trigger] holds(children@[j], *input, count_bits),
        decreases children@.len() - i,
    {
        proof {
            vstd::std_specs::vec::axiom_vec_index_decreases(*children, i as int);
        }
        if !condition_value(&children[i], input, count_bits) {
            return false;
        }
        i += 1;
    }
    true
}

/// Whether some condition of the list holds (stops at the first that
/// does).
fn any_holds(children: &Vec<Condition>, input: &EvalInput, count_bits: u64) -> (r: bool)
    requires
        input.state.wf(),
    ensures
        r == exists|j: int| 0 <= j < children@.len() && #[trigger] holds(children@[j], *input, count_bits),
    decreases children,
{
    let mut i: usize = 0;
    while i < children.len()
        invariant
            input.state.wf(),
            i <= children@.len(),
            forall|j: int| 0 <= j < i ==> !#[trigger] holds(children@[j], *input, count_bits),
        decreases children@.len() - i,
    {
        proof {
            vstd::std_specs::vec::axiom_vec_index_decreases(*children, i as int);
        }
        if condition_value(&children[i], input, count_bits) {
            return true;
        }
        i += 1;
    }
    false
}

// ---------------------------------------------------------------------
// Configuration validation
// ---------------------------------------------------------------------

/// A condition tree with an empty `All`/`Any` list somewhere in it.
pub open spec fn has_empty_list(c: Condition) -> bool
    decreases c,
{
    match c {
        Condition::All(cs) => {
            proof {
                vstd::std_specs::vec::axiom_vec_decreases_to_view(cs);
            }
            cs@.len() == 0 || some_has_empty_list(cs@)
        },
        Condition::Any(cs) => {
            proof {
                vstd::std_specs::vec::axiom_vec_decreases_to_view(cs);
            }
            cs@.len() == 0 || some_has_empty_list(cs@)
        },
        Condition::Not(b) => has_empty_list(*b),
        _ => false,
    }
}

/// Some tree of the list has an empty `All`/`Any` list.
pub open spec fn some_has_empty_list(s: Seq<Condition>) -> bool
    decreases s,
{
    if s.len() == 0 {
        false
    } else {
        has_empty_list(s[0]) || some_has_empty_list(s.drop_first())
    }
}

proof fn lemma_some_empty(s: Seq<Condition>)
    ensures
        some_has_empty_list(s) == exists|j: int| 0 <= j < s.len() && #[trigger] has_empty_list(s[j]),
    decreases s.len(),
{
    if s.len() > 0 {
        let t = s.drop_first();
        lemma_some_empty(t);
        if has_empty_list(s[0]) {
            assert(exists|j: int| 0 <= j < s.len() && #[trigger] has_empty_list(s[j]));
        }
        if exists|j: int| 0 <= j < s.len() && #[trigger] has_empty_list(s[j]) {
            let j = choose|j: int| 0 <= j < s.len() && #[trigger] has_empty_list(s[j]);
            if j > 0 {
                assert(has_empty_list(t[j - 1]));
            }
        }
        if exists|j: int| 0 <= j < t.len() && #[trigger] has_empty_list(t[j]) {
            let j = choose|j: int| 0 <= j < t.len() && #[trigger] has_empty_list(t[j]);
            assert(has_empty_list(s[j + 1]));
        }
    }
}

/// The error a rule raises, given the rules validated before it.
pub open spec fn rule_error(r: Rule, earlier: Seq<Rule>) -> Option<RuleErrorView> {
    let id = trimmed(r.id@);
    if id.len() == 0 {
        Some(RuleErrorView::EmptyRuleId)
    } else if exists|j: int| 0 <= j < earlier.len() && #[trigger] trimmed(earlier[j].id@) == id {
        Some(RuleErrorView::DuplicateRuleId(id))
    } else if trimmed(r.action@).len() == 0 {
        Some(RuleErrorView::EmptyActionId)
    } else if has_empty_list(r.condition) {
        Some(RuleErrorView::EmptyConditionList(r.id@))
    } else {
        match r.suppression {
            Some(w) => if w.window_ms <= 0 {
                Some(RuleErrorView::InvalidSuppressionWindow(id, w.window_ms))
            } else {
                None
            },
            None => None,
        }
    }
}

/// The first configuration error of a rule list, checking the rules in
/// order.
pub open spec fn first_rule_error(rules: Seq<Rule>) -> Option<RuleErrorView>
    decreases rules.len(),
{
    if rules.len() == 0 {
        None
    } else {
        match first_rule_error(rules.drop_last()) {
            Some(e) => Some(e),
            None => rule_error(rules.last(), rules.drop_last()),
        }
    }
}

/// Whether a condition tree is free of empty `All`/`Any` lists.
fn validate_condition(condition: &Condition) -> (r: bool)
    ensures
        r == !has_empty_list(*condition),
    decreases condition,
{
    match condition {
        Condition::All(children) => {
            let r = validate_conditions(children);
            proof {
                lemma_some_empty(children@);
            }
            r
        },
        Condition::Any(children) => {
            let r = validate_conditions(children);
            proof {
                lemma_some_empty(children@);
            }
            r
        },
        Condition::Not(child) => validate_condition(child),
        Condition::Comparison { .. } => true,
        Condition::Exists { .. } => true,
    }
}

/// Whether a list of conditions is non-empty and each is valid.
fn validate_conditions(children: &Vec<Condition>) -> (r: bool)
    ensures
        r == (children@.len() > 0 && forall|j: int| 0 <= j < children@.len() ==> !#[trigger] has_empty_list(children@[j])),
    decreases children,
{
    if children.len() == 0 {
        return false;
    }
    let mut i: usize = 0;
    while i < children.len()
        invariant
            i <= children@.len(),
            forall|j: int| 0 <= j < i ==> !#[trigger] has_empty_list(children@[j]),
        decreases children@.len() - i,
    {
        proof {
            vstd::std_specs::vec::axiom_vec_index_decreases(*children, i as int);
        }
        if !validate_condition(&children[i]) {
            return false;
        }
        i += 1;
    }
    true
}

// ---------------------------------------------------------------------
// Matches
// ---------------------------------------------------------------------

/// The compressed context a fired rule hands its action: rule id and
/// description, trigger kind, the event-time of the input, and the value
/// that satisfied the condition where there is one.
#[derive(Debug, PartialEq)]
pub struct RuleSnapshot {
    pub rule_id: String,
    pub rule_description: Option<String>,
    pub trigger_kind: String,
    pub event_time_ms: i64,
    pub satisfied_value: Option<StateValue>,
}

/// A rule that fired, with the snapshot its action will receive.
#[derive(Debug, PartialEq)]
pub struct RuleMatch {
    /// The rule that fired.
    pub rule_id: String,
    /// The action id to request.
    pub action: String,
    /// Context for the action.
    pub snapshot: RuleSnapshot,
}

/// An action request: what the action dispatcher consumes.
#[derive(Debug)]
pub struct ActionRequest {
    /// Rule that produced the request.
    pub rule_id: String,
    /// Action to execute.
    pub action: String,
    /// Compressed context payload for the action.
    pub payload: serde_json::Value,
}

/// The JSON `j` stands for the state value `v` in a snapshot: text and
/// booleans as JSON strings and booleans, structured values as they are;
/// a number as the JSON `arith.number_json` gives for that very number.
pub open spec fn value_json_matches<F: FloatArith>(arith: &F, v: StateValue, j: serde_json::Value) -> bool {
    match v {
        StateValue::Numeric(b) => call_ensures(F::number_json, (arith, b), j),
        StateValue::Text(t) => j == text_value(t@),
        StateValue::Boolean(b) => j == bool_value(b),
        StateValue::Structured(x) => j == x,
    }
}

/// An optional string as characters.
pub open spec fn string_option_view(o: Option<String>) -> Option<Seq<char>> {
    match o {
        Some(d) => Some(d@),
        None => None,
    }
}

/// The JSON of an optional text: a string, or null.
pub open spec fn optional_text_value(o: Option<Seq<char>>) -> serde_json::Value {
    option_value(
        match o {
            Some(t) => Some(text_value(t)),
            None => None,
        },
    )
}

/// The JSON object a fired rule's snapshot becomes: members `rule_id`,
/// `rule_description` (null when absent), `trigger_kind`,
/// `event_time_ms` and `satisfied_value` (null when absent).
pub open spec fn snapshot_object(
    rule_id: Seq<char>,
    description: Option<Seq<char>>,
    trigger_kind: Seq<char>,
    event_time_ms: i64,
    satisfied: Option<serde_json::Value>,
) -> serde_json::Value {
    object_of(
        seq![
            ("rule_id"@, text_value(rule_id)),
            ("rule_description"@, optional_text_value(description)),
            ("trigger_kind"@, text_value(trigger_kind)),
            ("event_time_ms"@, i64_value(event_time_ms)),
            ("satisfied_value"@, option_value(satisfied)),
        ],
    )
}

/// Builds the snapshot object.
fn snapshot_json(
    rule_id: &str,
    description: Option<&str>,
    trigger_kind: &str,
    event_time_ms: i64,
    satisfied: Option<serde_json::Value>,
) -> (r: serde_json::Value)
    ensures
        r == snapshot_object(
            rule_id@,
            match description {
                Some(d) => Some(d@),
                None => None,
            },
            trigger_kind@,
            event_time_ms,
            satisfied,
        ),
{
    let d = match description {
        Some(t) => Some(json_text_value(t)),
        None => None,
    };
    let ghost dv = match description {
        Some(t) => Some(t@),
        None => None,
    };
    let members = vec![
        (owned("rule_id"), json_text_value(rule_id)),
        (owned("rule_description"), json_option_value(d)),
        (owned("trigger_kind"), json_text_value(trigger_kind)),
        (owned("event_time_ms"), json_i64_value(event_time_ms)),
        (owned("satisfied_value"), json_option_value(satisfied)),
    ];
    proof {
        assert(d == match dv {
            Some(t) => Some(text_value(t)),
            None => None::<serde_json::Value>,
        });
        assert(members_view(members@) =~= seq![
            ("rule_id"@, text_value(rule_id@)),
            ("rule_description"@, optional_text_value(dv)),
            ("trigger_kind"@, text_value(trigger_kind@)),
            ("event_time_ms"@, i64_value(event_time_ms)),
            ("satisfied_value"@, option_value(satisfied)),
        ]);
    }
    json_object(members)
}

/// The payload `p` is the snapshot's JSON object.
pub open spec fn is_payload_of<F: FloatArith>(arith: &F, s: RuleSnapshot, p: serde_json::Value) -> bool {
    exists|sv: Option<serde_json::Value>|
        {
            &&& p == #[trigger] snapshot_object(
                s.rule_id@,
                string_option_view(s.rule_description),
                s.trigger_kind@,
                s.event_time_ms,
                sv,
            )
            &&& match s.satisfied_value {
                None => sv is None,
                Some(v) => sv matches Some(j) && value_json_matches(arith, v, j),
            }
        }
}

/// The JSON a state value becomes in a snapshot; a number's JSON comes
/// from `arith`.
pub fn state_value_json<F: FloatArith>(v: &StateValue, arith: &F) -> (r: serde_json::Value)
    ensures
        value_json_matches(arith, *v, r),
{
    match v {
        StateValue::Numeric(bits) => arith.number_json(*bits),
        StateValue::Text(t) => json_text_value(t.as_str()),
        StateValue::Boolean(b) => json_bool_value(*b),
        StateValue::Structured(x) => clone_json(x),
    }
}

impl ActionRequest {
    /// The request a match becomes: same rule and action, with the
    /// snapshot as a JSON object payload.
    pub fn from_match<F: FloatArith>(m: RuleMatch, arith: &F) -> (r: ActionRequest)
        ensures
            r.rule_id == m.rule_id,
            r.action == m.action,
            is_payload_of(arith, m.snapshot, r.payload),
    {
        let s = &m.snapshot;
        let description: Option<&str> = match &s.rule_description {
            Some(d) => Some(d.as_str()),
            None => None,
        };
        let satisfied = match &s.satisfied_value {
            Some(v) => Some(state_value_json(v, arith)),
            None => None,
        };
        let ghost sv = satisfied;
        let payload = snapshot_json(s.rule_id.as_str(), description, s.trigger_kind.as_str(), s.event_time_ms, satisfied);
        ActionRequest { rule_id: m.rule_id, action: m.action, payload }
    }
}

/// Event-time of the input (summary window end for aggregated inputs),
/// 0 when there is no time-bearing input.
pub open spec fn input_time(i: EvalInput) -> i64 {
    match i.event {
        Some(e) => e.timestamp,
        None => match i.aggregated {
            Some(s) => s.window_end_ms,
            None => 0,
        },
    }
}

/// The concrete value reported as satisfying the condition: the event
/// value, else the summary mean.
pub open spec fn satisfied_of(i: EvalInput) -> Option<StateValue> {
    match i.event {
        Some(e) => Some(value_of_payload(e.payload)),
        None => match i.aggregated {
            Some(s) => Some(StateValue::Numeric(s.mean)),
            None => None,
        },
    }
}

/// The trigger's kind as reported in snapshots (`source/kind` for state
/// triggers).
pub open spec fn trigger_text(t: Trigger) -> Seq<char> {
    match t {
        Trigger::Event { kind } => kind@,
        Trigger::State { source, kind } => source@ + "/"@ + kind@,
    }
}

/// Whether the trigger matches the input: event triggers match the kind
/// family of a raw event or a summary (case-insensitively); state
/// triggers match when their key currently exists.
pub open spec fn trigger_fires(t: Trigger, i: EvalInput) -> bool {
    match t {
        Trigger::Event { kind } => match i.event {
            Some(e) => in_family(lower(e.kind@), lower(kind@)),
            None => match i.aggregated {
                Some(s) => in_family(lower(s.kind@), lower(kind@)),
                None => false,
            },
        },
        Trigger::State { source, kind } => i.state.stored().contains_key((source@, kind@)),
    }
}

/// The match a fired rule produces on this input.
pub open spec fn is_match_of(m: RuleMatch, r: Rule, i: EvalInput) -> bool {
    &&& m.rule_id == r.id
    &&& m.action == r.action
    &&& m.snapshot.rule_id == r.id
    &&& m.snapshot.rule_description == r.description
    &&& m.snapshot.trigger_kind@ == trigger_text(r.on)
    &&& m.snapshot.event_time_ms == input_time(i)
    &&& m.snapshot.satisfied_value == satisfied_of(i)
}

/// The trigger matches and the condition holds.
pub open spec fn rule_applies(r: Rule, i: EvalInput, count_bits: u64) -> bool {
    trigger_fires(r.on, i) && holds(r.condition, i, count_bits)
}

/// The event-time window index of `ts` under the rule's suppression.
pub open spec fn window_index(r: Rule, ts: i64) -> i64 {
    match r.suppression {
        Some(w) => trunc_div(ts as int, w.window_ms as int) as i64,
        None => 0,
    }
}

/// The rule applies but already fired in this event-time window (`done`
/// holds the windows it has fired in).
pub open spec fn is_suppressed(r: Rule, done: Seq<i64>, i: EvalInput, count_bits: u64) -> bool {
    rule_applies(r, i, count_bits) && r.suppression is Some && done.contains(window_index(r, input_time(i)))
}

/// The rule fires: it applies and is not suppressed.
pub open spec fn fires(r: Rule, done: Seq<i64>, i: EvalInput, count_bits: u64) -> bool {
    rule_applies(r, i, count_bits) && !is_suppressed(r, done, i, count_bits)
}

/// The windows the rule has fired in after this input: a suppressed rule
/// that fires records this input's window.
pub open spec fn next_windows(r: Rule, done: Seq<i64>, i: EvalInput, count_bits: u64) -> Seq<i64> {
    if fires(r, done, i, count_bits) && r.suppression is Some {
        done.push(window_index(r, input_time(i)))
    } else {
        done
    }
}

/// Positions, among the first `n` rules, of the rules that fire, in order.
pub open spec fn fired_positions(rules: Seq<Rule>, done: Seq<Seq<i64>>, i: EvalInput, count_bits: u64, n: nat) -> Seq<int>
    decreases n,
{
    if n == 0 {
        Seq::empty()
    } else {
        let p = fired_positions(rules, done, i, count_bits, (n - 1) as nat);
        if fires(rules[n - 1], done[n - 1], i, count_bits) {
            p.push(n - 1)
        } else {
            p
        }
    }
}

/// The suppression counter after the first `n` rules (saturating).
pub open spec fn suppressions(rules: Seq<Rule>, done: Seq<Seq<i64>>, i: EvalInput, count_bits: u64, n: nat, start: u64) -> u64
    decreases n,
{
    if n == 0 {
        start
    } else {
        let c = suppressions(rules, done, i, count_bits, (n - 1) as nat, start);
        if is_suppressed(rules[n - 1], done[n - 1], i, count_bits) {
            inc(c)
        } else {
            c
        }
    }
}

/// The rule's suppression window, if any, is positive.
pub open spec fn positive_window(r: Rule) -> bool {
    match r.suppression {
        Some(w) => w.window_ms > 0,
        None => true,
    }
}

/// Rule ids strictly increasing.
pub open spec fn sorted_by_id(rules: Seq<Rule>) -> bool {
    forall|a: int, b: int| 0 <= a < b < rules.len() ==> seq_lt(#[trigger] rules[a].id@, #[trigger] rules[b].id@)
}

// ---------------------------------------------------------------------
// The engine
// ---------------------------------------------------------------------

/// The engine: validated rules in id order, plus per rule the event-time
/// windows it has fired in.
#[derive(Debug)]
pub struct RuleEngine {
    rules: Vec<Rule>,
    /// Per rule: the event-time window indices it has fired in.
    fired_windows: Vec<Vec<i64>>,
    /// Count of suppressions applied.
    suppressed: u64,
}

/// One evaluation: what `post` and the returned matches are after `pre`
/// evaluates input `i` (with `count_bits` the binary64 pattern of the
/// summary's count).
pub open spec fn evaluation(pre: RuleEngine, post: RuleEngine, i: EvalInput, count_bits: u64, out: Seq<RuleMatch>) -> bool {
    let rules = pre.rules();
    let done = pre.fired();
    let n = rules.len();
    let fired = fired_positions(rules, done, i, count_bits, n);
    &&& post.rules() == rules
    &&& post.fired().len() == n
    &&& forall|j: int| 0 <= j < n ==> #[trigger] post.fired()[j] == next_windows(rules[j], done[j], i, count_bits)
    &&& post.suppressed_count() == suppressions(rules, done, i, count_bits, n, pre.suppressed_count())
    &&& out.len() == fired.len()
    &&& forall|k: int| 0 <= k < out.len() ==> #[trigger] is_match_of(out[k], rules[fired[k]], i)
}

impl RuleEngine {
    /// The rules, in id order.
    pub closed spec fn rules(&self) -> Seq<Rule> {
        self.rules@
    }

    /// Per rule, the event-time windows it has fired in, in firing order.
    pub closed spec fn fired(&self) -> Seq<Seq<i64>> {
        windows_view(self.fired_windows@)
    }

    /// The suppression counter.
    pub closed spec fn suppressed_count(&self) -> u64 {
        self.suppressed
    }

    /// Rules strictly ordered by id, one suppression slot per rule, and
    /// positive suppression windows.
    pub open spec fn wf(&self) -> bool {
        &&& sorted_by_id(self.rules())
        &&& self.fired().len() == self.rules().len()
        &&& forall|j: int| 0 <= j < self.rules().len() ==> positive_window(#[trigger] self.rules()[j])
    }
}


/// An error in a prefix is the first error of the whole list.
proof fn lemma_first_error_prefix(s: Seq<Rule>, k: int)
    requires
        0 <= k <= s.len(),
        first_rule_error(s.take(k)) is Some,
    ensures
        first_rule_error(s) == first_rule_error(s.take(k)),
    decreases s.len(),
{
    if k == s.len() {
        assert(s.take(k) =~= s);
    } else {
        assert(s.drop_last().take(k) =~= s.take(k));
        lemma_first_error_prefix(s.drop_last(), k);
    }
}

/// The configuration facts a validated rule list has: distinct ids and
/// positive suppression windows.
proof fn lemma_valid_rules(s: Seq<Rule>)
    requires
        first_rule_error(s) is None,
    ensures
        forall|a: int, b: int| 0 <= a < s.len() && 0 <= b < s.len() && a != b ==> #[trigger] s[a].id@ != #[trigger] s[b].id@,
        forall|j: int| 0 <= j < s.len() ==> positive_window(#[trigger] s[j]),
    decreases s.len(),
{
    if s.len() > 0 {
        let t = s.drop_last();
        lemma_valid_rules(t);
        let last = s.len() - 1;
        assert forall|a: int, b: int| 0 <= a < s.len() && 0 <= b < s.len() && a != b implies #[trigger] s[a].id@
            != #[trigger] s[b].id@ by {
            if a < last && b < last {
                assert(s[a] == t[a] && s[b] == t[b]);
            } else if a == last {
                assert(s[b] == t[b]);
                assert(trimmed(t[b].id@) != trimmed(s[a].id@));
            } else {
                assert(s[a] == t[a]);
                assert(trimmed(t[a].id@) != trimmed(s[b].id@));
            }
        }
        assert forall|j: int| 0 <= j < s.len() implies positive_window(#[trigger] s[j]) by {
            if j < last {
                assert(s[j] == t[j]);
            }
        }
    }
}

/// A rule with empty contents, left behind when a rule is moved out.
fn vacated_rule() -> (r: Rule)
    ensures
        r.id@.len() == 0,
        r.description is None,
        r.on matches Trigger::Event { kind } && kind@.len() == 0,
        r.condition matches Condition::All(children) && children@.len() == 0,
        r.action@.len() == 0,
        r.suppression is None,
{
    Rule {
        id: String::new(),
        description: None,
        on: Trigger::Event { kind: String::new() },
        condition: Condition::All(Vec::new()),
        action: String::new(),
        suppression: None,
    }
}

/// The position at which `id` keeps `sorted` ordered: after every id
/// smaller than it, before every other.
fn insertion_point(sorted: &Vec<Rule>, id: &str) -> (pos: usize)
    requires
        sorted_by_id(sorted@),
    ensures
        pos <= sorted@.len(),
        forall|j: int| 0 <= j < pos ==> seq_lt(#[trigger] sorted@[j].id@, id@),
        forall|j: int| pos <= j < sorted@.len() ==> !seq_lt(#[trigger] sorted@[j].id@, id@),
{
    let target = chars_of(id);
    let mut j: usize = 0;
    while j < sorted.len()
        invariant
            sorted_by_id(sorted@),
            target@ == id@,
            j <= sorted@.len(),
            forall|k: int| 0 <= k < j ==> seq_lt(#[trigger] sorted@[k].id@, id@),
        decreases sorted@.len() - j,
    {
        let cur = chars_of(sorted[j].id.as_str());
        match compare_chars(&cur, &target) {
            Rank::Less => {},
            _ => {
                proof {
                    assert forall|k: int| j <= k < sorted@.len() implies !seq_lt(#[trigger] sorted@[k].id@, id@) by {
                        if k > j {
                            assert(seq_lt(sorted@[j as int].id@, sorted@[k].id@));
                            if seq_lt(sorted@[k].id@, id@) {
                                lemma_seq_lt_transitive(sorted@[j as int].id@, sorted@[k].id@, id@);
                                if cur@ == id@ {
                                    lemma_seq_lt_irreflexive(id@);
                                } else {
                                    lemma_seq_lt_asymmetric(id@, cur@);
                                }
                            }
                        } else {
                            if cur@ == id@ {
                                lemma_seq_lt_irreflexive(id@);
                            } else {
                                lemma_seq_lt_asymmetric(id@, cur@);
                            }
                        }
                    }
                }
                return j;
            },
        }
        j += 1;
    }
    j
}

/// Inserting at the position that keeps the order, with an id distinct
/// from every other, keeps the list strictly ordered.
proof fn lemma_insert_rule_sorted(sorted: Seq<Rule>, pos: int, r: Rule)
    requires
        sorted_by_id(sorted),
        0 <= pos <= sorted.len(),
        forall|j: int| 0 <= j < pos ==> seq_lt(#[trigger] sorted[j].id@, r.id@),
        forall|j: int| pos <= j < sorted.len() ==> !seq_lt(#[trigger] sorted[j].id@, r.id@),
        forall|j: int| 0 <= j < sorted.len() ==> (#[trigger] sorted[j]).id@ != r.id@,
    ensures
        sorted_by_id(sorted.insert(pos, r)),
{
    let t = sorted.insert(pos, r);
    assert forall|j: int| pos <= j < sorted.len() implies seq_lt(r.id@, #[trigger] sorted[j].id@) by {
        lemma_seq_lt_total(r.id@, sorted[j].id@);
    }
    assert forall|a: int, b: int| 0 <= a < b < t.len() implies seq_lt(#[trigger] t[a].id@, #[trigger] t[b].id@) by {
        if b < pos {
            assert(t[a] == sorted[a] && t[b] == sorted[b]);
        } else if b == pos {
            assert(t[a] == sorted[a]);
        } else if a == pos {
            assert(t[b] == sorted[b - 1]);
        } else if a < pos {
            assert(t[a] == sorted[a] && t[b] == sorted[b - 1]);
            lemma_seq_lt_transitive(sorted[a].id@, r.id@, sorted[b - 1].id@);
        } else {
            assert(t[a] == sorted[a - 1] && t[b] == sorted[b - 1]);
        }
    }
}

/// Event-time of the input (summary window end for aggregated inputs),
/// 0 when there is no time-bearing input.
fn input_ts(input: &EvalInput) -> (r: i64)
    ensures
        r == input_time(*input),
{
    match input.event {
        Some(event) => event.timestamp,
        None => match input.aggregated {
            Some(summary) => summary.window_end_ms,
            None => 0,
        },
    }
}

/// The trigger's kind as snapshots report it.
fn trigger_kind(rule: &Rule) -> (r: String)
    ensures
        r@ == trigger_text(rule.on),
{
    match &rule.on {
        Trigger::Event { kind } => kind.clone(),
        Trigger::State { source, kind } => concat3(source.as_str(), "/", kind.as_str()),
    }
}

/// The value that satisfied the condition, for the action snapshot: the
/// event value, then the aggregation mean.
fn satisfied_value(input: &EvalInput) -> (r: Option<StateValue>)
    ensures
        r == satisfied_of(*input),
{
    match input.event {
        Some(event) => Some(StateValue::from_payload(&event.payload)),
        None => match input.aggregated {
            Some(summary) => Some(StateValue::Numeric(summary.mean)),
            None => None,
        },
    }
}

/// The match a fired rule produces.
fn make_match(rule: &Rule, input: &EvalInput) -> (m: RuleMatch)
    ensures
        is_match_of(m, *rule, *input),
{
    let description = match &rule.description {
        Some(d) => Some(d.clone()),
        None => None,
    };
    RuleMatch {
        rule_id: rule.id.clone(),
        action: rule.action.clone(),
        snapshot: RuleSnapshot {
            rule_id: rule.id.clone(),
            rule_description: description,
            trigger_kind: trigger_kind(rule),
            event_time_ms: input_ts(input),
            satisfied_value: satisfied_value(input),
        },
    }
}

/// Whether the rule's trigger matches the input.
fn trigger_matches(rule: &Rule, input: &EvalInput) -> (r: bool)
    requires
        input.state.wf(),
    ensures
        r == trigger_fires(rule.on, *input),
{
    match &rule.on {
        Trigger::Event { kind } => match input.event {
            Some(event) => {
                let k = to_lowercase(event.kind.as_str());
                let f = to_lowercase(kind.as_str());
                kind_matches_family(k.as_str(), f.as_str())
            },
            None => match input.aggregated {
                Some(summary) => {
                    let k = to_lowercase(summary.kind.as_str());
                    let f = to_lowercase(kind.as_str());
                    kind_matches_family(k.as_str(), f.as_str())
                },
                None => false,
            },
        },
        Trigger::State { source, kind } => {
            let key = StateKey::new(source.as_str(), kind.as_str());
            input.state.get(&key).is_some()
        },
    }
}

impl RuleEngine {
    /// Validates the rule set and constructs the engine.
    ///
    /// Rules are checked in order and the first error is returned. The
    /// engine keeps them sorted by id, so evaluation is deterministic
    /// regardless of definition order.
    pub fn new(rules: Vec<Rule>) -> (r: Result<Self, RuleConfigError>)
        ensures
            match r {
                Ok(e) => {
                    &&& first_rule_error(rules@) is None
                    &&& e.wf()
                    &&& e.rules().to_multiset() == rules@.to_multiset()
                    &&& forall|j: int| 0 <= j < e.fired().len() ==> #[trigger] e.fired()[j].len() == 0
                    &&& e.suppressed_count() == 0
                },
                Err(err) => first_rule_error(rules@) == Some(err@),
            },
    {
        let mut seen: Vec<String> = Vec::new();
        let mut i: usize = 0;
        while i < rules.len()
            invariant
                i <= rules@.len(),
                seen@.len() == i,
                forall|k: int| 0 <= k < i ==> (#[trigger] seen@[k])@ == trimmed(rules@[k].id@),
                first_rule_error(rules@.take(i as int)) is None,
            decreases rules@.len() - i,
        {
            let rule = &rules[i];
            let ghost earlier = rules@.take(i as int);
            proof {
                let t = rules@.take(i + 1);
                assert(t.drop_last() =~= earlier);
                assert(t.last() == rules@[i as int]);
                lemma_blank_iff_trimmed_empty(rule.id@);
                lemma_blank_iff_trimmed_empty(rule.action@);
                if first_rule_error(t) is Some {
                    lemma_first_error_prefix(rules@, i + 1);
                }
            }
            if str_blank(rule.id.as_str()) {
                return Err(RuleConfigError::EmptyRuleId);
            }
            let id = str_trim(rule.id.as_str());
            let mut k: usize = 0;
            while k < seen.len()
                invariant
                    i <= rules@.len(),
                    k <= seen@.len(),
                    seen@.len() == i,
                    i < rules@.len(),
                    earlier == rules@.take(i as int),
                    first_rule_error(earlier) is None,
                    id@ == trimmed(rules@[i as int].id@),
                    id@.len() > 0,
                    forall|q: int| 0 <= q < i ==> (#[trigger] seen@[q])@ == trimmed(rules@[q].id@),
                    forall|q: int| 0 <= q < k ==> trimmed(#[trigger] earlier[q].id@) != id@,
                decreases seen@.len() - k,
            {
                if str_equal(seen[k].as_str(), id.as_str()) {
                    proof {
                        assert(earlier[k as int] == rules@[k as int]);
                        assert(trimmed(earlier[k as int].id@) == id@);
                        let t = rules@.take(i + 1);
                        assert(t.drop_last() =~= earlier);
                        assert(t.last() == rules@[i as int]);
                        assert(rule_error(rules@[i as int], earlier) == Some(RuleErrorView::DuplicateRuleId(id@)));
                        lemma_first_error_prefix(rules@, i + 1);
                    }
                    return Err(RuleConfigError::DuplicateRuleId(id));
                }
                proof {
                    assert(earlier[k as int] == rules@[k as int]);
                }
                k += 1;
            }
            if str_blank(rule.action.as_str()) {
                return Err(RuleConfigError::EmptyActionId);
            }
            if !validate_condition(&rule.condition) {
                return Err(RuleConfigError::EmptyConditionList(rule.id.clone()));
            }
            match &rule.suppression {
                Some(w) => {
                    if w.window_ms <= 0 {
                        return Err(RuleConfigError::InvalidSuppressionWindow { rule_id: id, window_ms: w.window_ms });
                    }
                },
                None => {},
            }
            seen.push(id);
            i += 1;
        }
        let ghost orig = rules@;
        proof {
            assert(orig.take(orig.len() as int) =~= orig);
            lemma_valid_rules(orig);
        }
        let mut rules = rules;
        let n = rules.len();
        let mut sorted: Vec<Rule> = Vec::new();
        let mut i: usize = 0;
        proof {
            assert(orig.take(0) =~= Seq::<Rule>::empty());
            assert(sorted@ =~= Seq::<Rule>::empty());
        }
        while i < n
            invariant
                n == orig.len(),
                i <= n,
                rules@.len() == n,
                forall|j: int| i <= j < n ==> #[trigger] rules@[j] == orig[j],
                forall|a: int, b: int| 0 <= a < n && 0 <= b < n && a != b ==> #[trigger] orig[a].id@ != #[trigger] orig[b].id@,
                forall|j: int| 0 <= j < n ==> positive_window(#[trigger] orig[j]),
                sorted_by_id(sorted@),
                sorted@.to_multiset() == orig.take(i as int).to_multiset(),
                forall|j: int| 0 <= j < sorted@.len() ==> positive_window(#[trigger] sorted@[j]),
            decreases n - i,
        {
            broadcast use vstd::seq_lib::to_multiset_contains, vstd::seq_lib::to_multiset_insert, vstd::seq_lib::to_multiset_build;

            let mut rule = vacated_rule();
            rules.set_and_swap(i, &mut rule);
            let ghost prefix = orig.take(i as int);
            proof {
                assert(rule == orig[i as int]);
                assert forall|j: int| 0 <= j < sorted@.len() implies (#[trigger] sorted@[j]).id@ != rule.id@ by {
                    assert(sorted@.contains(sorted@[j]));
                    assert(sorted@.to_multiset().count(sorted@[j]) > 0);
                    assert(prefix.contains(sorted@[j]));
                    let k = choose|k: int| 0 <= k < prefix.len() && prefix[k] == sorted@[j];
                    assert(prefix[k] == orig[k]);
                }
            }
            let pos = insertion_point(&sorted, rule.id.as_str());
            proof {
                lemma_insert_rule_sorted(sorted@, pos as int, rule);
                assert(orig.take(i + 1) =~= prefix.push(rule));
            }
            sorted.insert(pos, rule);
            proof {
                assert forall|j: int| 0 <= j < sorted@.len() implies positive_window(#[trigger] sorted@[j]) by {
                    if j != pos {
                        let old_j = if j < pos { j } else { j - 1 };
                        assert(sorted@[j] == sorted@.remove(pos as int)[old_j]);
                    }
                }
            }
            i += 1;
        }
        let mut slots: Vec<Vec<i64>> = Vec::new();
        let mut k: usize = 0;
        while k < n
            invariant
                k <= n,
                slots@.len() == k,
                forall|j: int| 0 <= j < k ==> (#[trigger] slots@[j])@.len() == 0,
            decreases n - k,
        {
            slots.push(Vec::new());
            k += 1;
        }
        proof {
            assert(orig.take(n as int) =~= orig);
            vstd::seq_lib::to_multiset_len(sorted@);
            vstd::seq_lib::to_multiset_len(orig);
        }
        Ok(RuleEngine { rules: sorted, fired_windows: slots, suppressed: 0 })
    }

    /// Evaluates every rule against the input, with `count_bits` the
    /// binary64 pattern of the summary's count, and returns the matches
    /// of fired rules, ordered by rule id.
    ///
    /// A rule fires when its trigger matches, its condition holds, and
    /// (with suppression) its event-time window has not already fired.
    pub fn evaluate_resolved(&mut self, input: &EvalInput, count_bits: u64) -> (r: Vec<RuleMatch>)
        requires
            old(self).wf(),
            input.state.wf(),
        ensures
            final(self).wf(),
            evaluation(*old(self), *final(self), *input, count_bits, r@),
    {
        let ghost pre = *self;
        let ghost rules = pre.rules();
        let ghost done = pre.fired();
        let ts = input_ts(input);
        let n = self.rules.len();
        let mut out: Vec<RuleMatch> = Vec::new();
        let mut j: usize = 0;
        while j < n
            invariant
                pre.wf(),
                rules == pre.rules(),
                done == pre.fired(),
                input.state.wf(),
                ts == input_time(*input),
                n == rules.len(),
                j <= n,
                self.rules@ == rules,
                self.fired_windows@.len() == n,
                forall|k: int| 0 <= k < j ==> (#[trigger] self.fired_windows@[k])@ == next_windows(rules[k], done[k], *input, count_bits),
                forall|k: int| j <= k < n ==> (#[trigger] self.fired_windows@[k])@ == done[k],
                self.suppressed == suppressions(rules, done, *input, count_bits, j as nat, pre.suppressed_count()),
                out@.len() == fired_positions(rules, done, *input, count_bits, j as nat).len(),
                forall|k: int| 0 <= k < out@.len() ==> #[trigger] is_match_of(
                    out@[k],
                    rules[fired_positions(rules, done, *input, count_bits, j as nat)[k]],
                    *input,
                ),
            decreases n - j,
        {
            let ghost before = out@;
            let rule = &self.rules[j];
            proof {
                assert(pre.rules()[j as int] == rules[j as int]);
                assert(positive_window(pre.rules()[j as int]));
            }
            let applies = trigger_matches(rule, input) && condition_value(&rule.condition, input, count_bits);
            let ghost fp = fired_positions(rules, done, *input, count_bits, j as nat);
            if applies {
                let mut suppressed_now = false;
                match &rule.suppression {
                    Some(w) => {
                        let index = ts / w.window_ms;
                        if contains_window(&self.fired_windows[j], index) {
                            suppressed_now = true;
                        } else {
                            let mut windows: Vec<i64> = Vec::new();
                            self.fired_windows.set_and_swap(j, &mut windows);
                            windows.push(index);
                            self.fired_windows.set_and_swap(j, &mut windows);
                        }
                    },
                    None => {},
                }
                if suppressed_now {
                    self.suppressed = bump(self.suppressed);
                } else {
                    let m = make_match(rule, input);
                    out.push(m);
                    proof {
                        assert(fired_positions(rules, done, *input, count_bits, (j + 1) as nat) == fp.push(j as int));
                        assert forall|k: int| 0 <= k < out@.len() implies #[trigger] is_match_of(
                            out@[k],
                            rules[fired_positions(rules, done, *input, count_bits, (j + 1) as nat)[k]],
                            *input,
                        ) by {
                            if k < before.len() {
                                assert(out@[k] == before[k]);
                            }
                        }
                    }
                }
            }
            j += 1;
        }
        out
    }

    /// Evaluates every rule against the input and returns the matches of
    /// fired rules, ordered by rule id. The binary64 pattern of a
    /// summary's count (for `Stat::Count` conditions) comes from `arith`.
    pub fn evaluate<F: FloatArith>(&mut self, input: &EvalInput, arith: &F) -> (r: Vec<RuleMatch>)
        requires
            old(self).wf(),
            input.state.wf(),
        ensures
            final(self).wf(),
            input.aggregated is None ==> evaluation(*old(self), *final(self), *input, 0, r@),
            exists|count_bits: u64| evaluation(*old(self), *final(self), *input, count_bits, r@),
            input.aggregated matches Some(summary) ==> exists|count_bits: u64|
                {
                    &&& #[trigger] call_ensures(F::from_count, (arith, summary.count), count_bits)
                    &&& evaluation(*old(self), *final(self), *input, count_bits, r@)
                },
    {
        let count_bits = match input.aggregated {
            Some(summary) => arith.from_count(summary.count),
            None => 0,
        };
        self.evaluate_resolved(input, count_bits)
    }

    /// Number of firings suppressed by once-per-window policies.
    pub fn suppressed(&self) -> (r: u64)
        ensures
            r == self.suppressed_count(),
    {
        self.suppressed
    }

    /// Number of rules.
    pub fn len(&self) -> (r: usize)
        ensures
            r == self.rules().len(),
    {
        self.rules.len()
    }
}


/// The fired positions are increasing positions of rules that fire.
pub proof fn lemma_fired_positions(rules: Seq<Rule>, done: Seq<Seq<i64>>, i: EvalInput, count_bits: u64, n: nat)
    requires
        n <= rules.len(),
        n <= done.len(),
    ensures
        ({
            let p = fired_positions(rules, done, i, count_bits, n);
            &&& forall|k: int| 0 <= k < p.len() ==> 0 <= #[trigger] p[k] < n && fires(rules[p[k]], done[p[k]], i, count_bits)
            &&& forall|a: int, b: int| 0 <= a < b < p.len() ==> #[trigger] p[a] < #[trigger] p[b]
        }),
    decreases n,
{
    if n > 0 {
        let q = fired_positions(rules, done, i, count_bits, (n - 1) as nat);
        lemma_fired_positions(rules, done, i, count_bits, (n - 1) as nat);
        let p = fired_positions(rules, done, i, count_bits, n);
        if fires(rules[n - 1], done[n - 1], i, count_bits) {
            assert(p == q.push(n - 1));
            assert forall|k: int| 0 <= k < p.len() implies 0 <= #[trigger] p[k] < n && fires(rules[p[k]], done[p[k]], i, count_bits) by {
                if k < q.len() {
                    assert(p[k] == q[k]);
                }
            }
            assert forall|a: int, b: int| 0 <= a < b < p.len() implies #[trigger] p[a] < #[trigger] p[b] by {
                assert(p[a] == q[a]);
                if b < q.len() {
                    assert(p[b] == q[b]);
                }
            }
        }
    }
}

/// Law (deterministic order): the matches of one evaluation come out in
/// strictly increasing rule-id order, whatever order the rules were
/// defined in.
pub proof fn law_matches_in_id_order(pre: RuleEngine, post: RuleEngine, i: EvalInput, count_bits: u64, out: Seq<RuleMatch>)
    requires
        pre.wf(),
        evaluation(pre, post, i, count_bits, out),
    ensures
        forall|a: int, b: int| 0 <= a < b < out.len() ==> seq_lt(#[trigger] out[a].rule_id@, #[trigger] out[b].rule_id@),
{
    let rules = pre.rules();
    let p = fired_positions(rules, pre.fired(), i, count_bits, rules.len());
    lemma_fired_positions(rules, pre.fired(), i, count_bits, rules.len());
    assert forall|a: int, b: int| 0 <= a < b < out.len() implies seq_lt(#[trigger] out[a].rule_id@, #[trigger] out[b].rule_id@) by {
        assert(is_match_of(out[a], rules[p[a]], i));
        assert(is_match_of(out[b], rules[p[b]], i));
        assert(p[a] < p[b]);
    }
}

/// Law (once per window): a rule with a suppression policy never forgets
/// a window it fired in, records the window of every input it fires on,
/// and does not fire on an input of a window it has fired in. Over any
/// sequence of evaluations it fires at most once per event-time window.
pub proof fn law_once_per_window(
    pre: RuleEngine,
    post: RuleEngine,
    i: EvalInput,
    count_bits: u64,
    out: Seq<RuleMatch>,
    j: int,
)
    requires
        pre.wf(),
        evaluation(pre, post, i, count_bits, out),
        0 <= j < pre.rules().len(),
        pre.rules()[j].suppression is Some,
    ensures
        forall|w: i64| pre.fired()[j].contains(w) ==> post.fired()[j].contains(w),
        pre.fired()[j].contains(window_index(pre.rules()[j], input_time(i))) ==> forall|k: int|
            0 <= k < out.len() ==> #[trigger] out[k].rule_id@ != pre.rules()[j].id@,
        (exists|k: int| 0 <= k < out.len() && #[trigger] out[k].rule_id@ == pre.rules()[j].id@) ==> post.fired()[j].contains(
            window_index(pre.rules()[j], input_time(i)),
        ),
{
    let rules = pre.rules();
    let done = pre.fired();
    let w0 = window_index(rules[j], input_time(i));
    assert(post.fired()[j] == next_windows(rules[j], done[j], i, count_bits));
    assert forall|w: i64| done[j].contains(w) implies post.fired()[j].contains(w) by {
        if fires(rules[j], done[j], i, count_bits) {
            let x = choose|x: int| 0 <= x < done[j].len() && done[j][x] == w;
            assert(post.fired()[j][x] == w);
        }
    }
    let p = fired_positions(rules, done, i, count_bits, rules.len());
    lemma_fired_positions(rules, done, i, count_bits, rules.len());
    assert forall|k: int| 0 <= k < out.len() && #[trigger] out[k].rule_id@ == rules[j].id@ implies p[k] == j
        && fires(rules[j], done[j], i, count_bits) by {
        assert(is_match_of(out[k], rules[p[k]], i));
        if p[k] < j {
            assert(seq_lt(rules[p[k]].id@, rules[j].id@));
            lemma_seq_lt_irreflexive(rules[j].id@);
        } else if p[k] > j {
            assert(seq_lt(rules[j].id@, rules[p[k]].id@));
            lemma_seq_lt_irreflexive(rules[j].id@);
        }
    }
    if exists|k: int| 0 <= k < out.len() && #[trigger] out[k].rule_id@ == rules[j].id@ {
        let k = choose|k: int| 0 <= k < out.len() && #[trigger] out[k].rule_id@ == rules[j].id@;
        assert(p[k] == j);
        assert(post.fired()[j] == done[j].push(w0));
        assert(post.fired()[j][done[j].len() as int] == w0);
    }
}

/// Per rule, the windows it has fired in.
pub open spec fn windows_view(s: Seq<Vec<i64>>) -> Seq<Seq<i64>> {
    s.map_values(|v: Vec<i64>| v@)
}

/// Whether `index` is among the recorded windows.
fn contains_window(windows: &Vec<i64>, index: i64) -> (r: bool)
    ensures
        r == windows@.contains(index),
{
    let mut k: usize = 0;
    while k < windows.len()
        invariant
            k <= windows@.len(),
            forall|x: int| 0 <= x < k ==> windows@[x] != index,
        decreases windows@.len() - k,
    {
        if windows[k] == index {
            return true;
        }
        k += 1;
    }
    false
}

/// Law (numeric order): against a number, `>=` holds exactly when `>`
/// or `==` holds, `<=` exactly when `<` or `==` holds, `!=` exactly when
/// `==` does not, and `a < b` exactly when `b > a`; `>` and `==` never
/// hold together.
pub proof fn law_numeric_operators(a: u64, b: u64)
    ensures
        satisfies(StateValue::Numeric(a), Operator::Gte, Literal::Numeric(b)) == (satisfies(
            StateValue::Numeric(a),
            Operator::Gt,
            Literal::Numeric(b),
        ) || satisfies(StateValue::Numeric(a), Operator::Eq, Literal::Numeric(b))),
        satisfies(StateValue::Numeric(a), Operator::Lte, Literal::Numeric(b)) == (satisfies(
            StateValue::Numeric(a),
            Operator::Lt,
            Literal::Numeric(b),
        ) || satisfies(StateValue::Numeric(a), Operator::Eq, Literal::Numeric(b))),
        satisfies(StateValue::Numeric(a), Operator::Ne, Literal::Numeric(b)) == !satisfies(
            StateValue::Numeric(a),
            Operator::Eq,
            Literal::Numeric(b),
        ),
        satisfies(StateValue::Numeric(a), Operator::Lt, Literal::Numeric(b)) == satisfies(
            StateValue::Numeric(b),
            Operator::Gt,
            Literal::Numeric(a),
        ),
        !(satisfies(StateValue::Numeric(a), Operator::Gt, Literal::Numeric(b)) && satisfies(
            StateValue::Numeric(a),
            Operator::Eq,
            Literal::Numeric(b),
        )),
{
}

/// Law (numeric comparisons in conditions): for any field and a numeric
/// literal, a `>=` comparison holds on an input exactly when the `>` or
/// the `==` comparison of the same field does, and `<=` exactly when `<`
/// or `==` does.
pub proof fn law_ordered_comparisons(f: Field, b: u64, i: EvalInput, count_bits: u64)
    ensures
        holds(Condition::Comparison { field: f, op: Operator::Gte, value: Literal::Numeric(b) }, i, count_bits) == (holds(
            Condition::Comparison { field: f, op: Operator::Gt, value: Literal::Numeric(b) },
            i,
            count_bits,
        ) || holds(Condition::Comparison { field: f, op: Operator::Eq, value: Literal::Numeric(b) }, i, count_bits)),
        holds(Condition::Comparison { field: f, op: Operator::Lte, value: Literal::Numeric(b) }, i, count_bits) == (holds(
            Condition::Comparison { field: f, op: Operator::Lt, value: Literal::Numeric(b) },
            i,
            count_bits,
        ) || holds(Condition::Comparison { field: f, op: Operator::Eq, value: Literal::Numeric(b) }, i, count_bits)),
{
    match field_reading(f, i, count_bits) {
        Some(StateValue::Numeric(a)) => law_numeric_operators(a, b),
        _ => {},
    }
}

/// Law (summary statistics): on a window summary input, a comparison of
/// an aggregation field compares that statistic of the summary: `min`
/// its smallest value, `max` its largest, `mean`, `sum` and `last` the
/// same-named fields, and `count` the pattern of the count.
pub proof fn law_aggregation_reads_summary(i: EvalInput, count_bits: u64, op: Operator, value: Literal)
    requires
        i.aggregated is Some,
    ensures
        ({
            let s = *i.aggregated->0;
            &&& holds(Condition::Comparison { field: Field::Aggregation { stat: Stat::Min }, op, value }, i, count_bits)
                == satisfies(StateValue::Numeric(s.min), op, value)
            &&& holds(Condition::Comparison { field: Field::Aggregation { stat: Stat::Max }, op, value }, i, count_bits)
                == satisfies(StateValue::Numeric(s.max), op, value)
            &&& holds(Condition::Comparison { field: Field::Aggregation { stat: Stat::Mean }, op, value }, i, count_bits)
                == satisfies(StateValue::Numeric(s.mean), op, value)
            &&& holds(Condition::Comparison { field: Field::Aggregation { stat: Stat::Sum }, op, value }, i, count_bits)
                == satisfies(StateValue::Numeric(s.sum), op, value)
            &&& holds(Condition::Comparison { field: Field::Aggregation { stat: Stat::Last }, op, value }, i, count_bits)
                == satisfies(StateValue::Numeric(s.last), op, value)
            &&& holds(Condition::Comparison { field: Field::Aggregation { stat: Stat::Count }, op, value }, i, count_bits)
                == satisfies(StateValue::Numeric(count_bits), op, value)
        }),
{
}

/// Law (the satisfying number is carried as is): the payload of a request
/// made from a match whose satisfying value is the number with pattern
/// `b` is the snapshot object whose `satisfied_value` is the JSON of `b`
/// itself, as `arith.number_json` gives it.
pub proof fn law_satisfied_number_kept<F: FloatArith>(arith: &F, s: RuleSnapshot, p: serde_json::Value, b: u64)
    requires
        is_payload_of(arith, s, p),
        s.satisfied_value == Some(StateValue::Numeric(b)),
    ensures
        exists|j: serde_json::Value|
            {
                &&& #[trigger] call_ensures(F::number_json, (arith, b), j)
                &&& p == snapshot_object(
                    s.rule_id@,
                    string_option_view(s.rule_description),
                    s.trigger_kind@,
                    s.event_time_ms,
                    Some(j),
                )
            },
{
    let sv = choose|sv: Option<serde_json::Value>|
        {
            &&& p == #[trigger] snapshot_object(
                s.rule_id@,
                string_option_view(s.rule_description),
                s.trigger_kind@,
                s.event_time_ms,
                sv,
            )
            &&& match s.satisfied_value {
                None => sv is None,
                Some(v) => sv matches Some(j) && value_json_matches(arith, v, j),
            }
        };
    assert(call_ensures(F::number_json, (arith, b), sv->0));
}

} // verus!
