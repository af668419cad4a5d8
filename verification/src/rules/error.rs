//! Rule engine configuration errors.
//!
//! Evaluation is total by design: comparisons against missing state or
//! type-mismatched values are `false`, never errors, so there is no
//! runtime rule error. Only configuration can be invalid.

use vstd::prelude::*;

use crate::text::{concat2, concat3, decimal_i64, i64_to_string, owned};

verus! {

/// Errors produced when constructing a [`RuleEngine`](crate::rules::RuleEngine)
/// from rule definitions, one variant per validation rule.
#[derive(Debug, Clone, PartialEq)]
pub enum RuleConfigError {
    /// A rule id was empty or whitespace-only.
    EmptyRuleId,
    /// Two rules shared the same id.
    DuplicateRuleId(String),
    /// An action id was empty or whitespace-only.
    EmptyActionId,
    /// `All` or `Any` was constructed with an empty condition list,
    /// rejected so a malformed config cannot silently always-fire.
    EmptyConditionList(String),
    /// A suppression window must be greater than zero.
    InvalidSuppressionWindow { rule_id: String, window_ms: i64 },
    /// A comparison literal must be scalar (Numeric, Text, or Boolean).
    NonScalarLiteral { rule_id: String },
}

/// A configuration error with its texts as character sequences.
pub ghost enum RuleErrorView {
    EmptyRuleId,
    DuplicateRuleId(Seq<char>),
    EmptyActionId,
    EmptyConditionList(Seq<char>),
    InvalidSuppressionWindow(Seq<char>, i64),
    NonScalarLiteral(Seq<char>),
}

impl View for RuleConfigError {
    type V = RuleErrorView;

    open spec fn view(&self) -> RuleErrorView {
        match self {
            RuleConfigError::EmptyRuleId => RuleErrorView::EmptyRuleId,
            RuleConfigError::DuplicateRuleId(id) => RuleErrorView::DuplicateRuleId(id@),
            RuleConfigError::EmptyActionId => RuleErrorView::EmptyActionId,
            RuleConfigError::EmptyConditionList(id) => RuleErrorView::EmptyConditionList(id@),
            RuleConfigError::InvalidSuppressionWindow { rule_id, window_ms } => RuleErrorView::InvalidSuppressionWindow(
                rule_id@,
                *window_ms,
            ),
            RuleConfigError::NonScalarLiteral { rule_id } => RuleErrorView::NonScalarLiteral(rule_id@),
        }
    }
}

/// The human-readable message of a configuration error.
pub open spec fn rule_error_text(e: RuleErrorView) -> Seq<char> {
    match e {
        RuleErrorView::EmptyRuleId => "rule id must be a non-empty string"@,
        RuleErrorView::DuplicateRuleId(id) => "duplicate rule id: "@ + id,
        RuleErrorView::EmptyActionId => "rule action id must be a non-empty string"@,
        RuleErrorView::EmptyConditionList(id) => "rule "@ + id
            + ": All/Any requires at least one condition; an empty list would always fire"@,
        RuleErrorView::InvalidSuppressionWindow(id, w) => "rule "@ + id + ": suppression window_ms must be greater than 0, got "@
            + decimal_i64(w),
        RuleErrorView::NonScalarLiteral(id) => "rule "@ + id
            + ": comparison values must be Numeric, Text, or Boolean \u{2014} structured values are not comparable"@,
    }
}

impl RuleConfigError {
    /// The human-readable message (what `Display` renders).
    pub fn message(&self) -> (r: String)
        ensures
            r@ == rule_error_text(self@),
    {
        match self {
            RuleConfigError::EmptyRuleId => owned("rule id must be a non-empty string"),
            RuleConfigError::DuplicateRuleId(id) => concat2("duplicate rule id: ", id.as_str()),
            RuleConfigError::EmptyActionId => owned("rule action id must be a non-empty string"),
            RuleConfigError::EmptyConditionList(id) => concat3(
                "rule ",
                id.as_str(),
                ": All/Any requires at least one condition; an empty list would always fire",
            ),
            RuleConfigError::InvalidSuppressionWindow { rule_id, window_ms } => {
                let head = concat3("rule ", rule_id.as_str(), ": suppression window_ms must be greater than 0, got ");
                let n = i64_to_string(*window_ms);
                concat2(head.as_str(), n.as_str())
            },
            RuleConfigError::NonScalarLiteral { rule_id } => concat3(
                "rule ",
                rule_id.as_str(),
                ": comparison values must be Numeric, Text, or Boolean \u{2014} structured values are not comparable",
            ),
        }
    }
}

} // verus!
