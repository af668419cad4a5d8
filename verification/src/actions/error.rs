//! Action errors.

use vstd::prelude::*;

use crate::text::{concat2, concat3, debug_quoted, debug_string};

verus! {

/// Why an action execution failed. Never a panic, never propagated: the
/// dispatcher collects these as outcomes.
#[derive(Debug, PartialEq)]
pub enum ActionError {
    /// The request named an action id that is not configured.
    UnknownAction(String),
    /// The action executed but failed (e.g. a webhook receiver returned
    /// an error status).
    ExecutionFailed { action_id: String, reason: String },
}

impl Clone for ActionError {
    fn clone(&self) -> (r: Self)
        ensures
            r == *self,
    {
        match self {
            ActionError::UnknownAction(id) => ActionError::UnknownAction(id.clone()),
            ActionError::ExecutionFailed { action_id, reason } => ActionError::ExecutionFailed {
                action_id: action_id.clone(),
                reason: reason.clone(),
            },
        }
    }
}

/// The human-readable message of an action error.
pub open spec fn action_error_text(e: ActionError) -> Seq<char> {
    match e {
        ActionError::UnknownAction(id) => "unknown action id: "@ + id@,
        ActionError::ExecutionFailed { action_id, reason } => "action "@ + action_id@ + " failed: "@ + reason@,
    }
}

impl ActionError {
    /// The human-readable message (what `Display` renders).
    pub fn message(&self) -> (r: String)
        ensures
            r@ == action_error_text(*self),
    {
        match self {
            ActionError::UnknownAction(id) => concat2("unknown action id: ", id.as_str()),
            ActionError::ExecutionFailed { action_id, reason } => {
                let head = concat3("action ", action_id.as_str(), " failed: ");
                concat2(head.as_str(), reason.as_str())
            },
        }
    }
}

/// Action definition errors, configuration-time only.
#[derive(Debug, Clone, PartialEq)]
pub enum ActionConfigError {
    /// An action id was empty or whitespace-only.
    EmptyActionId(String),
    /// Two action definitions shared the same id.
    DuplicateActionId(String),
    /// A webhook action's configuration was invalid (URL, timeout,
    /// headers).
    InvalidWebhook {
        /// What was wrong, with the offending value where actionable.
        reason: String,
    },
}

/// An action configuration error with its texts as character sequences.
pub ghost enum ActionConfigErrorView {
    EmptyActionId(Seq<char>),
    DuplicateActionId(Seq<char>),
    InvalidWebhook(Seq<char>),
}

impl View for ActionConfigError {
    type V = ActionConfigErrorView;

    open spec fn view(&self) -> ActionConfigErrorView {
        match self {
            ActionConfigError::EmptyActionId(id) => ActionConfigErrorView::EmptyActionId(id@),
            ActionConfigError::DuplicateActionId(id) => ActionConfigErrorView::DuplicateActionId(id@),
            ActionConfigError::InvalidWebhook { reason } => ActionConfigErrorView::InvalidWebhook(reason@),
        }
    }
}

/// The human-readable message of an action configuration error.
pub open spec fn action_config_error_text(e: ActionConfigErrorView) -> Seq<char> {
    match e {
        ActionConfigErrorView::EmptyActionId(id) => "action id must be a non-empty string, got "@ + debug_quoted(id),
        ActionConfigErrorView::DuplicateActionId(id) => "duplicate action id: "@ + id,
        ActionConfigErrorView::InvalidWebhook(reason) => "invalid webhook action: "@ + reason,
    }
}

impl ActionConfigError {
    /// The human-readable message (what `Display` renders).
    pub fn message(&self) -> (r: String)
        ensures
            r@ == action_config_error_text(self@),
    {
        match self {
            ActionConfigError::EmptyActionId(id) => {
                let q = debug_string(id.as_str());
                concat2("action id must be a non-empty string, got ", q.as_str())
            },
            ActionConfigError::DuplicateActionId(id) => concat2("duplicate action id: ", id.as_str()),
            ActionConfigError::InvalidWebhook { reason } => concat2("invalid webhook action: ", reason.as_str()),
        }
    }
}

} // verus!
