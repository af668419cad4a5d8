//! Event validation errors.

use vstd::prelude::*;

use crate::text::{concat2, i64_to_string, decimal_i64, owned};

verus! {

/// Errors produced when constructing or validating an [`Event`](crate::event::Event).
///
/// Variants map one-to-one to the validation rules, so callers can react to
/// specific failures instead of parsing messages.
#[derive(Debug, Clone, PartialEq, Eq)]
pub enum EventError {
    /// Event id was empty or whitespace-only.
    EmptyId,
    /// Event source was empty or whitespace-only.
    EmptySource,
    /// Event kind was empty or whitespace-only.
    EmptyKind,
    /// Timestamp was not a positive Unix epoch millisecond value.
    InvalidTimestamp(i64),
    /// Payload was rejected (non-finite number or blank text).
    InvalidPayload(&'static str),
}

/// The human-readable message of an event error.
pub open spec fn event_error_text(e: EventError) -> Seq<char> {
    match e {
        EventError::EmptyId => "event id must be a non-empty string"@,
        EventError::EmptySource => "event source must be a non-empty string"@,
        EventError::EmptyKind => "event kind must be a non-empty string"@,
        EventError::InvalidTimestamp(ts) =>
            "event timestamp must be a positive Unix epoch millisecond value, got "@ + decimal_i64(ts),
        EventError::InvalidPayload(reason) => "invalid event payload: "@ + reason@,
    }
}

impl EventError {
    /// The human-readable message (what `Display` renders).
    pub fn message(&self) -> (r: String)
        ensures
            r@ == event_error_text(*self),
    {
        match self {
            EventError::EmptyId => owned("event id must be a non-empty string"),
            EventError::EmptySource => owned("event source must be a non-empty string"),
            EventError::EmptyKind => owned("event kind must be a non-empty string"),
            EventError::InvalidTimestamp(ts) => {
                let n = i64_to_string(*ts);
                concat2(
                    "event timestamp must be a positive Unix epoch millisecond value, got ",
                    n.as_str(),
                )
            },
            EventError::InvalidPayload(reason) => concat2("invalid event payload: ", reason),
        }
    }
}

} // verus!
