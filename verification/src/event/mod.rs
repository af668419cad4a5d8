//! The Deltu internal event model.
//!
//! Every input adapter converts external data into [`Event`]; every
//! processing stage consumes it. External input is validated before
//! entering the pipeline.

pub mod error;
pub mod payload;

pub use error::EventError;
pub use payload::Payload;

use vstd::prelude::*;

use crate::floatbits::{bits_is_finite, is_finite};
use crate::text::{is_blank, lower, str_blank, str_trim, to_lowercase, trimmed};

verus! {

/// Rejection reason for a non-finite numeric payload.
pub const NON_FINITE_NUMERIC: &'static str = "numeric payload must be finite (NaN and infinities are rejected)";

/// Rejection reason for a blank text payload.
pub const BLANK_TEXT: &'static str = "text payload must not be empty or whitespace-only";

/// A single normalized event in the Deltu processing pipeline.
///
/// Construct via [`Event::new`] (validates and normalizes) or by decoding
/// external input followed by [`Event::validate`].
#[derive(Debug, PartialEq)]
pub struct Event {
    /// Producer-supplied identity; the deduplication key.
    pub id: String,
    /// Non-empty origin, e.g. `mqtt://broker.local/sensors/esp32-1`.
    pub source: String,
    /// Dotted event type, normalized to lowercase, e.g. `temperature.reading`.
    pub kind: String,
    /// Unix epoch milliseconds UTC; must be positive.
    pub timestamp: i64,
    /// The measured or reported value.
    pub payload: Payload,
}

impl Clone for Event {
    fn clone(&self) -> (r: Self)
        ensures
            r == *self,
    {
        Event {
            id: self.id.clone(),
            source: self.source.clone(),
            kind: self.kind.clone(),
            timestamp: self.timestamp,
            payload: self.payload.clone(),
        }
    }
}

/// Why a payload is rejected, if it is.
pub open spec fn payload_rejection(p: Payload) -> Option<EventError> {
    match p {
        Payload::Numeric { value_bits } => if is_finite(value_bits) {
            None
        } else {
            Some(EventError::InvalidPayload(NON_FINITE_NUMERIC))
        },
        Payload::Text { value } => if is_blank(value@) {
            Some(EventError::InvalidPayload(BLANK_TEXT))
        } else {
            None
        },
        _ => None,
    }
}

/// The first validation rule that the given fields break, in rule order:
/// id, source, kind, timestamp, payload.
pub open spec fn event_rejection(
    id: Seq<char>,
    source: Seq<char>,
    kind: Seq<char>,
    timestamp: i64,
    payload: Payload,
) -> Option<EventError> {
    if is_blank(id) {
        Some(EventError::EmptyId)
    } else if is_blank(source) {
        Some(EventError::EmptySource)
    } else if is_blank(kind) {
        Some(EventError::EmptyKind)
    } else if timestamp <= 0 {
        Some(EventError::InvalidTimestamp(timestamp))
    } else {
        payload_rejection(payload)
    }
}

/// The event satisfies every validation rule.
pub open spec fn event_valid(e: Event) -> bool {
    event_rejection(e.id@, e.source@, e.kind@, e.timestamp, e.payload) is None
}

/// `stored` is `given` as an event keeps it: text is stored trimmed, every
/// other payload as given.
pub open spec fn stored_payload(stored: Payload, given: Payload) -> bool {
    match given {
        Payload::Text { value } => stored matches Payload::Text { value: kept } && kept@ == trimmed(value@),
        _ => stored == given,
    }
}

/// The payload as an event stores it (text trimmed).
fn normalize_payload(payload: Payload) -> (r: Payload)
    ensures
        stored_payload(r, payload),
{
    match payload {
        Payload::Text { value } => Payload::Text { value: str_trim(value.as_str()) },
        other => other,
    }
}

/// Shared payload rules: finite numerics, non-blank text.
pub fn validate_payload(payload: &Payload) -> (r: Result<(), EventError>)
    ensures
        match r {
            Ok(()) => payload_rejection(*payload) is None,
            Err(e) => payload_rejection(*payload) == Some(e),
        },
{
    match payload {
        Payload::Numeric { value_bits } => {
            if bits_is_finite(*value_bits) {
                Ok(())
            } else {
                Err(EventError::InvalidPayload(NON_FINITE_NUMERIC))
            }
        },
        Payload::Text { value } => {
            if str_blank(value.as_str()) {
                Err(EventError::InvalidPayload(BLANK_TEXT))
            } else {
                Ok(())
            }
        },
        Payload::Boolean { .. } | Payload::Json { .. } => Ok(()),
    }
}

impl Event {
    /// Validates inputs, normalizes fields, and returns a new event.
    ///
    /// Normalization: `id`, `source`, and `kind` are trimmed; `kind` is
    /// lowercased. `id` and `source` keep their case and format. Text
    /// payloads are stored trimmed.
    pub fn new(id: &str, source: &str, kind: &str, timestamp: i64, payload: Payload) -> (r: Result<
        Self,
        EventError,
    >)
        ensures
            match r {
                Ok(e) => {
                    &&& event_rejection(id@, source@, kind@, timestamp, payload) is None
                    &&& e.id@ == trimmed(id@)
                    &&& e.source@ == trimmed(source@)
                    &&& e.kind@ == lower(trimmed(kind@))
                    &&& e.timestamp == timestamp
                    &&& stored_payload(e.payload, payload)
                },
                Err(err) => event_rejection(id@, source@, kind@, timestamp, payload) == Some(err),
            },
    {
        if str_blank(id) {
            return Err(EventError::EmptyId);
        }
        if str_blank(source) {
            return Err(EventError::EmptySource);
        }
        if str_blank(kind) {
            return Err(EventError::EmptyKind);
        }
        if timestamp <= 0 {
            return Err(EventError::InvalidTimestamp(timestamp));
        }
        validate_payload(&payload)?;
        let trimmed_kind = str_trim(kind);
        Ok(Event {
            id: str_trim(id),
            source: str_trim(source),
            kind: to_lowercase(trimmed_kind.as_str()),
            timestamp,
            payload: normalize_payload(payload),
        })
    }

    /// Validates an event in place; the adapter path (decode, validate,
    /// pipeline) uses this. Returns the event unchanged on success.
    pub fn validate(self) -> (r: Result<Self, EventError>)
        ensures
            match r {
                Ok(e) => e == self && event_valid(self),
                Err(err) => event_rejection(self.id@, self.source@, self.kind@, self.timestamp, self.payload)
                    == Some(err),
            },
    {
        if str_blank(self.id.as_str()) {
            return Err(EventError::EmptyId);
        }
        if str_blank(self.source.as_str()) {
            return Err(EventError::EmptySource);
        }
        if str_blank(self.kind.as_str()) {
            return Err(EventError::EmptyKind);
        }
        if self.timestamp <= 0 {
            return Err(EventError::InvalidTimestamp(self.timestamp));
        }
        match validate_payload(&self.payload) {
            Ok(()) => Ok(self),
            Err(e) => Err(e),
        }
    }
}

} // verus!
