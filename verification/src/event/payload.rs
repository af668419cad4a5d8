//! Payload types for Deltu events.

use vstd::prelude::*;

use crate::json::clone_json;

verus! {

/// The value carried by an event.
///
/// A closed set of payload kinds keeps common telemetry strongly typed and
/// rule-comparable; [`Payload::Json`] is the escape hatch for structured
/// data. Numbers are carried as their IEEE-754 binary64 bit pattern
/// (`f64::to_bits`), so that validation and comparison are exact integer
/// logic.
#[derive(Debug, PartialEq)]
pub enum Payload {
    /// A measurement or counter (binary64 bit pattern). NaN and infinities
    /// are rejected at validation time because they break deterministic
    /// rule comparison.
    Numeric {
        /// The measured value, as `f64::to_bits` gives it.
        value_bits: u64,
    },
    /// A short textual value. Stored trimmed; blank text is rejected.
    Text {
        /// The textual value.
        value: String,
    },
    /// A binary state flag.
    Boolean {
        /// The flag value.
        value: bool,
    },
    /// Structured payload for anything outside the closed kinds above.
    Json {
        /// The structured value.
        value: serde_json::Value,
    },
}

impl Clone for Payload {
    fn clone(&self) -> (r: Self)
        ensures
            r == *self,
    {
        match self {
            Payload::Numeric { value_bits } => Payload::Numeric { value_bits: *value_bits },
            Payload::Text { value } => Payload::Text { value: value.clone() },
            Payload::Boolean { value } => Payload::Boolean { value: *value },
            Payload::Json { value } => Payload::Json { value: clone_json(value) },
        }
    }
}

} // verus!
