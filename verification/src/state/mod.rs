//! Deltu's in-memory current-state store: the keyed, bounded, expiring
//! snapshot of "what is true now". Runtime state is separate from
//! historical persistence.

pub mod store;

pub use store::{StateEntry, StateKey, StateStore, StateValue};

use vstd::prelude::*;

use crate::text::{concat2, decimal_i64, decimal_u64, i64_to_string, u64_to_string};

verus! {

/// Configuration for [`StateStore`](store::StateStore). Defaults are
/// conservative for edge-class devices and are a documented starting point,
/// not performance claims.
#[derive(Debug, Clone, PartialEq)]
pub struct StateConfig {
    /// Maximum retained entries regardless of input volume. Default 10_000.
    pub max_entries: usize,
    /// Expiration age in milliseconds; `None` disables expiration.
    /// Default `Some(300_000)`: 5 minutes.
    pub expire_after_ms: Option<i64>,
}

impl Default for StateConfig {
    fn default() -> (r: Self)
        ensures
            r.max_entries == 10_000,
            r.expire_after_ms == Some(300_000i64),
    {
        StateConfig { max_entries: 10_000, expire_after_ms: Some(300_000) }
    }
}

/// Store configuration errors.
#[derive(Debug, Clone, PartialEq)]
pub enum StateError {
    /// `max_entries` must be greater than zero.
    InvalidCapacity(usize),
    /// `expire_after_ms`, when set, must be greater than zero.
    InvalidExpireAfter(i64),
}

/// The human-readable message of a store error.
pub open spec fn state_error_text(e: StateError) -> Seq<char> {
    match e {
        StateError::InvalidCapacity(v) => "max_entries must be greater than 0, got "@ + decimal_u64(v as u64),
        StateError::InvalidExpireAfter(v) => "expire_after_ms must be greater than 0 when set, got "@ + decimal_i64(v),
    }
}

impl StateError {
    /// The human-readable message (what `Display` renders).
    pub fn message(&self) -> (r: String)
        ensures
            r@ == state_error_text(*self),
    {
        match self {
            StateError::InvalidCapacity(v) => {
                let n = u64_to_string(*v as u64);
                concat2("max_entries must be greater than 0, got ", n.as_str())
            },
            StateError::InvalidExpireAfter(v) => {
                let n = i64_to_string(*v);
                concat2("expire_after_ms must be greater than 0 when set, got ", n.as_str())
            },
        }
    }
}

/// Drop/expiration counters, incremented only on real events.
#[derive(Debug, Clone, Copy, Default, PartialEq, Eq)]
pub struct StateCounters {
    /// Entries removed by [`StateStore::expire`].
    pub expired: u64,
    /// Entries evicted by the capacity cap (stalest first).
    pub evicted: u64,
}

} // verus!
