//! Deltu core engine: the verified processing library.

pub mod actions;
pub mod ai;
pub mod cli;
pub mod event;
pub mod floatbits;
pub mod input;
pub mod json;
pub mod keyed;
pub mod metrics;
pub mod order;
pub mod persistence;
pub mod processing;
pub mod rules;
pub mod runtime;
pub mod state;
pub mod text;

use vstd::prelude::*;

verus! {

/// The engine version (the package version).
pub fn version() -> (v: &'static str)
    ensures
        v@ == "0.1.0"@,
{
    proof {
        reveal_strlit("0.1.0");
    }
    "0.1.0"
}

} // verus!
