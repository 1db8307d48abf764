//! Vector oblivious polynomial evaluation from correlated OT.

pub mod error;
pub mod sender;

use vstd::prelude::*;

verus! {

/// Security parameter.
pub const CSP: usize = 128;

} // verus!
