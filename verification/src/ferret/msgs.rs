//! Messages of the Ferret protocol.

use crate::block::Block;
use vstd::prelude::*;

verus! {

/// The seed of the LPN matrix, sent by the receiver.
#[derive(Debug, Clone, Copy, PartialEq, Eq, Structural)]
pub struct LpnSeed {
    pub seed: Block,
}

} // verus!
