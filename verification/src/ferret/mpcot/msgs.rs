//! Messages of the MPCOT protocol.

use crate::block::Block;
use vstd::prelude::*;

verus! {

/// The seed of the hash functions of the buckets, sent by the receiver.
#[derive(Debug, Clone, Copy, PartialEq, Eq, Structural)]
pub struct HashSeed {
    pub seed: Block,
}

} // verus!
