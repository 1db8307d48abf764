//! Messages of the SPCOT protocol.

use crate::block::Block;
use vstd::prelude::*;

verus! {

/// The receiver's masked path bits for a batch of trees.
#[derive(Debug, Clone, PartialEq, Eq)]
pub struct MaskBits {
    /// One bit for each level of each tree, tree after tree, eight to a
    /// byte, least significant bit first.
    pub bits: Vec<u8>,
    /// The depth of each tree of the batch.
    pub shape: Vec<usize>,
}

/// The sender's answer to the mask bits of a batch of trees.
#[derive(Debug, Clone, PartialEq, Eq)]
pub struct ExtendFS {
    /// For each level of each tree, the masked sum of the left children.
    pub m0: Vec<Block>,
    /// For each level of each tree, the masked sum of the right children.
    pub m1: Vec<Block>,
    /// For each tree, the sum of its leaves and delta.
    pub c: Vec<Block>,
}

/// The receiver's part of the consistency check.
#[derive(Debug, Clone, Copy, PartialEq, Eq, Structural)]
pub struct CheckFR {
    /// The seed of the weights of the check.
    pub chi_seed: Block,
    /// The receiver's masked sum of the weights at its chosen positions.
    pub x_prime: Block,
}

/// The sender's part of the consistency check.
#[derive(Debug, Clone, Copy, PartialEq, Eq)]
pub struct CheckFS {
    /// The digest of the sender's value of the check.
    pub hashed_v: [u8; 32],
}

} // verus!
