//! Messages of the KOS15 protocol.

use crate::block::Block;
use vstd::prelude::*;

verus! {

/// Extension message sent by the receiver.
#[derive(Debug, Clone, PartialEq, Eq)]
pub struct Extend {
    /// The number of OTs to set up.
    pub count: usize,
    /// The receiver's setup vectors: 128 rows of `count / 8` bytes each.
    pub us: Vec<u8>,
}

/// Consistency check sent by the receiver.
#[derive(Debug, Clone, Copy, PartialEq, Eq, Structural)]
pub struct Check {
    pub x: Block,
    pub t0: Block,
    pub t1: Block,
}

/// The receiver's corrections of the choices it made at random.
#[derive(Debug, Clone, PartialEq, Eq)]
pub struct Derandomize {
    /// One bit for each OT, eight to a byte, least significant bit first:
    /// set where the choice differs from the random one.
    pub flip: Vec<u8>,
}

/// Sender payload message.
#[derive(Debug, Clone, PartialEq, Eq)]
pub struct SenderPayload {
    /// Two ciphertexts for each OT.
    pub ciphertexts: Vec<Block>,
}

/// A KOS15 protocol message.
#[derive(Debug, Clone, PartialEq, Eq)]
pub enum Message {
    Extend(Extend),
    Check(Check),
}

} // verus!
