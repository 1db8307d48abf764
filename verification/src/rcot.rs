//! Random correlated OT: what a batch of it gives to each party.

use crate::block::{sel, Block};
use crate::ferret::error::ErrorKind;
use vstd::prelude::*;

verus! {

/// The number of a batch of OTs; the batches of a role are numbered in the
/// order in which they are handed out.
#[derive(Debug, Clone, Copy, PartialEq, Eq, Structural, Hash)]
pub struct TransferId(pub u64);

/// The sender's part of a batch of random correlated OTs.
#[derive(Debug, Clone, PartialEq, Eq)]
pub struct RCOTSenderOutput {
    /// The number of the batch.
    pub id: TransferId,
    /// The sender's blocks.
    pub msgs: Vec<Block>,
}

/// The receiver's part of a batch of random correlated OTs.
#[derive(Debug, Clone, PartialEq, Eq)]
pub struct RCOTReceiverOutput {
    /// The number of the batch.
    pub id: TransferId,
    /// The receiver's choice bits.
    pub choices: Vec<bool>,
    /// The receiver's blocks.
    pub msgs: Vec<Block>,
}

/// Compares the numbers of the batches that the two parties hold for the
/// same OTs: they must be the same.
pub fn match_ids(sender: TransferId, receiver: TransferId) -> (res: Result<(), ErrorKind>)
    ensures
        match res {
            Ok(_) => sender == receiver,
            Err(e) => sender != receiver && e == ErrorKind::IdMismatch,
        },
{
    if sender.0 == receiver.0 {
        Ok(())
    } else {
        Err(ErrorKind::IdMismatch)
    }
}

/// The OTs are correlated: each of the receiver's blocks is the sender's,
/// with delta added where the receiver's choice bit is set.
pub open spec fn correlated(v: Seq<Block>, c: Seq<bool>, w: Seq<Block>, delta: u128) -> bool {
    &&& v.len() == c.len()
    &&& v.len() == w.len()
    &&& forall|i: int| 0 <= i < v.len() ==> (#[trigger] w[i])@ == v[i]@ ^ sel(c[i], delta)
}

} // verus!
