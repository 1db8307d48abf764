//! Errors of the Ferret roles.

use crate::ferret::mpcot::error::{
    ReceiverError as MpcotReceiverError, ReceiverRegularError, SenderError as MpcotSenderError,
    SenderRegularError,
};
use vstd::prelude::*;

verus! {

/// What a protocol step found wrong with what it was given.
#[derive(Debug, Clone, Copy, PartialEq, Eq, Structural)]
pub enum ErrorKind {
    /// A count is not the one expected: expected first, given second.
    CountMismatch(usize, usize),
    /// The consistency check was rejected.
    ConsistencyCheckFailed,
    /// A message is malformed.
    InvalidPayload,
    /// The ids of the batches of the two parties disagree.
    IdMismatch,
    /// The parameters violate what the protocol asks of them.
    InvalidParameters,
    /// More OTs were asked for (first) than have been extended (second).
    InsufficientSetup(usize, usize),
}

/// A Ferret sender error.
#[derive(Debug, Clone, PartialEq, Eq)]
pub enum SenderError {
    /// The transport failed; the text is the transport's own.
    IOError(String),
    /// A step of the protocol failed.
    CoreError(ErrorKind),
    /// The MPCOT sender for positions spread anywhere failed.
    MPCOTSenderError(MpcotSenderError),
    /// The MPCOT sender for regular positions failed.
    MPCOTSenderRegularError(SenderRegularError),
    /// The random correlated OT that the setup draws from failed.
    RandomCOTError(String),
    /// The role is not in the state that the operation needs; the text
    /// names that state.
    StateError(String),
    /// The role's MPCOT sender is not of the kind that the operation
    /// needs; the text names that kind.
    MPCOTSenderTypeError(String),
}

/// A Ferret receiver error.
#[derive(Debug, Clone, PartialEq, Eq)]
pub enum ReceiverError {
    /// The transport failed; the text is the transport's own.
    IOError(String),
    /// A step of the protocol failed.
    CoreError(ErrorKind),
    /// The MPCOT receiver for positions spread anywhere failed.
    MPCOTReceiverError(MpcotReceiverError),
    /// The MPCOT receiver for regular positions failed.
    MPCOTReceiverRegularError(ReceiverRegularError),
    /// The random correlated OT that the setup draws from failed.
    RandomCOTError(String),
    /// The role is not in the state that the operation needs; the text
    /// names that state.
    StateError(String),
    /// The role's MPCOT receiver is not of the kind that the operation
    /// needs; the text names that kind.
    MPCOTReceiverTypeError(String),
}

} // verus!
