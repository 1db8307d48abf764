//! Errors of the SPCOT roles.

use crate::ferret::error::ErrorKind;
use vstd::prelude::*;

verus! {

/// A SPCOT sender error.
#[derive(Debug, Clone, PartialEq, Eq)]
pub enum SenderError {
    /// The transport failed; the text is the transport's own.
    IOError(String),
    /// A step of the protocol failed.
    CoreError(ErrorKind),
    /// The random correlated OT that the role draws from failed.
    RandomCOTError(String),
    /// The role is not in the state that the operation needs; the text
    /// names that state.
    StateError(String),
}

/// A SPCOT receiver error.
#[derive(Debug, Clone, PartialEq, Eq)]
pub enum ReceiverError {
    /// The transport failed; the text is the transport's own.
    IOError(String),
    /// A step of the protocol failed.
    CoreError(ErrorKind),
    /// The random correlated OT that the role draws from failed.
    RandomCOTError(String),
    /// The role is not in the state that the operation needs; the text
    /// names that state.
    StateError(String),
}

} // verus!
