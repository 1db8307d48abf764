//! Errors of the MPCOT roles.

use crate::ferret::error::ErrorKind;
use crate::ferret::spcot::error::{
    ReceiverError as SpcotReceiverError, SenderError as SpcotSenderError,
};
use vstd::prelude::*;

verus! {

/// A MPCOT sender error.
#[derive(Debug, Clone, PartialEq, Eq)]
pub enum SenderError {
    /// The transport failed; the text is the transport's own.
    IOError(String),
    /// A step of the protocol failed.
    CoreError(ErrorKind),
    /// The SPCOT sender failed.
    SPCOTSenderError(SpcotSenderError),
    /// The role is not in the state that the operation needs; the text
    /// names that state.
    StateError(String),
}

/// A MPCOT receiver error.
#[derive(Debug, Clone, PartialEq, Eq)]
pub enum ReceiverError {
    /// The transport failed; the text is the transport's own.
    IOError(String),
    /// A step of the protocol failed.
    CoreError(ErrorKind),
    /// The SPCOT receiver failed.
    SpcotReceiverError(SpcotReceiverError),
    /// The role is not in the state that the operation needs; the text
    /// names that state.
    StateError(String),
}

/// A MPCOT regular sender error.
#[derive(Debug, Clone, PartialEq, Eq)]
pub enum SenderRegularError {
    /// The transport failed; the text is the transport's own.
    IOError(String),
    /// A step of the protocol failed.
    CoreError(ErrorKind),
    /// The SPCOT sender failed.
    SPCOTSenderError(SpcotSenderError),
    /// The role is not in the state that the operation needs; the text
    /// names that state.
    StateError(String),
}

/// A MPCOT regular receiver error.
#[derive(Debug, Clone, PartialEq, Eq)]
pub enum ReceiverRegularError {
    /// The transport failed; the text is the transport's own.
    IOError(String),
    /// A step of the protocol failed.
    CoreError(ErrorKind),
    /// The SPCOT receiver failed.
    SpcotReceiverError(SpcotReceiverError),
    /// The role is not in the state that the operation needs; the text
    /// names that state.
    StateError(String),
}

} // verus!
