//! Errors of the KOS15 roles.

use vstd::prelude::*;

verus! {

/// Errors that can occur when using the KOS15 sender.
#[derive(Debug, Clone, PartialEq, Eq)]
pub enum SenderError {
    /// The role was used in a state that does not allow the operation; the
    /// text names the state that was expected.
    InvalidState(String),
    /// The receiver's count (first) is not the one expected (second).
    CountMismatch(usize, usize),
    /// The receiver's consistency check does not hold.
    ConsistencyCheckFailed,
    /// More OTs were asked for (first) than are set up (second).
    InsufficientSetup(usize, usize),
    /// A message of the receiver is malformed.
    InvalidPayload,
}

/// Errors that can occur when using the KOS15 receiver.
#[derive(Debug, Clone, PartialEq, Eq)]
pub enum ReceiverError {
    /// The role was used in a state that does not allow the operation; the
    /// text names the state that was expected.
    InvalidState(String),
    /// The receiver has keys for fewer OTs (first) than the sender sent
    /// (second).
    CountMismatch(usize, usize),
    /// A message of the sender is malformed.
    InvalidPayload,
    /// The receiver was not configured to commit.
    NoReceiverCommit,
}

/// Errors that can occur when the receiver's revealed choices are verified.
#[derive(Debug, Clone, PartialEq, Eq)]
pub enum SenderVerifyError {
    /// The number of choices (second) is not the number recorded (first).
    ChoiceCountMismatch(usize, usize),
    /// The number of keys (second) is not the number recorded (first).
    KeyCountMismatch(usize, usize),
    /// The receiver's choices are inconsistent.
    InconsistentChoice,
    /// The receiver did not send a commitment.
    NoCommitment,
    /// The tape was not recorded.
    TapeNotRecorded,
}

} // verus!
