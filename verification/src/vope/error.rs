//! Errors of the VOPE roles.

use vstd::prelude::*;

verus! {

/// The error of the VOPE sender: an input of the wrong length; the text
/// says which length was expected.
#[derive(Debug, Clone, PartialEq, Eq)]
pub struct SenderError(pub String);

/// The error of the VOPE receiver: an input of the wrong length; the text
/// says which length was expected.
#[derive(Debug, Clone, PartialEq, Eq)]
pub struct ReceiverError(pub String);

} // verus!
