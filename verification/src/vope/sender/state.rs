//! The states of the VOPE sender.

pub use crate::vope::sender::{Extension, ExtensionView, Initialized, Sealed, State};
