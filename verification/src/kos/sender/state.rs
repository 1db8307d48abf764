//! The states of the KOS15 sender.

pub use crate::kos::sender::{Extension, ExtensionView, Initialized, Sealed, State};
