//! The states of the KOS15 receiver.

pub use crate::kos::receiver::{Extension, ExtensionView, Initialized, Sealed, State};
