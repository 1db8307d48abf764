//! The Ferret pseudorandom correlated-OT generator and the protocols it is
//! built from.

pub mod error;
pub mod ggm;
pub mod laws;
pub mod lpn;
pub mod mpcot;
pub mod msgs;
pub mod receiver;
pub mod sender;
pub mod spcot;
