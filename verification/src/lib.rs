//! Oblivious-transfer extension: the KOS15 correlated-OT extension and the
//! Ferret pseudorandom correlated-OT generator, with the arithmetic of
//! 128-bit blocks and the bit-packed matrices that both are built on.
//!
//! The roles of the protocols are state machines: each operation takes what
//! the peer or the underlying correlated OT gave, and returns what is to be
//! sent or handed out. Moving the messages is left to the caller.

pub mod bits;
pub mod block;
pub mod cipher;
pub mod ferret;
pub mod gf128;
pub mod hash;
pub mod kos;
pub mod matrix;
pub mod prg;
pub mod rcot;
pub mod vope;
