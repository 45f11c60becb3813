//! Point-to-point file transfer with a metadata handshake, chunked
//! streaming bounded by the announced size, end-to-end content-hash
//! verification, progress events, and an rsync-style delta-sync mode.
//!
//! The transfer engine here is pure: it works on byte buffers and chunk
//! sequences, so every decision it makes (framing, accounting, progress,
//! verification, delta computation) is stated in contracts and proved.
//! The I/O layer that feeds it lives outside this crate.

pub mod delta;
pub mod error;
pub mod handshake;
pub mod hashing;
pub mod progress;
pub mod recipient;
pub mod sender;
pub mod session;
pub mod transport;
pub mod wire;
