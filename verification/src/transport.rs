//! The transport abstraction the engine is written against.

use crate::error::ProtocolError;
use vstd::prelude::*;

verus! {

/// A connection-oriented byte transport: the collaborator that carries
/// bulk data or delta instructions between the two endpoints.
///
/// Both a plain reliable stream and a congestion-controlled datagram
/// transport satisfy this interface. Implementations perform I/O and so
/// live with the unverified I/O layer; the engine itself never assumes
/// anything about how a transport cuts the stream into reads — the
/// handshake-announced size is the only framing boundary it trusts.
pub trait Transport {
    /// Send one message of bytes; returns how many bytes were accepted.
    fn send(&mut self, data: &[u8]) -> Result<usize, ProtocolError>;

    /// Receive one message into `buf`; returns how many bytes arrived.
    /// A zero-length result means the peer closed the stream.
    fn recv(&mut self, buf: &mut Vec<u8>) -> Result<usize, ProtocolError>;
}

} // verus!
