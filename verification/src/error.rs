//! Shared vocabulary of failure kinds used by every protocol operation.

use vstd::prelude::*;

verus! {

/// The closed set of ways a transfer or sync operation can fail.
///
/// Every fallible operation of this crate reports exactly one of these
/// kinds; none is silently swallowed and the engine never retries.
#[derive(Clone, Copy, Debug, PartialEq, Eq, Structural)]
pub enum ErrorKind {
    /// Local listen setup failed.
    Bind,
    /// Inbound connection setup failed.
    Accept,
    /// Outbound connection setup failed.
    Connect,
    /// Local filesystem operation failed.
    FileIO,
    /// Channel read or write failed mid-transfer.
    NetworkIO,
    /// Metadata exchange was malformed, oversized, or timed out.
    Handshake,
    /// Post-transfer hash mismatch; the written file is retained.
    FileInvalid,
    /// A timeout-wrapped step exceeded the configured duration.
    TimeoutExpired,
    /// Caller misuse, caught before any I/O.
    PreconditionFailed,
}

/// A failure: exactly one [`ErrorKind`] plus a human-readable detail
/// standing in for the wrapped lower-level cause.
#[derive(Clone, Debug)]
pub struct ProtocolError {
    pub kind: ErrorKind,
    pub detail: String,
}

impl ProtocolError {
    /// Build an error of the given kind with a detail message.
    pub fn new(kind: ErrorKind, detail: String) -> (r: ProtocolError)
        ensures
            r.kind == kind,
            r.detail == detail,
    {
        ProtocolError { kind, detail }
    }

    /// The kind this error is tagged with.
    pub fn kind(&self) -> (k: ErrorKind)
        ensures
            k == self.kind,
    {
        self.kind
    }
}

} // verus!
