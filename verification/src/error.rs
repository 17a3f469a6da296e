//! The error kinds a request can end in.

use vstd::prelude::*;

verus! {

/// Why the transport could not deliver a message or its reply.
#[derive(Clone, Copy, Debug, PartialEq, Eq, Structural)]
pub enum NetworkFailure {
    /// The connection could not be opened, secured, written to or read from.
    Connection,
    /// The peer did not answer in time.
    Timeout,
}

/// Why a response could not be understood.
#[derive(Clone, Copy, Debug, PartialEq, Eq, Structural)]
pub enum ParseFailure {
    /// The status line, the framing of the head or a chunk is not well formed,
    /// or the response ends too early.
    Malformed,
    /// The body is framed correctly but is not a structured document.
    InvalidPayload,
}

/// The outcome of a request that did not produce a result.
#[derive(Clone, Copy, Debug, PartialEq, Eq, Structural)]
pub enum ConnectorError {
    /// The operation name is not in the dispatch table.
    UnsupportedOperation,
    /// The transport failed; the caller may retry.
    Network(NetworkFailure),
    /// The provider's response could not be parsed.
    Parse(ParseFailure),
    /// The secret ciphertext is not valid under the key pair's padding scheme,
    /// or the plaintext is not UTF-8 text.
    Decryption,
    /// The account list, a balance or a range bound is absent or of the wrong
    /// type.
    EvaluationFault,
}

impl ConnectorError {
    /// Whether the same request may succeed when it is sent again.
    pub open spec fn transient(self) -> bool {
        self is Network
    }

    /// Tells a transient transport failure from a permanent fault.
    pub fn is_transient(&self) -> (r: bool)
        ensures
            r == self.transient(),
    {
        match self {
            ConnectorError::Network(_) => true,
            _ => false,
        }
    }
}

} // verus!
