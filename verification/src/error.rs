//! The ways in which a client's bytes can fail to be a handshake.

use vstd::prelude::*;

verus! {

/// A violation of the wire format or of the handshake protocol.
#[derive(Clone, Copy, Debug, PartialEq, Eq, Structural)]
pub enum ProtocolError {
    /// The bytes at hand end before the value does: at least `needed` more
    /// bytes have to arrive before any verdict is possible.
    Truncated { needed: usize },
    /// A variable-length integer does not end within five bytes, or a number
    /// has no encoding of at most five bytes.
    VarIntTooLarge,
    /// The bytes of a string field are not UTF-8.
    InvalidUtf8,
    /// The frame length is 510: the probe of a client older than the framed
    /// protocol.
    LegacyPingUnsupported,
    /// The first packet is not a handshake.
    UnexpectedPacketId,
    /// The next-state selector is neither 1 nor 2.
    InvalidNextState,
}

} // verus!
