//! The errors that the engine reports, and the queries that classify them.

use vstd::prelude::*;

verus! {

/// Why a peer's frame, or a frame that the caller asked for, breaks the protocol.
#[derive(Clone, Copy, Debug, PartialEq, Eq, Structural)]
pub enum ProtocolError {
    /// A reserved header bit is set that no active extension claims.
    ReservedBits,
    /// The opcode is none of the six defined ones.
    UnknownOpCode,
    /// A server received an unmasked frame, or a client a masked one.
    Masking,
    /// A control frame without the final flag.
    FragmentedControl,
    /// A control frame with a payload of more than 125 bytes.
    ControlTooLarge,
    /// A length field that is longer than its value needs, or over 63 bits.
    LengthEncoding,
    /// A payload longer than the configured limit for one frame.
    FrameTooLarge,
    /// A continuation frame while no message is in progress.
    UnexpectedContinuation,
    /// A new data frame while a fragmented message is in progress.
    InterleavedData,
    /// A text payload or a close reason that is not UTF-8.
    Encoding,
    /// A close payload of exactly one byte.
    ClosePayload,
    /// A pong with other bytes than the ping that awaits it.
    UnexpectedPong,
}

/// Why an opening handshake was refused.
#[derive(Clone, Copy, Debug, PartialEq, Eq, Structural)]
pub enum HandshakeError {
    /// The response's status is not 101.
    Status,
    /// The accept value does not belong to the key that was sent.
    Accept,
    /// The peer chose a subprotocol that was not offered.
    Subprotocol,
    /// The request does not ask for the upgrade, lacks a key, asks for another version of
    /// the protocol, or offers extensions in a text that cannot be read.
    BadRequest,
    /// The response answers the offer of extensions in a text that cannot be read.
    Extension,
}

/// Everything that can go wrong on a connection.
#[derive(Clone, Copy, Debug, PartialEq, Eq, Structural)]
pub enum Error {
    /// The transport failed or ended in the middle of a frame.
    Io,
    /// The peer, or the caller, broke the protocol. The connection must be closed.
    Protocol(ProtocolError),
    /// The opening handshake failed, before any frame was exchanged.
    Handshake(HandshakeError),
    /// A required extension was not agreed on, or an extension refused a payload.
    Extension,
    /// A message grew beyond the configured limit.
    Capacity,
    /// The connection is closed.
    Closed,
}

impl Error {
    pub fn is_io(&self) -> (r: bool)
        ensures
            r == (*self == Error::Io),
    {
        matches!(self, Error::Io)
    }

    pub fn is_protocol(&self) -> (r: bool)
        ensures
            r == (*self is Protocol),
    {
        matches!(self, Error::Protocol(_))
    }

    pub fn is_handshake(&self) -> (r: bool)
        ensures
            r == (*self is Handshake),
    {
        matches!(self, Error::Handshake(_))
    }

    pub fn is_extension(&self) -> (r: bool)
        ensures
            r == (*self == Error::Extension),
    {
        matches!(self, Error::Extension)
    }

    pub fn is_capacity(&self) -> (r: bool)
        ensures
            r == (*self == Error::Capacity),
    {
        matches!(self, Error::Capacity)
    }

    pub fn is_close(&self) -> (r: bool)
        ensures
            r == (*self == Error::Closed),
    {
        matches!(self, Error::Closed)
    }
}

} // verus!
