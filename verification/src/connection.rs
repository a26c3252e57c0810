//! What a connection is configured with, and where it stands between open and closed.

use vstd::prelude::*;

verus! {

/// The limits of a connection. They are set when the connection is made and never change.
#[derive(Clone, Copy, Debug, PartialEq, Eq, Structural)]
pub struct WebSocketConfig {
    /// The most bytes that a received message may have, over all its fragments.
    pub max_message_size: usize,
    /// The most bytes that the payload of one frame may have, received or sent.
    pub max_frame_size: usize,
    /// What a received message over the limit does to the connection. If set, the connection
    /// is closed for good. If not, the rest of that message is passed over, and the message
    /// after it is read as usual.
    pub capacity_error_closes: bool,
}

impl WebSocketConfig {
    /// 64 MiB for a message, 16 MiB for a frame, and a message over the limit closes the
    /// connection.
    pub open spec fn spec_default() -> WebSocketConfig {
        WebSocketConfig {
            max_message_size: 0x400_0000,
            max_frame_size: 0x100_0000,
            capacity_error_closes: true,
        }
    }
}

impl Default for WebSocketConfig {
    fn default() -> (r: WebSocketConfig)
        ensures
            r == WebSocketConfig::spec_default(),
    {
        WebSocketConfig {
            max_message_size: 0x400_0000,
            max_frame_size: 0x100_0000,
            capacity_error_closes: true,
        }
    }
}

/// Where a connection stands. It begins open, and nothing leads back from closed.
#[derive(Clone, Copy, Debug, PartialEq, Eq, Structural)]
pub enum ConnectionState {
    /// Messages go both ways.
    Open,
    /// This side has sent its close and waits for the peer's. The application sends nothing
    /// more; a ping that still comes is answered.
    Closing,
    /// The peer's close has come, or an error has ended the connection.
    Closed,
}

impl ConnectionState {
    /// Whether a state may follow another: every state may stay, open leads to both others,
    /// closing leads to closed.
    pub open spec fn spec_may_follow(self, before: ConnectionState) -> bool {
        match before {
            ConnectionState::Open => true,
            ConnectionState::Closing => self != ConnectionState::Open,
            ConnectionState::Closed => self == ConnectionState::Closed,
        }
    }

    /// The state after this side has sent its close.
    pub open spec fn spec_after_close_sent(self) -> ConnectionState {
        match self {
            ConnectionState::Open => ConnectionState::Closing,
            other => other,
        }
    }

    #[verifier::when_used_as_spec(spec_after_close_sent)]
    pub fn after_close_sent(self) -> (r: ConnectionState)
        ensures
            r == self.spec_after_close_sent(),
            r.spec_may_follow(self),
    {
        match self {
            ConnectionState::Open => ConnectionState::Closing,
            other => other,
        }
    }

    pub fn is_open(&self) -> (r: bool)
        ensures
            r == (*self == ConnectionState::Open),
    {
        matches!(self, ConnectionState::Open)
    }

    pub fn is_closed(&self) -> (r: bool)
        ensures
            r == (*self == ConnectionState::Closed),
    {
        matches!(self, ConnectionState::Closed)
    }
}

} // verus!
