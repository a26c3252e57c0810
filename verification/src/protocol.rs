//! The vocabulary of the wire: roles, opcodes, and the limits on control frames.

use vstd::prelude::*;

verus! {

/// The longest payload that a control frame may carry.
pub const CONTROL_MAX_SIZE: usize = 125;

/// The close code that stands for "the close frame carried no code". With no reason beside it,
/// it is sent as a close frame without a payload.
pub const CLOSE_NO_STATUS: u16 = 1005;

/// Which end of the connection this is. A client masks what it sends; a server does not.
#[derive(Clone, Copy, Debug, PartialEq, Eq, Structural)]
pub enum Role {
    Client,
    Server,
}

impl Role {
    pub fn is_client(&self) -> (r: bool)
        ensures
            r == (*self == Role::Client),
    {
        matches!(self, Role::Client)
    }

    pub fn is_server(&self) -> (r: bool)
        ensures
            r == (*self == Role::Server),
    {
        matches!(self, Role::Server)
    }

    /// The role at the other end.
    pub open spec fn spec_peer(self) -> Role {
        match self {
            Role::Client => Role::Server,
            Role::Server => Role::Client,
        }
    }

    #[verifier::when_used_as_spec(spec_peer)]
    pub fn peer(self) -> (r: Role)
        ensures
            r == self.spec_peer(),
    {
        match self {
            Role::Client => Role::Server,
            Role::Server => Role::Client,
        }
    }
}

/// The opcodes of frames that carry a message's payload.
#[derive(Clone, Copy, Debug, PartialEq, Eq, Structural)]
pub enum DataCode {
    Continuation,
    Text,
    Binary,
}

/// The opcodes of frames that steer the connection.
#[derive(Clone, Copy, Debug, PartialEq, Eq, Structural)]
pub enum ControlCode {
    Close,
    Ping,
    Pong,
}

/// One of the six defined opcodes.
#[derive(Clone, Copy, Debug, PartialEq, Eq, Structural)]
pub enum OpCode {
    DataCode(DataCode),
    ControlCode(ControlCode),
}

impl OpCode {
    /// The four bits that stand for this opcode in a frame's first byte.
    pub open spec fn spec_bits(self) -> u8 {
        match self {
            OpCode::DataCode(DataCode::Continuation) => 0u8,
            OpCode::DataCode(DataCode::Text) => 1u8,
            OpCode::DataCode(DataCode::Binary) => 2u8,
            OpCode::ControlCode(ControlCode::Close) => 8u8,
            OpCode::ControlCode(ControlCode::Ping) => 9u8,
            OpCode::ControlCode(ControlCode::Pong) => 10u8,
        }
    }

    /// The opcode that four bits stand for, if they stand for one.
    pub open spec fn spec_from_bits(bits: u8) -> Option<OpCode> {
        if bits == 0 {
            Some(OpCode::DataCode(DataCode::Continuation))
        } else if bits == 1 {
            Some(OpCode::DataCode(DataCode::Text))
        } else if bits == 2 {
            Some(OpCode::DataCode(DataCode::Binary))
        } else if bits == 8 {
            Some(OpCode::ControlCode(ControlCode::Close))
        } else if bits == 9 {
            Some(OpCode::ControlCode(ControlCode::Ping))
        } else if bits == 10 {
            Some(OpCode::ControlCode(ControlCode::Pong))
        } else {
            None
        }
    }

    pub open spec fn spec_is_control(self) -> bool {
        self is ControlCode
    }

    #[verifier::when_used_as_spec(spec_bits)]
    pub fn bits(self) -> (r: u8)
        ensures
            r == self.spec_bits(),
            r < 16,
    {
        match self {
            OpCode::DataCode(DataCode::Continuation) => 0,
            OpCode::DataCode(DataCode::Text) => 1,
            OpCode::DataCode(DataCode::Binary) => 2,
            OpCode::ControlCode(ControlCode::Close) => 8,
            OpCode::ControlCode(ControlCode::Ping) => 9,
            OpCode::ControlCode(ControlCode::Pong) => 10,
        }
    }

    pub fn from_bits(bits: u8) -> (r: Option<OpCode>)
        ensures
            r == OpCode::spec_from_bits(bits),
    {
        match bits {
            0 => Some(OpCode::DataCode(DataCode::Continuation)),
            1 => Some(OpCode::DataCode(DataCode::Text)),
            2 => Some(OpCode::DataCode(DataCode::Binary)),
            8 => Some(OpCode::ControlCode(ControlCode::Close)),
            9 => Some(OpCode::ControlCode(ControlCode::Ping)),
            10 => Some(OpCode::ControlCode(ControlCode::Pong)),
            _ => None,
        }
    }

    #[verifier::when_used_as_spec(spec_is_control)]
    pub fn is_control(self) -> (r: bool)
        ensures
            r == self.spec_is_control(),
    {
        matches!(self, OpCode::ControlCode(_))
    }
}

} // verus!
