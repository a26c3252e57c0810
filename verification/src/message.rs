//! Messages, and how each one is laid out in the payload of its frames.

use vstd::prelude::*;
use vstd::slice::slice_subrange;
use vstd::slice::slice_to_vec;
use vstd::utf8::decode_utf8;
use vstd::utf8::encode_utf8;
use vstd::utf8::valid_utf8;
use crate::errors::Error;
use crate::errors::ProtocolError;
use crate::protocol::ControlCode;
use crate::protocol::DataCode;
use crate::protocol::OpCode;
use crate::protocol::CLOSE_NO_STATUS;

verus! {

/// What an application sends and receives.
#[derive(Clone, Debug, PartialEq, Eq)]
pub enum Message {
    /// Text, which travels as UTF-8.
    Text(String),
    /// Bytes.
    Binary(Vec<u8>),
    /// A ping, with at most 125 bytes.
    Ping(Vec<u8>),
    /// A pong, with at most 125 bytes.
    Pong(Vec<u8>),
    /// The end of the connection: a code and a reason. A close frame without a payload stands
    /// for the code 1005 and no reason.
    Close(u16, String),
}

/// What a message is, as a mathematical value.
pub enum MessageView {
    Text(Seq<char>),
    Binary(Seq<u8>),
    Ping(Seq<u8>),
    Pong(Seq<u8>),
    Close(u16, Seq<char>),
}

impl View for Message {
    type V = MessageView;

    open spec fn view(&self) -> MessageView {
        match self {
            Message::Text(s) => MessageView::Text(s@),
            Message::Binary(b) => MessageView::Binary(b@),
            Message::Ping(b) => MessageView::Ping(b@),
            Message::Pong(b) => MessageView::Pong(b@),
            Message::Close(code, reason) => MessageView::Close(*code, reason@),
        }
    }
}

/// The opcode of the frame that begins a message.
pub open spec fn spec_message_opcode(m: MessageView) -> OpCode {
    match m {
        MessageView::Text(_) => OpCode::DataCode(DataCode::Text),
        MessageView::Binary(_) => OpCode::DataCode(DataCode::Binary),
        MessageView::Ping(_) => OpCode::ControlCode(ControlCode::Ping),
        MessageView::Pong(_) => OpCode::ControlCode(ControlCode::Pong),
        MessageView::Close(_, _) => OpCode::ControlCode(ControlCode::Close),
    }
}

/// The two bytes of a close code, most significant first.
pub open spec fn spec_code_bytes(code: u16) -> Seq<u8> {
    seq![(code / 256) as u8, (code % 256) as u8]
}

/// The bytes of a message: text as UTF-8, a close as its code and then its reason as UTF-8, or
/// as nothing at all where the code is 1005 and the reason is empty.
pub open spec fn spec_message_payload(m: MessageView) -> Seq<u8> {
    match m {
        MessageView::Text(s) => encode_utf8(s),
        MessageView::Binary(b) => b,
        MessageView::Ping(b) => b,
        MessageView::Pong(b) => b,
        MessageView::Close(code, reason) => if code == CLOSE_NO_STATUS && reason.len() == 0 {
            Seq::<u8>::empty()
        } else {
            spec_code_bytes(code) + encode_utf8(reason)
        },
    }
}

/// The message that an opcode and the bytes that came with it stand for.
///
/// Text and a close reason have to be UTF-8, and a close payload has no byte or at least the
/// two of its code. A continuation begins no message.
pub open spec fn spec_message_of(opcode: OpCode, payload: Seq<u8>) -> Result<MessageView, Error> {
    match opcode {
        OpCode::DataCode(DataCode::Continuation) => Err(
            Error::Protocol(ProtocolError::UnexpectedContinuation),
        ),
        OpCode::DataCode(DataCode::Text) => if valid_utf8(payload) {
            Ok(MessageView::Text(decode_utf8(payload)))
        } else {
            Err(Error::Protocol(ProtocolError::Encoding))
        },
        OpCode::DataCode(DataCode::Binary) => Ok(MessageView::Binary(payload)),
        OpCode::ControlCode(ControlCode::Ping) => Ok(MessageView::Ping(payload)),
        OpCode::ControlCode(ControlCode::Pong) => Ok(MessageView::Pong(payload)),
        OpCode::ControlCode(ControlCode::Close) => if payload.len() == 0 {
            Ok(MessageView::Close(CLOSE_NO_STATUS, Seq::<char>::empty()))
        } else if payload.len() == 1 {
            Err(Error::Protocol(ProtocolError::ClosePayload))
        } else if valid_utf8(payload.subrange(2, payload.len() as int)) {
            Ok(
                MessageView::Close(
                    (payload[0] * 256 + payload[1]) as u16,
                    decode_utf8(payload.subrange(2, payload.len() as int)),
                ),
            )
        } else {
            Err(Error::Protocol(ProtocolError::Encoding))
        },
    }
}

/// `String::from_utf8` of std: the string that the bytes spell, which there is if and only if
/// the bytes are UTF-8.
#[verifier::external_body]
fn string_from_utf8(bytes: Vec<u8>) -> (r: Option<String>)
    ensures
        (r is Some) == valid_utf8(bytes@),
        r matches Some(s) ==> s@ == decode_utf8(bytes@),
{
    String::from_utf8(bytes).ok()
}

/// The bytes of a string, which are its UTF-8 encoding.
pub fn string_bytes(s: &String) -> (r: Vec<u8>)
    ensures
        r@ == encode_utf8(s@),
{
    slice_to_vec(s.as_str().as_bytes())
}

impl Message {
    #[verifier::when_used_as_spec(spec_opcode_of)]
    pub fn opcode(&self) -> (r: OpCode)
        ensures
            r == spec_message_opcode(self@),
    {
        match self {
            Message::Text(_) => OpCode::DataCode(DataCode::Text),
            Message::Binary(_) => OpCode::DataCode(DataCode::Binary),
            Message::Ping(_) => OpCode::ControlCode(ControlCode::Ping),
            Message::Pong(_) => OpCode::ControlCode(ControlCode::Pong),
            Message::Close(_, _) => OpCode::ControlCode(ControlCode::Close),
        }
    }

    pub open spec fn spec_opcode_of(&self) -> OpCode {
        spec_message_opcode(self@)
    }

    /// The bytes that the message's frames carry, before any extension and any mask.
    pub fn payload(&self) -> (r: Vec<u8>)
        ensures
            r@ == spec_message_payload(self@),
    {
        match self {
            Message::Text(s) => string_bytes(s),
            Message::Binary(b) => b.clone(),
            Message::Ping(b) => b.clone(),
            Message::Pong(b) => b.clone(),
            Message::Close(code, reason) => {
                let text: Vec<u8> = string_bytes(reason);
                let mut out: Vec<u8> = Vec::new();
                if *code == CLOSE_NO_STATUS && text.len() == 0 {
                    proof {
                        lemma_encoding_is_empty_only_for_empty(reason@);
                    }
                    out
                } else {
                    proof {
                        lemma_encoding_is_empty_only_for_empty(reason@);
                    }
                    out.push((*code / 256) as u8);
                    out.push((*code % 256) as u8);
                    out.extend_from_slice(text.as_slice());
                    assert(out@ =~= spec_code_bytes(*code) + encode_utf8(reason@));
                    out
                }
            },
        }
    }

    /// The message that an opcode and the bytes that came with it stand for.
    pub fn from_parts(opcode: OpCode, payload: Vec<u8>) -> (r: Result<Message, Error>)
        ensures
            match spec_message_of(opcode, payload@) {
                Ok(m) => r matches Ok(found) && found@ == m,
                Err(e) => r matches Err(found) && found == e,
            },
    {
        match opcode {
            OpCode::DataCode(DataCode::Continuation) => Err(
                Error::Protocol(ProtocolError::UnexpectedContinuation),
            ),
            OpCode::DataCode(DataCode::Text) => match string_from_utf8(payload) {
                Some(s) => Ok(Message::Text(s)),
                None => Err(Error::Protocol(ProtocolError::Encoding)),
            },
            OpCode::DataCode(DataCode::Binary) => Ok(Message::Binary(payload)),
            OpCode::ControlCode(ControlCode::Ping) => Ok(Message::Ping(payload)),
            OpCode::ControlCode(ControlCode::Pong) => Ok(Message::Pong(payload)),
            OpCode::ControlCode(ControlCode::Close) => {
                let n: usize = payload.len();
                if n == 0 {
                    Ok(Message::Close(CLOSE_NO_STATUS, String::new()))
                } else if n == 1 {
                    Err(Error::Protocol(ProtocolError::ClosePayload))
                } else {
                    let code: u16 = payload[0] as u16 * 256 + payload[1] as u16;
                    let rest: Vec<u8> = slice_to_vec(slice_subrange(payload.as_slice(), 2, n));
                    match string_from_utf8(rest) {
                        Some(reason) => Ok(Message::Close(code, reason)),
                        None => Err(Error::Protocol(ProtocolError::Encoding)),
                    }
                }
            },
        }
    }
}

/// Only the empty text has an empty encoding.
pub proof fn lemma_encoding_is_empty_only_for_empty(text: Seq<char>)
    ensures
        (encode_utf8(text).len() == 0) == (text.len() == 0),
{
    vstd::utf8::encode_utf8_decode_utf8(text);
    vstd::utf8::encode_utf8_valid_utf8(text);
    if encode_utf8(text).len() == 0 {
        assert(decode_utf8(encode_utf8(text)).len() == 0);
    }
    if text.len() == 0 {
        assert(encode_utf8(text).len() == 0);
    }
}

/// A message is read back from its opcode and its bytes as what it was.
pub proof fn lemma_message_round_trip(m: MessageView)
    ensures
        spec_message_of(spec_message_opcode(m), spec_message_payload(m)) == Ok::<MessageView, Error>(m),
{
    match m {
        MessageView::Text(s) => {
            vstd::utf8::encode_utf8_valid_utf8(s);
            vstd::utf8::encode_utf8_decode_utf8(s);
        },
        MessageView::Close(code, reason) => {
            vstd::utf8::encode_utf8_valid_utf8(reason);
            vstd::utf8::encode_utf8_decode_utf8(reason);
            lemma_encoding_is_empty_only_for_empty(reason);
            let p = spec_message_payload(m);
            if code == CLOSE_NO_STATUS && reason.len() == 0 {
                assert(reason =~= Seq::<char>::empty());
            } else {
                assert(p.subrange(2, p.len() as int) =~= encode_utf8(reason));
                assert(p[0] == (code / 256) as u8 && p[1] == (code % 256) as u8);
            }
        },
        _ => {},
    }
}

} // verus!
