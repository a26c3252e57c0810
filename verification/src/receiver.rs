//! The receiving half of a connection: the bytes that came from the wire in, messages out.
//!
//! The receiver keeps what has come and was not yet read, so that a frame may arrive in any
//! number of pieces. Reading takes frames from the head of those bytes until a message can be
//! handed out. Control frames are handed out at once, between the fragments of a message that
//! is in progress and without touching it; a ping and a close are answered on the way, and the
//! answer comes back beside the message, as the bytes of one whole frame for the wire.
//!
//! A caller that brings a buffer of its own reads items in place of messages: the payloads of
//! messages are gathered in that buffer, and nothing is answered.

use vstd::prelude::*;
use crate::buffer::buffer_has_room;
use crate::buffer::buffer_try_extend;
use crate::buffer::spec_buffer_bytes;
use crate::buffer::spec_buffer_limit;
use crate::connection::ConnectionState;
use crate::connection::WebSocketConfig;
use crate::errors::Error;
use crate::extension::extension_decode;
use crate::extension::decoder_reserved;
use crate::extension::spec_decoder_after;
use crate::extension::spec_decoder_reserved;
use crate::extension::spec_extension_decode;
use crate::extension::ExtensionDecoder;
use crate::fragment::spec_next_state;
use crate::fragment::spec_on_frame;
use crate::fragment::FragmentBuffer;
use crate::fragment::FragmentState;
use crate::fragment::Reassembly;
use crate::frame::decode_frame;
use crate::frame::spec_decode_frame;
use crate::frame::DecodeRules;
use crate::frame::Decoded;
use crate::frame::Frame;
use crate::frame::FrameView;
use crate::frame::HeaderFlags;
use crate::message::spec_message_of;
use crate::message::Message;
use crate::message::MessageView;
use crate::protocol::ControlCode;
use crate::protocol::DataCode;
use crate::protocol::OpCode;
use crate::protocol::Role;
use crate::sender::key_for;
use crate::sender::spec_on_wire;
use crate::sender::wire_frame;

verus! {

/// A message that was read, and the answer that it calls for.
#[derive(Clone, Debug, PartialEq, Eq)]
pub struct Incoming {
    pub message: Message,
    /// The bytes of the frame that answers the message: a pong for a ping, a close for a close.
    /// They have to go on the wire before anything that is sent later.
    pub reply: Option<Vec<u8>>,
}

/// What a receiver is, as a mathematical value.
pub struct ReceiverView<De> {
    pub role: Role,
    pub decoder: Option<De>,
    pub config: WebSocketConfig,
    /// The message in progress.
    pub fragment: FragmentState,
    /// The bytes that came and were not read yet.
    pub pending: Seq<u8>,
    pub state: ConnectionState,
    /// Whether the rest of a message that was over the limit is being passed over.
    pub discarding: bool,
    /// The payload of the ping that this side sent last and that awaits its pong. It is empty
    /// where none does.
    pub awaited: Seq<u8>,
}

/// What one frame leads to.
pub enum Taken<De> {
    /// The frame was taken in, and there is nothing to hand out yet.
    Absorbed(ReceiverView<De>),
    /// The frame was refused.
    Failed(ReceiverView<De>, Error),
    /// The frame completed a message, which may call for an answer with this opcode and this
    /// payload.
    Delivered(ReceiverView<De>, MessageView, Option<(ControlCode, Seq<u8>)>),
}

/// What reading leads to.
pub enum Step<De> {
    /// No whole frame is there: more bytes are needed.
    Wait(ReceiverView<De>),
    /// Reading failed.
    Fail(ReceiverView<De>, Error),
    /// A message, and the answer that it calls for.
    Deliver(ReceiverView<De>, MessageView, Option<(ControlCode, Seq<u8>)>),
}

/// What a receiver accepts in a frame: masking by its role, the reserved bits that its
/// extension accepts, a payload within its limit for one frame.
pub open spec fn spec_rules<De: ExtensionDecoder>(s: ReceiverView<De>) -> DecodeRules {
    DecodeRules {
        role: s.role,
        reserved: spec_decoder_reserved(s.decoder),
        max_frame_size: s.config.max_frame_size,
    }
}

/// What a control frame leads to. The message in progress is not read and not changed.
///
/// A ping is handed out and answered by a pong with the same payload. A pong is handed out;
/// where a ping of this side awaits its pong, the pong has to carry that ping's payload, and
/// no ping awaits it any more. A close is handed out and closes the connection; it is answered
/// by a close with the same payload, unless this side has sent its close already.
pub open spec fn spec_take_control<De: ExtensionDecoder>(
    s: ReceiverView<De>,
    code: ControlCode,
    payload: Seq<u8>,
) -> Taken<De> {
    let answers: bool = s.state == ConnectionState::Open;
    match code {
        ControlCode::Ping => Taken::Delivered(
            s,
            MessageView::Ping(payload),
            if s.state != ConnectionState::Closed {
                Some((ControlCode::Pong, payload))
            } else {
                None
            },
        ),
        ControlCode::Pong => if s.awaited.len() == 0 {
            Taken::Delivered(s, MessageView::Pong(payload), None)
        } else if s.awaited == payload {
            Taken::Delivered(
                ReceiverView { awaited: Seq::<u8>::empty(), ..s },
                MessageView::Pong(payload),
                None,
            )
        } else {
            Taken::Failed(
                ReceiverView { state: ConnectionState::Closed, ..s },
                Error::Protocol(crate::errors::ProtocolError::UnexpectedPong),
            )
        },
        ControlCode::Close => match spec_message_of(OpCode::ControlCode(ControlCode::Close), payload) {
            Err(e) => Taken::Failed(ReceiverView { state: ConnectionState::Closed, ..s }, e),
            Ok(m) => Taken::Delivered(
                ReceiverView { state: ConnectionState::Closed, ..s },
                m,
                if answers {
                    Some((ControlCode::Close, payload))
                } else {
                    None
                },
            ),
        },
    }
}

/// What a data frame leads to. Its payload goes through the extension and then into the
/// message in progress.
///
/// A message over the limit fails with a capacity error. Where the configuration says so, that
/// closes the connection; where not, the frames of that message that are still to come are
/// passed over, up to the one with the final flag. Every other failure closes the connection.
pub open spec fn spec_take_data<De: ExtensionDecoder>(
    s: ReceiverView<De>,
    code: DataCode,
    flags: HeaderFlags,
    payload: Seq<u8>,
) -> Taken<De> {
    let moved = ReceiverView { decoder: spec_decoder_after(s.decoder, payload, flags, code), ..s };
    let ended = ReceiverView {
        state: ConnectionState::Closed,
        fragment: FragmentState::Idle,
        discarding: false,
        ..moved
    };
    match spec_extension_decode(s.decoder, payload, flags, code) {
        None => Taken::Failed(ended, Error::Extension),
        Some(plain) => if s.discarding {
            if code == DataCode::Continuation {
                Taken::Absorbed(ReceiverView { discarding: !flags.fin, ..moved })
            } else {
                Taken::Failed(
                    ended,
                    Error::Protocol(crate::errors::ProtocolError::InterleavedData),
                )
            }
        } else {
            match spec_on_frame(s.fragment, code, flags.fin, plain, s.config.max_message_size) {
                Reassembly::Pending => Taken::Absorbed(
                    ReceiverView {
                        fragment: spec_next_state(
                            s.fragment,
                            code,
                            flags.fin,
                            plain,
                            s.config.max_message_size,
                        ),
                        ..moved
                    },
                ),
                Reassembly::Complete(first, bytes) => match spec_message_of(
                    OpCode::DataCode(first),
                    bytes,
                ) {
                    Ok(m) => Taken::Delivered(
                        ReceiverView { fragment: FragmentState::Idle, ..moved },
                        m,
                        None,
                    ),
                    Err(e) => Taken::Failed(ended, e),
                },
                Reassembly::Failed(e) => if e == Error::Capacity
                    && !s.config.capacity_error_closes {
                    Taken::Failed(
                        ReceiverView {
                            fragment: FragmentState::Idle,
                            discarding: !flags.fin,
                            ..moved
                        },
                        e,
                    )
                } else {
                    Taken::Failed(ended, e)
                },
            }
        },
    }
}

/// What a frame leads to.
pub open spec fn spec_take_frame<De: ExtensionDecoder>(s: ReceiverView<De>, f: FrameView) -> Taken<
    De,
> {
    match f.opcode {
        OpCode::ControlCode(code) => spec_take_control(s, code, f.payload),
        OpCode::DataCode(code) => spec_take_data(s, code, f.flags, f.payload),
    }
}

/// What reading leads to: the frames at the head of the pending bytes are taken one by one,
/// until one of them completes a message or fails, or until no whole frame is left. A frame
/// that cannot be accepted closes the connection, and a closed connection reads nothing.
pub open spec fn spec_read<De: ExtensionDecoder>(s: ReceiverView<De>) -> Step<De>
    decreases s.pending.len(),
{
    if s.state == ConnectionState::Closed {
        Step::Fail(s, Error::Closed)
    } else {
        match spec_decode_frame(s.pending, spec_rules(s)) {
            Decoded::Incomplete => Step::Wait(s),
            Decoded::Invalid(e) => Step::Fail(
                ReceiverView { state: ConnectionState::Closed, ..s },
                Error::Protocol(e),
            ),
            Decoded::Complete(f, n) => match spec_take_frame(
                ReceiverView { pending: s.pending.skip(n as int), ..s },
                f,
            ) {
                Taken::Absorbed(after) => spec_read(after),
                Taken::Failed(after, e) => Step::Fail(after, e),
                Taken::Delivered(after, m, reply) => Step::Deliver(after, m, reply),
            },
        }
    }
}

/// What is read when the payloads of messages go into a buffer of the caller's: a message,
/// whose payload is then in the buffer, or a control frame with its payload.
#[derive(Clone, Debug, PartialEq, Eq)]
pub enum Item {
    Binary,
    Text,
    Ping(Vec<u8>),
    Pong(Vec<u8>),
    Close(Vec<u8>),
}

/// What an item is, as a mathematical value.
pub enum ItemView {
    Binary,
    Text,
    Ping(Seq<u8>),
    Pong(Seq<u8>),
    Close(Seq<u8>),
}

impl View for Item {
    type V = ItemView;

    open spec fn view(&self) -> ItemView {
        match self {
            Item::Binary => ItemView::Binary,
            Item::Text => ItemView::Text,
            Item::Ping(p) => ItemView::Ping(p@),
            Item::Pong(p) => ItemView::Pong(p@),
            Item::Close(p) => ItemView::Close(p@),
        }
    }
}

/// The item that stands for a control frame.
pub open spec fn spec_control_item(code: ControlCode, payload: Seq<u8>) -> ItemView {
    match code {
        ControlCode::Ping => ItemView::Ping(payload),
        ControlCode::Pong => ItemView::Pong(payload),
        ControlCode::Close => ItemView::Close(payload),
    }
}

/// The item that stands for a message whose first frame had this opcode. A continuation
/// begins no message.
pub open spec fn spec_message_item(first: DataCode) -> Option<ItemView> {
    match first {
        DataCode::Text => Some(ItemView::Text),
        DataCode::Binary => Some(ItemView::Binary),
        DataCode::Continuation => None,
    }
}

/// What one frame leads to when payloads go into the caller's buffer.
pub enum ItemTaken<De> {
    /// The frame was taken in, and there is nothing to hand out yet. The buffer holds this.
    Absorbed(ReceiverView<De>, Seq<u8>),
    /// The frame was refused. The buffer holds what it held.
    Failed(ReceiverView<De>, Error),
    /// The frame gives an item. The buffer holds this.
    Delivered(ReceiverView<De>, ItemView, Seq<u8>),
}

/// What reading an item leads to.
pub struct ItemRead<De> {
    /// The receiver afterwards.
    pub after: ReceiverView<De>,
    /// What the caller's buffer holds afterwards.
    pub buffer: Seq<u8>,
    /// The item, `None` where no whole frame is left, or why reading failed.
    pub result: Result<Option<ItemView>, Error>,
}

/// How a data frame is judged when its payload goes into a buffer that holds `held` bytes:
/// as the message in progress judges it, and as a message over the limit where the buffer has
/// no room for the payload.
pub open spec fn spec_judge_for_buffer(
    state: FragmentState,
    code: DataCode,
    fin: bool,
    plain: Seq<u8>,
    max_message_size: usize,
    held: nat,
) -> Reassembly {
    match spec_on_frame(state, code, fin, plain, max_message_size) {
        Reassembly::Failed(e) => Reassembly::Failed(e),
        judged => if held + plain.len() > spec_buffer_limit() {
            Reassembly::Failed(Error::Capacity)
        } else {
            judged
        },
    }
}

/// What a data frame leads to when payloads go into the caller's buffer, which holds
/// `buffer`.
///
/// The payload goes through the extension. The frame is then judged as the message in
/// progress judges it: a continuation needs a message in progress, another frame needs that
/// there is none, and the bytes of the message may not be more than the limit. A frame that
/// passes is added to the message in progress and appended to the buffer; the one with the
/// final flag gives the item of the message, by the opcode of its first frame. Failures end
/// as they do when messages are read.
pub open spec fn spec_item_of_data<De: ExtensionDecoder>(
    s: ReceiverView<De>,
    buffer: Seq<u8>,
    code: DataCode,
    flags: HeaderFlags,
    payload: Seq<u8>,
) -> ItemTaken<De> {
    let moved = ReceiverView { decoder: spec_decoder_after(s.decoder, payload, flags, code), ..s };
    let ended = ReceiverView {
        state: ConnectionState::Closed,
        fragment: FragmentState::Idle,
        discarding: false,
        ..moved
    };
    match spec_extension_decode(s.decoder, payload, flags, code) {
        None => ItemTaken::Failed(ended, Error::Extension),
        Some(plain) => if s.discarding {
            if code == DataCode::Continuation {
                ItemTaken::Absorbed(ReceiverView { discarding: !flags.fin, ..moved }, buffer)
            } else {
                ItemTaken::Failed(
                    ended,
                    Error::Protocol(crate::errors::ProtocolError::InterleavedData),
                )
            }
        } else {
            match spec_judge_for_buffer(
                s.fragment,
                code,
                flags.fin,
                plain,
                s.config.max_message_size,
                buffer.len(),
            ) {
                Reassembly::Pending => ItemTaken::Absorbed(
                    ReceiverView {
                        fragment: spec_next_state(
                            s.fragment,
                            code,
                            flags.fin,
                            plain,
                            s.config.max_message_size,
                        ),
                        ..moved
                    },
                    buffer + plain,
                ),
                Reassembly::Complete(first, _) => match spec_message_item(first) {
                    Some(item) => ItemTaken::Delivered(
                        ReceiverView { fragment: FragmentState::Idle, ..moved },
                        item,
                        buffer + plain,
                    ),
                    None => ItemTaken::Failed(
                        ended,
                        Error::Protocol(crate::errors::ProtocolError::UnexpectedContinuation),
                    ),
                },
                Reassembly::Failed(e) => if e == Error::Capacity
                    && !s.config.capacity_error_closes {
                    ItemTaken::Failed(
                        ReceiverView {
                            fragment: FragmentState::Idle,
                            discarding: !flags.fin,
                            ..moved
                        },
                        e,
                    )
                } else {
                    ItemTaken::Failed(ended, e)
                },
            }
        },
    }
}

/// What a frame leads to when payloads go into the caller's buffer. A control frame gives its
/// item at once: the message in progress, the buffer and the state of the connection stay as
/// they are, nothing is answered, and a pong is not held against any ping.
pub open spec fn spec_item_of_frame<De: ExtensionDecoder>(
    s: ReceiverView<De>,
    buffer: Seq<u8>,
    f: FrameView,
) -> ItemTaken<De> {
    match f.opcode {
        OpCode::ControlCode(code) => ItemTaken::Delivered(
            s,
            spec_control_item(code, f.payload),
            buffer,
        ),
        OpCode::DataCode(code) => spec_item_of_data(s, buffer, code, f.flags, f.payload),
    }
}

/// What reading an item leads to, for a caller whose buffer holds `buffer`: the frames at the
/// head of the pending bytes are taken one by one, until one of them gives an item or fails,
/// or until no whole frame is left. The fragments of a message are gathered in the buffer, and
/// the message is handed out once, when it is whole. A frame that cannot be accepted closes
/// the connection, and a closed connection reads nothing.
pub open spec fn spec_read_item<De: ExtensionDecoder>(s: ReceiverView<De>, buffer: Seq<u8>) -> ItemRead<
    De,
>
    decreases s.pending.len(),
{
    if s.state == ConnectionState::Closed {
        ItemRead { after: s, buffer: buffer, result: Err(Error::Closed) }
    } else {
        match spec_decode_frame(s.pending, spec_rules(s)) {
            Decoded::Incomplete => ItemRead { after: s, buffer: buffer, result: Ok(None) },
            Decoded::Invalid(e) => ItemRead {
                after: ReceiverView { state: ConnectionState::Closed, ..s },
                buffer: buffer,
                result: Err(Error::Protocol(e)),
            },
            Decoded::Complete(f, n) => match spec_item_of_frame(
                ReceiverView { pending: s.pending.skip(n as int), ..s },
                buffer,
                f,
            ) {
                ItemTaken::Absorbed(after, held) => spec_read_item(after, held),
                ItemTaken::Failed(after, e) => ItemRead { after: after, buffer: buffer, result: Err(e) },
                ItemTaken::Delivered(after, item, held) => ItemRead {
                    after: after,
                    buffer: held,
                    result: Ok(Some(item)),
                },
            },
        }
    }
}

/// The receiving half of a connection.
#[derive(Debug)]
pub struct Receiver<De> {
    role: Role,
    decoder: Option<De>,
    config: WebSocketConfig,
    fragment: FragmentBuffer,
    pending: Vec<u8>,
    state: ConnectionState,
    discarding: bool,
    awaited: Vec<u8>,
}

impl<De> View for Receiver<De> {
    type V = ReceiverView<De>;

    closed spec fn view(&self) -> ReceiverView<De> {
        ReceiverView {
            role: self.role,
            decoder: self.decoder,
            config: self.config,
            fragment: self.fragment@,
            pending: self.pending@,
            state: self.state,
            discarding: self.discarding,
            awaited: self.awaited@,
        }
    }
}

impl<De: ExtensionDecoder> Receiver<De> {
    /// The receiving half of an open connection. `pending` holds what came from the wire
    /// after the handshake already.
    pub fn new(role: Role, decoder: Option<De>, config: WebSocketConfig, pending: Vec<u8>) -> (r:
        Self)
        ensures
            r@ == (ReceiverView {
                role: role,
                decoder: decoder,
                config: config,
                fragment: FragmentState::Idle,
                pending: pending@,
                state: ConnectionState::Open,
                discarding: false,
                awaited: Seq::<u8>::empty(),
            }),
    {
        Receiver {
            role: role,
            decoder: decoder,
            config: config,
            fragment: FragmentBuffer::new(),
            pending: pending,
            state: ConnectionState::Open,
            discarding: false,
            awaited: Vec::new(),
        }
    }

    /// The receiving half of an open connection that gathers the fragments of messages in
    /// `codec`. A message that `codec` holds in progress goes on.
    pub fn with_codec(
        role: Role,
        decoder: Option<De>,
        config: WebSocketConfig,
        pending: Vec<u8>,
        codec: FragmentBuffer,
    ) -> (r: Self)
        ensures
            r@ == (ReceiverView {
                role: role,
                decoder: decoder,
                config: config,
                fragment: codec@,
                pending: pending@,
                state: ConnectionState::Open,
                discarding: false,
                awaited: Seq::<u8>::empty(),
            }),
    {
        Receiver {
            role: role,
            decoder: decoder,
            config: config,
            fragment: codec,
            pending: pending,
            state: ConnectionState::Open,
            discarding: false,
            awaited: Vec::new(),
        }
    }

    pub fn role(&self) -> (r: Role)
        ensures
            r == self@.role,
    {
        self.role
    }

    pub fn config(&self) -> (r: &WebSocketConfig)
        ensures
            *r == self@.config,
    {
        &self.config
    }

    pub fn state(&self) -> (r: ConnectionState)
        ensures
            r == self@.state,
    {
        self.state
    }

    /// The number of bytes that came and were not read yet.
    pub fn pending_len(&self) -> (r: usize)
        ensures
            r == self@.pending.len(),
    {
        self.pending.len()
    }

    /// Whether a fragmented message is in progress.
    pub fn in_progress(&self) -> (r: bool)
        ensures
            r == (self@.fragment != FragmentState::Idle),
    {
        !self.fragment.is_idle()
    }

    /// Takes in bytes that came from the wire. They are read later, in the order in which
    /// they came.
    pub fn receive(&mut self, bytes: &[u8])
        ensures
            final(self)@ == (ReceiverView { pending: old(self)@.pending + bytes@, ..old(self)@ }),
    {
        self.pending.extend_from_slice(bytes);
        assert(self.pending@ =~= old(self).pending@ + bytes@);
    }

    /// Records that this side has sent its close: the peer's close is not answered then.
    pub fn close_sent(&mut self)
        ensures
            final(self)@ == (ReceiverView {
                state: old(self)@.state.spec_after_close_sent(),
                ..old(self)@
            }),
    {
        self.state = self.state.after_close_sent();
    }

    /// Records that this side has sent a ping with these bytes: the next pong has to carry
    /// them, unless they are none.
    pub fn ping_sent(&mut self, payload: &[u8])
        ensures
            final(self)@ == (ReceiverView { awaited: payload@, ..old(self)@ }),
    {
        self.awaited = vstd::slice::slice_to_vec(payload);
    }

    /// Records that the transport has ended, and says what to report: that the connection is
    /// closed, if it was closed already, and else that the transport failed. Bytes of a frame
    /// that has not come whole stay unread.
    pub fn end_of_stream(&mut self) -> (e: Error)
        ensures
            final(self)@ == (ReceiverView { state: ConnectionState::Closed, ..old(self)@ }),
            e == if old(self)@.state == ConnectionState::Closed {
                Error::Closed
            } else {
                Error::Io
            },
    {
        let e = if self.state.is_closed() {
            Error::Closed
        } else {
            Error::Io
        };
        self.state = ConnectionState::Closed;
        e
    }

    /// The rules by which this receiver accepts a frame.
    pub fn rules(&self) -> (r: DecodeRules)
        ensures
            r == spec_rules(self@),
    {
        DecodeRules {
            role: self.role,
            reserved: decoder_reserved(&self.decoder),
            max_frame_size: self.config.max_frame_size,
        }
    }

    /// The answer to a control frame, as this end sends it.
    fn reply(&self, answer: Option<(ControlCode, Vec<u8>)>) -> (r: Option<Vec<u8>>)
        ensures
            match answer {
                None => r is None,
                Some(a) => r matches Some(bytes) && spec_on_wire(
                    bytes@,
                    self@.role,
                    HeaderFlags { fin: true, rsv1: false, rsv2: false, rsv3: false },
                    OpCode::ControlCode(a.0),
                    a.1@,
                ),
            },
    {
        match answer {
            None => None,
            Some(a) => {
                let key: u32 = key_for(self.role);
                Some(
                    wire_frame(
                        self.role,
                        key,
                        HeaderFlags::fin(),
                        OpCode::ControlCode(a.0),
                        a.1.as_slice(),
                    ),
                )
            },
        }
    }

    /// Takes one frame in. `Ok(None)` says that there is nothing to hand out yet.
    pub fn take_frame(&mut self, frame: Frame) -> (r: Result<Option<Incoming>, Error>)
        ensures
            match spec_take_frame(old(self)@, frame@) {
                Taken::Absorbed(after) => r matches Ok(found) && found is None && final(self)@
                    == after,
                Taken::Failed(after, e) => r matches Err(found) && found == e && final(self)@
                    == after,
                Taken::Delivered(after, m, answer) => r matches Ok(Some(found)) && found.message@
                    == m && final(self)@ == after && (match answer {
                    None => found.reply is None,
                    Some(a) => found.reply matches Some(bytes) && spec_on_wire(
                        bytes@,
                        old(self)@.role,
                        HeaderFlags { fin: true, rsv1: false, rsv2: false, rsv3: false },
                        OpCode::ControlCode(a.0),
                        a.1,
                    ),
                }),
            },
    {
        let Frame { flags, opcode, mask: _, payload } = frame;
        match opcode {
            OpCode::ControlCode(code) => self.take_control(code, payload),
            OpCode::DataCode(code) => self.take_data(code, flags, payload),
        }
    }

    fn take_control(&mut self, code: ControlCode, payload: Vec<u8>) -> (r: Result<
        Option<Incoming>,
        Error,
    >)
        ensures
            match spec_take_control(old(self)@, code, payload@) {
                Taken::Absorbed(after) => r matches Ok(found) && found is None && final(self)@
                    == after,
                Taken::Failed(after, e) => r matches Err(found) && found == e && final(self)@
                    == after,
                Taken::Delivered(after, m, answer) => r matches Ok(Some(found)) && found.message@
                    == m && final(self)@ == after && (match answer {
                    None => found.reply is None,
                    Some(a) => found.reply matches Some(bytes) && spec_on_wire(
                        bytes@,
                        old(self)@.role,
                        HeaderFlags { fin: true, rsv1: false, rsv2: false, rsv3: false },
                        OpCode::ControlCode(a.0),
                        a.1,
                    ),
                }),
            },
    {
        let answers: bool = self.state.is_open();
        match code {
            ControlCode::Ping => {
                let reply = if !self.state.is_closed() {
                    self.reply(Some((ControlCode::Pong, payload.clone())))
                } else {
                    None
                };
                Ok(Some(Incoming { message: Message::Ping(payload), reply: reply }))
            },
            ControlCode::Pong => {
                if self.awaited.len() != 0 {
                    if !crate::handshake::same_bytes(self.awaited.as_slice(), payload.as_slice()) {
                        self.state = ConnectionState::Closed;
                        return Err(Error::Protocol(crate::errors::ProtocolError::UnexpectedPong));
                    }
                    self.awaited = Vec::new();
                    assert(self.awaited@ =~= Seq::<u8>::empty());
                }
                Ok(Some(Incoming { message: Message::Pong(payload), reply: None }))
            },
            ControlCode::Close => {
                let echo: Vec<u8> = payload.clone();
                self.state = ConnectionState::Closed;
                match Message::from_parts(OpCode::ControlCode(ControlCode::Close), payload) {
                    Err(e) => Err(e),
                    Ok(message) => {
                        let reply = if answers {
                            self.reply(Some((ControlCode::Close, echo)))
                        } else {
                            None
                        };
                        Ok(Some(Incoming { message: message, reply: reply }))
                    },
                }
            },
        }
    }

    fn end(&mut self)
        ensures
            final(self)@ == (ReceiverView {
                state: ConnectionState::Closed,
                fragment: FragmentState::Idle,
                discarding: false,
                ..old(self)@
            }),
    {
        self.state = ConnectionState::Closed;
        self.fragment.reset();
        self.discarding = false;
    }

    fn take_data(&mut self, code: DataCode, flags: HeaderFlags, payload: Vec<u8>) -> (r: Result<
        Option<Incoming>,
        Error,
    >)
        ensures
            match spec_take_data(old(self)@, code, flags, payload@) {
                Taken::Absorbed(after) => r matches Ok(found) && found is None && final(self)@
                    == after,
                Taken::Failed(after, e) => r matches Err(found) && found == e && final(self)@
                    == after,
                Taken::Delivered(after, m, answer) => r matches Ok(Some(found)) && found.message@
                    == m && final(self)@ == after && answer is None && found.reply is None,
            },
    {
        let mut payload = payload;
        match extension_decode(&mut self.decoder, &mut payload, flags, code) {
            Err(e) => {
                self.end();
                return Err(e);
            },
            Ok(_) => {},
        }
        if self.discarding {
            if matches!(code, DataCode::Continuation) {
                self.discarding = !flags.fin;
                return Ok(None);
            }
            self.end();
            return Err(Error::Protocol(crate::errors::ProtocolError::InterleavedData));
        }
        match self.fragment.on_frame(code, flags.fin, payload, self.config.max_message_size) {
            Ok(None) => Ok(None),
            Ok(Some(whole)) => match Message::from_parts(OpCode::DataCode(whole.0), whole.1) {
                Ok(message) => Ok(Some(Incoming { message: message, reply: None })),
                Err(e) => {
                    self.end();
                    Err(e)
                },
            },
            Err(e) => {
                if e.is_capacity() && !self.config.capacity_error_closes {
                    self.discarding = !flags.fin;
                } else {
                    self.end();
                }
                Err(e)
            },
        }
    }

    /// Takes one data frame in, its payload into the caller's buffer.
    fn item_of_data(
        &mut self,
        read_buffer: &mut bytes::BytesMut,
        code: DataCode,
        flags: HeaderFlags,
        payload: Vec<u8>,
    ) -> (r: Result<Option<Item>, Error>)
        ensures
            match spec_item_of_data(
                old(self)@,
                spec_buffer_bytes(*old(read_buffer)),
                code,
                flags,
                payload@,
            ) {
                ItemTaken::Absorbed(after, held) => r matches Ok(found) && found is None
                    && final(self)@ == after && spec_buffer_bytes(*final(read_buffer)) == held,
                ItemTaken::Failed(after, e) => r matches Err(found) && found == e && final(self)@
                    == after && spec_buffer_bytes(*final(read_buffer)) == spec_buffer_bytes(
                    *old(read_buffer),
                ),
                ItemTaken::Delivered(after, item, held) => r matches Ok(Some(found)) && found@
                    == item && final(self)@ == after && spec_buffer_bytes(*final(read_buffer))
                    == held,
            },
    {
        let mut payload = payload;
        match extension_decode(&mut self.decoder, &mut payload, flags, code) {
            Err(e) => {
                self.end();
                return Err(e);
            },
            Ok(_) => {},
        }
        if self.discarding {
            if matches!(code, DataCode::Continuation) {
                self.discarding = !flags.fin;
                return Ok(None);
            }
            self.end();
            return Err(Error::Protocol(crate::errors::ProtocolError::InterleavedData));
        }
        let fits: bool = buffer_has_room(read_buffer, payload.len());
        let plain: Vec<u8> = payload.clone();
        let judged = match self.fragment.on_frame(
            code,
            flags.fin,
            payload,
            self.config.max_message_size,
        ) {
            Ok(found) => if fits {
                Ok(found)
            } else {
                self.fragment.reset();
                Err(Error::Capacity)
            },
            Err(e) => Err(e),
        };
        match judged {
            Err(e) => {
                if e.is_capacity() && !self.config.capacity_error_closes {
                    self.discarding = !flags.fin;
                } else {
                    self.end();
                }
                Err(e)
            },
            Ok(None) => {
                buffer_try_extend(read_buffer, plain.as_slice());
                Ok(None)
            },
            Ok(Some(whole)) => match whole.0 {
                DataCode::Text => {
                    buffer_try_extend(read_buffer, plain.as_slice());
                    Ok(Some(Item::Text))
                },
                DataCode::Binary => {
                    buffer_try_extend(read_buffer, plain.as_slice());
                    Ok(Some(Item::Binary))
                },
                DataCode::Continuation => {
                    self.end();
                    Err(Error::Protocol(crate::errors::ProtocolError::UnexpectedContinuation))
                },
            },
        }
    }

    /// Takes one frame in, the payload of a data frame into the caller's buffer. `Ok(None)`
    /// says that there is nothing to hand out yet.
    pub fn item_of_frame(&mut self, read_buffer: &mut bytes::BytesMut, frame: Frame) -> (r: Result<
        Option<Item>,
        Error,
    >)
        ensures
            match spec_item_of_frame(old(self)@, spec_buffer_bytes(*old(read_buffer)), frame@) {
                ItemTaken::Absorbed(after, held) => r matches Ok(found) && found is None
                    && final(self)@ == after && spec_buffer_bytes(*final(read_buffer)) == held,
                ItemTaken::Failed(after, e) => r matches Err(found) && found == e && final(self)@
                    == after && spec_buffer_bytes(*final(read_buffer)) == spec_buffer_bytes(
                    *old(read_buffer),
                ),
                ItemTaken::Delivered(after, item, held) => r matches Ok(Some(found)) && found@
                    == item && final(self)@ == after && spec_buffer_bytes(*final(read_buffer))
                    == held,
            },
    {
        let Frame { flags, opcode, mask: _, payload } = frame;
        match opcode {
            OpCode::ControlCode(ControlCode::Ping) => Ok(Some(Item::Ping(payload))),
            OpCode::ControlCode(ControlCode::Pong) => Ok(Some(Item::Pong(payload))),
            OpCode::ControlCode(ControlCode::Close) => Ok(Some(Item::Close(payload))),
            OpCode::DataCode(code) => self.item_of_data(read_buffer, code, flags, payload),
        }
    }

    /// Reads the next item from the bytes that came. `Ok(None)` asks for more bytes.
    ///
    /// The fragments of a message are gathered in `read_buffer`, each appended as it is read,
    /// and the message is handed out once, when it is whole: its payload is then what was
    /// appended. Control frames are handed out at once, with their payload, also between the
    /// fragments of a message. Nothing is answered, a pong is not held against any ping, and
    /// text is not looked into. The message in progress is kept by the receiver as well, so
    /// that the order of the frames and the length of the message are judged as they are when
    /// messages are read.
    pub fn read_frame(&mut self, read_buffer: &mut bytes::BytesMut) -> (r: Result<
        Option<Item>,
        Error,
    >)
        ensures
            final(self)@ == spec_read_item(old(self)@, spec_buffer_bytes(*old(read_buffer))).after,
            spec_buffer_bytes(*final(read_buffer)) == spec_read_item(
                old(self)@,
                spec_buffer_bytes(*old(read_buffer)),
            ).buffer,
            match spec_read_item(old(self)@, spec_buffer_bytes(*old(read_buffer))).result {
                Ok(None) => r matches Ok(found) && found is None,
                Ok(Some(item)) => r matches Ok(Some(found)) && found@ == item,
                Err(e) => r matches Err(found) && found == e,
            },
    {
        if self.state.is_closed() {
            return Err(Error::Closed);
        }
        loop
            invariant
                self@.state != ConnectionState::Closed,
                spec_read_item(self@, spec_buffer_bytes(*read_buffer)) == spec_read_item(
                    old(self)@,
                    spec_buffer_bytes(*old(read_buffer)),
                ),
            decreases self@.pending.len(),
        {
            let rules = self.rules();
            let ghost before = self@;
            match decode_frame(self.pending.as_slice(), &rules) {
                Err(e) => {
                    self.state = ConnectionState::Closed;
                    return Err(e);
                },
                Ok(None) => {
                    return Ok(None);
                },
                Ok(Some(found)) => {
                    let (frame, n) = found;
                    let rest: Vec<u8> = self.pending.split_off(n);
                    self.pending = rest;
                    assert(self@.pending =~= before.pending.skip(n as int));
                    assert(self@ == (ReceiverView {
                        pending: before.pending.skip(n as int),
                        ..before
                    }));
                    match self.item_of_frame(read_buffer, frame) {
                        Err(e) => {
                            return Err(e);
                        },
                        Ok(Some(item)) => {
                            return Ok(Some(item));
                        },
                        Ok(None) => {
                            assert(self@.state != ConnectionState::Closed);
                            assert(self@.pending.len() < before.pending.len());
                        },
                    }
                },
            }
        }
    }

    /// Reads the next message from the bytes that came. `Ok(None)` asks for more bytes.
    pub fn read(&mut self) -> (r: Result<Option<Incoming>, Error>)
        ensures
            match spec_read(old(self)@) {
                Step::Wait(after) => r matches Ok(found) && found is None && final(self)@ == after,
                Step::Fail(after, e) => r matches Err(found) && found == e && final(self)@ == after,
                Step::Deliver(after, m, answer) => r matches Ok(Some(found)) && found.message@ == m
                    && final(self)@ == after && (match answer {
                    None => found.reply is None,
                    Some(a) => found.reply matches Some(bytes) && spec_on_wire(
                        bytes@,
                        old(self)@.role,
                        HeaderFlags { fin: true, rsv1: false, rsv2: false, rsv3: false },
                        OpCode::ControlCode(a.0),
                        a.1,
                    ),
                }),
            },
    {
        if self.state.is_closed() {
            return Err(Error::Closed);
        }
        loop
            invariant
                self@.state != ConnectionState::Closed,
                self@.role == old(self)@.role,
                spec_read(self@) == spec_read(old(self)@),
            decreases self@.pending.len(),
        {
            let rules = self.rules();
            let ghost before = self@;
            match decode_frame(self.pending.as_slice(), &rules) {
                Err(e) => {
                    self.state = ConnectionState::Closed;
                    return Err(e);
                },
                Ok(None) => {
                    return Ok(None);
                },
                Ok(Some(found)) => {
                    let (frame, n) = found;
                    let rest: Vec<u8> = self.pending.split_off(n);
                    self.pending = rest;
                    assert(self@.pending =~= before.pending.skip(n as int));
                    assert(self@ == (ReceiverView { pending: before.pending.skip(n as int), ..before }));
                    match self.take_frame(frame) {
                        Err(e) => {
                            return Err(e);
                        },
                        Ok(Some(incoming)) => {
                            return Ok(Some(incoming));
                        },
                        Ok(None) => {
                            assert(self@.state != ConnectionState::Closed);
                            assert(self@.pending.len() < before.pending.len());
                        },
                    }
                },
            }
        }
    }
}

} // verus!
