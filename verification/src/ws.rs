//! A whole connection: both halves in one hand.

use vstd::prelude::*;
use crate::connection::ConnectionState;
use crate::connection::WebSocketConfig;
use crate::errors::Error;
use crate::extension::ExtensionDecoder;
use crate::extension::ExtensionEncoder;
use crate::extension::NegotiatedExtension;
use crate::fragment::FragmentBuffer;
use crate::fragment::FragmentState;
use crate::frame::HeaderFlags;
use crate::handshake::accept_request;
use crate::handshake::check_response;
use crate::handshake::spec_answers;
use crate::handshake::spec_request_error;
use crate::handshake::UpgradeAnswer;
use crate::handshake::UpgradeRequest;
use crate::handshake::spec_response_error;
use crate::handshake::ExtensionHandshake;
use crate::handshake::HandshakeResult;
use crate::handshake::ProtocolRegistry;
use crate::handshake::UpgradeResponse;
use crate::message::spec_message_opcode;
use crate::message::Message;
use crate::message::MessageView;
use crate::protocol::OpCode;
use crate::protocol::Role;
use crate::receiver::spec_read;
use crate::receiver::Incoming;
use crate::receiver::Receiver;
use crate::receiver::ReceiverView;
use crate::receiver::Step;
use crate::sender::spec_on_wire;
use crate::sender::spec_frames_on_wire;
use crate::sender::spec_state_after_write;
use crate::sender::spec_write;
use crate::sender::spec_write_fragmented;
use crate::sender::Sender;
use crate::sender::SenderView;

verus! {

/// The two halves of a connection.
#[derive(Debug)]
pub struct WebSocketInner<En, De> {
    sender: Sender<En>,
    receiver: Receiver<De>,
}

/// A connection after its handshake.
///
/// It sends and reads as its two halves do, and keeps them in step: once a close was sent the
/// peer's close is not answered, a pong is held against the ping that was sent, and once the
/// connection is closed nothing is sent.
#[derive(Debug)]
pub struct WebSocket<En, De> {
    inner: WebSocketInner<En, De>,
}

/// What a connection is, as a mathematical value.
pub struct WebSocketView<En, De> {
    pub sender: SenderView<En>,
    pub receiver: ReceiverView<De>,
}

impl<En, De> View for WebSocket<En, De> {
    type V = WebSocketView<En, De>;

    closed spec fn view(&self) -> WebSocketView<En, De> {
        WebSocketView { sender: self.inner.sender@, receiver: self.inner.receiver@ }
    }
}

/// A connection that has just been made: open, with no message in progress.
pub open spec fn spec_fresh<En, De>(
    config: WebSocketConfig,
    encoder: Option<En>,
    decoder: Option<De>,
    pending: Seq<u8>,
    role: Role,
) -> WebSocketView<En, De> {
    WebSocketView {
        sender: SenderView {
            role: role,
            encoder: encoder,
            config: config,
            state: ConnectionState::Open,
        },
        receiver: ReceiverView {
            role: role,
            decoder: decoder,
            config: config,
            fragment: FragmentState::Idle,
            pending: pending,
            state: ConnectionState::Open,
            discarding: false,
            awaited: Seq::<u8>::empty(),
        },
    }
}

/// A connection that has just been made around a buffer for fragments: open, with the message
/// in progress that the buffer holds.
pub open spec fn spec_begun<En, De>(
    config: WebSocketConfig,
    encoder: Option<En>,
    decoder: Option<De>,
    fragment: FragmentState,
    role: Role,
) -> WebSocketView<En, De> {
    WebSocketView {
        receiver: ReceiverView {
            fragment: fragment,
            ..spec_fresh(config, encoder, decoder, Seq::<u8>::empty(), role).receiver
        },
        ..spec_fresh(config, encoder, decoder, Seq::<u8>::empty(), role)
    }
}

/// The sender once the receiver stands as it does: closed with it.
pub open spec fn spec_sender_beside<En, De>(s: SenderView<En>, r: ReceiverView<De>) -> SenderView<
    En,
> {
    if r.state == ConnectionState::Closed {
        SenderView { state: ConnectionState::Closed, ..s }
    } else {
        s
    }
}

/// The receiver once a message was sent, or was not: after a close it does not answer the
/// peer's close, and after a ping it awaits the pong with the payload of that ping.
pub open spec fn spec_receiver_beside<De>(
    r: ReceiverView<De>,
    message: MessageView,
    sent: bool,
) -> ReceiverView<De> {
    if !sent {
        r
    } else {
        match message {
            MessageView::Close(_, _) => ReceiverView { state: r.state.spec_after_close_sent(), ..r },
            MessageView::Ping(payload) => ReceiverView { awaited: payload, ..r },
            _ => r,
        }
    }
}

impl<En: ExtensionEncoder, De: ExtensionDecoder> WebSocket<En, De> {
    /// The connection that a finished handshake leaves. `read_buffer` holds what came from the
    /// wire after the handshake already.
    pub fn from_upgraded(
        config: WebSocketConfig,
        extension: NegotiatedExtension<En, De>,
        read_buffer: Vec<u8>,
        role: Role,
    ) -> (r: Self)
        ensures
            r@ == spec_fresh(config, extension.encoder, extension.decoder, read_buffer@, role),
    {
        let NegotiatedExtension { encoder, decoder } = extension;
        WebSocket {
            inner: WebSocketInner {
                sender: Sender::new(role, encoder, config),
                receiver: Receiver::new(role, decoder, config, read_buffer),
            },
        }
    }

    /// The connection that a finished handshake leaves, with `codec` for the buffer in which
    /// the fragments of messages are gathered.
    pub fn with_codec(
        config: WebSocketConfig,
        extension: NegotiatedExtension<En, De>,
        codec: FragmentBuffer,
        role: Role,
    ) -> (r: Self)
        ensures
            r@ == spec_begun(config, extension.encoder, extension.decoder, codec@, role),
    {
        let NegotiatedExtension { encoder, decoder } = extension;
        WebSocket {
            inner: WebSocketInner {
                sender: Sender::new(role, encoder, config),
                receiver: Receiver::with_codec(role, decoder, config, Vec::new(), codec),
            },
        }
    }

    pub fn role(&self) -> (r: Role)
        ensures
            r == self@.sender.role,
    {
        self.inner.sender.role()
    }

    pub fn config(&self) -> (r: &WebSocketConfig)
        ensures
            *r == self@.sender.config,
    {
        self.inner.sender.config()
    }

    /// Whether nothing can be sent or read any more.
    pub fn is_closed(&self) -> (r: bool)
        ensures
            r == (self@.receiver.state == ConnectionState::Closed),
    {
        self.inner.receiver.state().is_closed()
    }

    /// Whether messages go both ways.
    pub fn is_active(&self) -> (r: bool)
        ensures
            r == (self@.sender.state == ConnectionState::Open && self@.receiver.state
                == ConnectionState::Open),
    {
        self.inner.sender.state().is_open() && self.inner.receiver.state().is_open()
    }

    /// Takes in bytes that came from the wire.
    pub fn receive(&mut self, bytes: &[u8])
        ensures
            final(self)@ == (WebSocketView {
                receiver: ReceiverView {
                    pending: old(self)@.receiver.pending + bytes@,
                    ..old(self)@.receiver
                },
                ..old(self)@
            }),
    {
        self.inner.receiver.receive(bytes);
    }

    /// Sends a message in one frame. What comes back is that frame, for the wire.
    pub fn write(&mut self, message: &Message) -> (r: Result<Vec<u8>, Error>)
        ensures
            final(self)@.sender == spec_write(old(self)@.sender, message@).after,
            final(self)@.receiver == spec_receiver_beside(
                old(self)@.receiver,
                message@,
                spec_write(old(self)@.sender, message@).frame is Ok,
            ),
            match spec_write(old(self)@.sender, message@).frame {
                Err(e) => r matches Err(found) && found == e,
                Ok(made) => r matches Ok(bytes) && spec_on_wire(
                    bytes@,
                    old(self)@.sender.role,
                    made.0,
                    spec_message_opcode(message@),
                    made.1,
                ),
            },
    {
        let r = self.inner.sender.write(message);
        if r.is_ok() {
            match message {
                Message::Close(_, _) => {
                    self.inner.receiver.close_sent();
                },
                Message::Ping(payload) => {
                    self.inner.receiver.ping_sent(payload.as_slice());
                },
                _ => {},
            }
        }
        r
    }

    /// Sends a message in fragments of `fragment_size` bytes. What comes back are all its
    /// frames, in order, for the wire.
    pub fn write_fragmented(&mut self, message: &Message, fragment_size: usize) -> (r: Result<
        Vec<u8>,
        Error,
    >)
        ensures
            final(self)@.sender == (SenderView {
                encoder: spec_write_fragmented(
                    old(self)@.sender,
                    message@,
                    fragment_size as nat,
                ).encoder,
                state: if spec_write_fragmented(
                    old(self)@.sender,
                    message@,
                    fragment_size as nat,
                ).frames is Ok {
                    spec_state_after_write(old(self)@.sender.state, message@)
                } else {
                    old(self)@.sender.state
                },
                ..old(self)@.sender
            }),
            final(self)@.receiver == spec_receiver_beside(
                old(self)@.receiver,
                message@,
                spec_write_fragmented(old(self)@.sender, message@, fragment_size as nat).frames
                    is Ok,
            ),
            match spec_write_fragmented(old(self)@.sender, message@, fragment_size as nat).frames {
                Err(e) => r matches Err(found) && found == e,
                Ok(frames) => r matches Ok(bytes) && spec_frames_on_wire(
                    bytes@,
                    old(self)@.sender.role,
                    frames,
                ),
            },
    {
        let r = self.inner.sender.write_fragmented(message, fragment_size);
        if r.is_ok() {
            match message {
                Message::Close(_, _) => {
                    self.inner.receiver.close_sent();
                },
                Message::Ping(payload) => {
                    self.inner.receiver.ping_sent(payload.as_slice());
                },
                _ => {},
            }
        }
        r
    }

    /// Reads the next message from the bytes that came. `Ok(None)` asks for more bytes. The
    /// answer to a ping or to a close comes back beside the message and has to go on the wire.
    pub fn read(&mut self) -> (r: Result<Option<Incoming>, Error>)
        ensures
            match spec_read(old(self)@.receiver) {
                Step::Wait(after) => r matches Ok(found) && found is None && final(self)@
                    == (WebSocketView {
                    sender: spec_sender_beside(old(self)@.sender, after),
                    receiver: after,
                }),
                Step::Fail(after, e) => r matches Err(found) && found == e && final(self)@
                    == (WebSocketView {
                    sender: spec_sender_beside(old(self)@.sender, after),
                    receiver: after,
                }),
                Step::Deliver(after, m, answer) => r matches Ok(Some(found)) && found.message@ == m
                    && final(self)@ == (WebSocketView {
                    sender: spec_sender_beside(old(self)@.sender, after),
                    receiver: after,
                }) && (match answer {
                    None => found.reply is None,
                    Some(a) => found.reply matches Some(bytes) && spec_on_wire(
                        bytes@,
                        old(self)@.receiver.role,
                        HeaderFlags { fin: true, rsv1: false, rsv2: false, rsv3: false },
                        OpCode::ControlCode(a.0),
                        a.1,
                    ),
                }),
            },
    {
        let r = self.inner.receiver.read();
        if self.inner.receiver.state().is_closed() {
            self.inner.sender.close();
        }
        r
    }

    /// Records that the transport has ended, and says what to report: that the connection is
    /// closed, if it was closed already, and else that the transport failed.
    pub fn end_of_stream(&mut self) -> (e: Error)
        ensures
            final(self)@ == (WebSocketView {
                sender: SenderView { state: ConnectionState::Closed, ..old(self)@.sender },
                receiver: ReceiverView { state: ConnectionState::Closed, ..old(self)@.receiver },
            }),
            e == if old(self)@.receiver.state == ConnectionState::Closed {
                Error::Closed
            } else {
                Error::Io
            },
    {
        self.inner.sender.close();
        self.inner.receiver.end_of_stream()
    }

    /// Parts the connection into its two halves, which can then be used side by side. A closed
    /// connection is not parted.
    pub fn split(self) -> (r: Result<(Sender<En>, Receiver<De>), Error>)
        ensures
            if self@.receiver.state == ConnectionState::Closed {
                r matches Err(e) && e == Error::Closed
            } else {
                r matches Ok(halves) && halves.0@ == self@.sender && halves.1@ == self@.receiver
            },
    {
        if self.is_closed() {
            return Err(Error::Closed);
        }
        let WebSocket { inner } = self;
        let WebSocketInner { sender, receiver } = inner;
        Ok((sender, receiver))
    }
}

/// Ends a client's handshake: checks the server's response to the request that was sent with
/// `key`, and makes the connection if the response is accepted. The connection gathers the
/// fragments of messages in `codec`.
pub fn client<E: ExtensionHandshake>(
    config: WebSocketConfig,
    response: &UpgradeResponse,
    key: &[u8],
    codec: FragmentBuffer,
    extension: &E,
    subprotocols: &ProtocolRegistry,
) -> (r: Result<(WebSocket<E::Encoder, E::Decoder>, Option<String>), Error>)
    ensures
        match spec_response_error(response, key@, extension, subprotocols@) {
            Some(e) => r matches Err(found) && found == e,
            None => r matches Ok(made) && (match response.protocol {
                Some(name) => made.1 matches Some(found) && found@ == name@,
                None => made.1 is None,
            }) && (match extension.spec_negotiate_client(response.extensions@) {
                Ok(Some(halves)) => made.0@ == spec_begun(
                    config,
                    Some(halves.0),
                    Some(halves.1),
                    codec@,
                    Role::Client,
                ),
                _ => made.0@ == spec_begun(
                    config,
                    None::<E::Encoder>,
                    None::<E::Decoder>,
                    codec@,
                    Role::Client,
                ),
            }),
        },
{
    let HandshakeResult { protocol, extension } = match check_response(
        response,
        key,
        extension,
        subprotocols,
    ) {
        Err(e) => {
            return Err(e);
        },
        Ok(agreed) => agreed,
    };
    let socket = WebSocket::with_codec(config, extension, codec, Role::Client);
    Ok((socket, protocol))
}

/// Ends a server's handshake: checks the client's request, and makes the connection and the
/// answer to send if the request is accepted. The connection gathers the fragments of
/// messages in `codec`.
pub fn server<E: ExtensionHandshake>(
    config: WebSocketConfig,
    request: &UpgradeRequest,
    codec: FragmentBuffer,
    extension: &E,
    subprotocols: &ProtocolRegistry,
) -> (r: Result<(WebSocket<E::Encoder, E::Decoder>, UpgradeAnswer), Error>)
    ensures
        match spec_request_error(request, extension) {
            Some(e) => r matches Err(found) && found == e,
            None => r matches Ok(made) && spec_answers(made.1, request, extension, subprotocols@) && (
            match extension.spec_negotiate_server(request.extensions@) {
                Ok(Some(agreed)) => made.0@ == spec_begun(
                    config,
                    Some(agreed.0),
                    Some(agreed.1),
                    codec@,
                    Role::Server,
                ),
                _ => made.0@ == spec_begun(
                    config,
                    None::<E::Encoder>,
                    None::<E::Decoder>,
                    codec@,
                    Role::Server,
                ),
            }),
        },
{
    let (answer, extension) = match accept_request(request, extension, subprotocols) {
        Err(e) => {
            return Err(e);
        },
        Ok(made) => made,
    };
    let socket = WebSocket::with_codec(config, extension, codec, Role::Server);
    Ok((socket, answer))
}

} // verus!
