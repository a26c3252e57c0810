//! The sending half of a connection: messages and frames in, the bytes for the wire out.
//!
//! Every call hands back whole frames only. Whoever owns the transport writes what a call
//! handed back in one piece, so that no frame is ever torn by another.

use vstd::prelude::*;
use vstd::slice::slice_subrange;
use vstd::slice::slice_to_vec;
use crate::connection::ConnectionState;
use crate::connection::WebSocketConfig;
use crate::errors::Error;
use crate::errors::ProtocolError;
use crate::extension::extension_encode;
use crate::extension::spec_encoder_after;
use crate::extension::spec_extension_encode;
use crate::extension::ExtensionEncoder;
use crate::frame::encode_frame;
use crate::frame::spec_encode_frames;
use crate::frame::spec_encode_frame;
use crate::frame::spec_max_length;
use crate::frame::FrameView;
use crate::frame::HeaderFlags;
use crate::message::spec_message_opcode;
use crate::message::spec_message_payload;
use crate::message::Message;
use crate::message::MessageView;
use crate::protocol::DataCode;
use crate::protocol::OpCode;
use crate::protocol::Role;
use crate::protocol::CONTROL_MAX_SIZE;

verus! {

/// `rand::random` of the crate rand, at `u32`: a number from the thread's generator, of which
/// nothing is known beforehand. The call panics where the operating system gives the
/// generator no entropy, at its first use on a thread or when it is seeded anew; no argument
/// decides that, so nothing here can rule it out.
#[verifier::external_body]
pub(crate) fn fresh_key() -> (key: u32) {
    rand::random::<u32>()
}

/// The key for a frame that an end with this role sends: a new one for a client, which
/// masks, and none to speak of for a server, which does not.
pub(crate) fn key_for(role: Role) -> (key: u32) {
    if role.is_client() {
        fresh_key()
    } else {
        0
    }
}

/// The mask of a frame that an end with this role sends: a client masks with the key, a
/// server does not mask.
pub open spec fn spec_mask_for(role: Role, key: u32) -> Option<u32> {
    if role == Role::Client {
        Some(key)
    } else {
        None
    }
}

/// Whether `bytes` are one whole frame with these flags, this opcode and this payload, as an
/// end with this role sends it: masked with some key by a client, in the clear by a server.
pub open spec fn spec_on_wire(
    bytes: Seq<u8>,
    role: Role,
    flags: HeaderFlags,
    opcode: OpCode,
    payload: Seq<u8>,
) -> bool {
    exists|key: u32|
        bytes == spec_encode_frame(
            FrameView {
                flags: flags,
                opcode: opcode,
                mask: #[trigger] spec_mask_for(role, key),
                payload: payload,
            },
        )
}

/// The bytes of one frame as an end with this role sends it, with `key` for its mask if it
/// masks.
pub fn wire_frame(role: Role, key: u32, flags: HeaderFlags, opcode: OpCode, payload: &[u8]) -> (out:
    Vec<u8>)
    ensures
        out@ == spec_encode_frame(
            FrameView {
                flags: flags,
                opcode: opcode,
                mask: spec_mask_for(role, key),
                payload: payload@,
            },
        ),
        spec_on_wire(out@, role, flags, opcode, payload@),
{
    let mask: Option<u32> = if role.is_client() {
        Some(key)
    } else {
        None
    };
    encode_frame(flags, opcode, mask, payload)
}

/// The payload and the flags that go into a frame, or why there is no frame.
///
/// A control frame is never sent without the final flag, nor with more than 125 bytes; one
/// that is in order carries the payload and the flags as they are given. A data frame carries
/// what the extension makes of them, unless the extension refuses them or makes a payload of
/// more than 63 bits of length, which cannot be framed.
pub open spec fn spec_outgoing<En: ExtensionEncoder>(
    encoder: Option<En>,
    payload: Seq<u8>,
    flags: HeaderFlags,
    opcode: OpCode,
) -> Result<(Seq<u8>, HeaderFlags), Error> {
    match opcode {
        OpCode::ControlCode(_) => if !flags.fin {
            Err(Error::Protocol(ProtocolError::FragmentedControl))
        } else if payload.len() > CONTROL_MAX_SIZE {
            Err(Error::Protocol(ProtocolError::ControlTooLarge))
        } else {
            Ok((payload, flags))
        },
        OpCode::DataCode(d) => match spec_extension_encode(encoder, payload, flags, d) {
            None => Err(Error::Extension),
            Some(m) => if m.0.len() > spec_max_length() {
                Err(Error::Protocol(ProtocolError::FrameTooLarge))
            } else {
                Ok(m)
            },
        },
    }
}

/// The encoder after a frame: a data frame went through it, a control frame did not.
pub open spec fn spec_encoder_next<En: ExtensionEncoder>(
    encoder: Option<En>,
    payload: Seq<u8>,
    flags: HeaderFlags,
    opcode: OpCode,
) -> Option<En> {
    match opcode {
        OpCode::DataCode(d) => spec_encoder_after(encoder, payload, flags, d),
        OpCode::ControlCode(_) => encoder,
    }
}

/// Why a message is not sent, if it is not: the connection is no longer open, a control
/// message has more than 125 bytes, or another message has more than a frame may hold.
pub open spec fn spec_write_refusal(
    state: ConnectionState,
    config: WebSocketConfig,
    message: MessageView,
) -> Option<Error> {
    let len = spec_message_payload(message).len();
    if state != ConnectionState::Open {
        Some(Error::Closed)
    } else if spec_message_opcode(message).spec_is_control() {
        if len > CONTROL_MAX_SIZE {
            Some(Error::Protocol(ProtocolError::ControlTooLarge))
        } else {
            None
        }
    } else if len > config.max_frame_size {
        Some(Error::Protocol(ProtocolError::FrameTooLarge))
    } else {
        None
    }
}

/// The state after a message was sent: a close leaves the connection closing.
pub open spec fn spec_state_after_write(state: ConnectionState, message: MessageView) -> ConnectionState {
    if message is Close {
        state.spec_after_close_sent()
    } else {
        state
    }
}

/// What sending a message in fragments leads to.
pub struct Fragmented<En> {
    /// The encoder afterwards.
    pub encoder: Option<En>,
    /// The frames that go on the wire, in order and not yet masked, or why there are none.
    pub frames: Result<Seq<FrameView>, Error>,
}

/// The frames in which a payload goes out when each of them but the last carries `size`
/// bytes. A payload of at most `size` bytes goes out in one frame, and so does every payload
/// where `size` is 0. The first frame has the opcode of the message and the others are
/// continuations; the last frame has the final flag. Every chunk goes through the extension,
/// in order.
pub open spec fn spec_fragments<En: ExtensionEncoder>(
    encoder: Option<En>,
    opcode: DataCode,
    payload: Seq<u8>,
    size: nat,
    first: bool,
) -> Fragmented<En>
    decreases payload.len(),
{
    let last = size == 0 || payload.len() <= size;
    let chunk = if last {
        payload
    } else {
        payload.take(size as int)
    };
    let code = if first {
        opcode
    } else {
        DataCode::Continuation
    };
    let flags = HeaderFlags { fin: last, rsv1: false, rsv2: false, rsv3: false };
    let moved = spec_encoder_after(encoder, chunk, flags, code);
    match spec_outgoing(encoder, chunk, flags, OpCode::DataCode(code)) {
        Err(e) => Fragmented { encoder: moved, frames: Err(e) },
        Ok(made) => {
            let frame = FrameView {
                flags: made.1,
                opcode: OpCode::DataCode(code),
                mask: None,
                payload: made.0,
            };
            if last {
                Fragmented { encoder: moved, frames: Ok(seq![frame]) }
            } else {
                spec_prepend(
                    seq![frame],
                    spec_fragments(moved, opcode, payload.skip(size as int), size, false),
                )
            }
        },
    }
}

/// Frames that went out already, put before what follows them.
pub open spec fn spec_prepend<En>(done: Seq<FrameView>, then: Fragmented<En>) -> Fragmented<En> {
    Fragmented {
        encoder: then.encoder,
        frames: match then.frames {
            Err(e) => Err(e),
            Ok(frames) => Ok(done + frames),
        },
    }
}

/// Frames as an end with this role sends them: each masked with its key by a client, all in the
/// clear by a server.
pub open spec fn spec_masked(frames: Seq<FrameView>, role: Role, keys: Seq<u32>) -> Seq<FrameView> {
    Seq::new(
        frames.len(),
        |i: int|
            FrameView {
                flags: frames[i].flags,
                opcode: frames[i].opcode,
                mask: spec_mask_for(role, keys[i]),
                payload: frames[i].payload,
            },
    )
}

/// Whether `bytes` are these frames, whole and in order and nothing else, as an end with this
/// role sends them.
pub open spec fn spec_frames_on_wire(bytes: Seq<u8>, role: Role, frames: Seq<FrameView>) -> bool {
    exists|keys: Seq<u32>|
        keys.len() == frames.len() && bytes == spec_encode_frames(
            #[trigger] spec_masked(frames, role, keys),
        )
}

/// Why a message is not sent in fragments, if it is not: the connection is no longer open, a
/// control message has more than 125 bytes, or a fragment would have more than a frame may
/// hold.
pub open spec fn spec_fragmented_refusal(
    state: ConnectionState,
    config: WebSocketConfig,
    message: MessageView,
    size: nat,
) -> Option<Error> {
    let len = spec_message_payload(message).len();
    if spec_message_opcode(message).spec_is_control() || size == 0 || len <= size {
        spec_write_refusal(state, config, message)
    } else if state != ConnectionState::Open {
        Some(Error::Closed)
    } else if size > config.max_frame_size {
        Some(Error::Protocol(ProtocolError::FrameTooLarge))
    } else {
        None
    }
}

/// What sending a message in fragments of `size` bytes leads to. A control message is never
/// parted: it is sent as it is sent otherwise.
pub open spec fn spec_write_fragmented<En: ExtensionEncoder>(
    s: SenderView<En>,
    message: MessageView,
    size: nat,
) -> Fragmented<En> {
    match spec_fragmented_refusal(s.state, s.config, message, size) {
        Some(e) => Fragmented { encoder: s.encoder, frames: Err(e) },
        None => match spec_message_opcode(message) {
            OpCode::ControlCode(code) => Fragmented {
                encoder: s.encoder,
                frames: Ok(
                    seq![
                        FrameView {
                            flags: HeaderFlags { fin: true, rsv1: false, rsv2: false, rsv3: false },
                            opcode: OpCode::ControlCode(code),
                            mask: None,
                            payload: spec_message_payload(message),
                        },
                    ],
                ),
            },
            OpCode::DataCode(code) => spec_fragments(
                s.encoder,
                code,
                spec_message_payload(message),
                size,
                true,
            ),
        },
    }
}

/// Frames that are written after others follow them on the wire.
pub proof fn lemma_encode_frames_push(frames: Seq<FrameView>, frame: FrameView)
    ensures
        spec_encode_frames(frames.push(frame)) == spec_encode_frames(frames) + spec_encode_frame(
            frame,
        ),
    decreases frames.len(),
{
    let all = frames.push(frame);
    if frames.len() == 0 {
        assert(all[0] == frame);
        assert(all.drop_first() =~= Seq::<FrameView>::empty());
        assert(spec_encode_frames(all.drop_first()) =~= Seq::<u8>::empty());
        assert(spec_encode_frames(frames) =~= Seq::<u8>::empty());
        assert(spec_encode_frames(all) =~= spec_encode_frame(frame) + Seq::<u8>::empty());
        assert(spec_encode_frames(all) =~= spec_encode_frames(frames) + spec_encode_frame(frame));
    } else {
        assert(all[0] == frames[0]);
        assert(all.drop_first() =~= frames.drop_first().push(frame));
        lemma_encode_frames_push(frames.drop_first(), frame);
        assert(spec_encode_frames(all) =~= spec_encode_frames(frames) + spec_encode_frame(frame));
    }
}

/// One more frame with one more key is one more masked frame.
pub proof fn lemma_masked_push(
    frames: Seq<FrameView>,
    role: Role,
    keys: Seq<u32>,
    frame: FrameView,
    key: u32,
)
    requires
        keys.len() == frames.len(),
    ensures
        spec_masked(frames.push(frame), role, keys.push(key)) == spec_masked(frames, role, keys).push(
            FrameView { mask: spec_mask_for(role, key), ..frame },
        ),
{
    assert(spec_masked(frames.push(frame), role, keys.push(key)) =~= spec_masked(
        frames,
        role,
        keys,
    ).push(FrameView { mask: spec_mask_for(role, key), ..frame }));
}

/// A frame that went out last stands at the end of those that went out before.
pub proof fn lemma_prepend_push<En>(done: Seq<FrameView>, frame: FrameView, then: Fragmented<En>)
    ensures
        spec_prepend(done, spec_prepend(seq![frame], then)) == spec_prepend(done.push(frame), then),
        spec_prepend(done, Fragmented { encoder: then.encoder, frames: Ok(seq![frame]) })
            == (Fragmented { encoder: then.encoder, frames: Ok(done.push(frame)) }),
{
    assert(done + seq![frame] =~= done.push(frame));
    match then.frames {
        Err(_) => {},
        Ok(frames) => {
            assert(done + (seq![frame] + frames) =~= done.push(frame) + frames);
        },
    }
}

/// The sending half of a connection.
#[derive(Debug)]
pub struct Sender<En> {
    role: Role,
    encoder: Option<En>,
    config: WebSocketConfig,
    state: ConnectionState,
}

/// What a sender is, as a mathematical value.
pub struct SenderView<En> {
    pub role: Role,
    pub encoder: Option<En>,
    pub config: WebSocketConfig,
    pub state: ConnectionState,
}

impl<En> View for Sender<En> {
    type V = SenderView<En>;

    closed spec fn view(&self) -> SenderView<En> {
        SenderView {
            role: self.role,
            encoder: self.encoder,
            config: self.config,
            state: self.state,
        }
    }
}

/// What sending a message leads to.
pub struct Written<En> {
    /// The sender afterwards.
    pub after: SenderView<En>,
    /// The flags and the payload of the frame that goes on the wire, or why there is none.
    pub frame: Result<(HeaderFlags, Seq<u8>), Error>,
}

/// What sending a message leads to.
///
/// A message that is refused changes nothing. Any other message goes into one frame with the
/// final flag; a data message goes through the extension first, which may refuse it. A close
/// that was framed leaves the connection closing.
pub open spec fn spec_write<En: ExtensionEncoder>(s: SenderView<En>, message: MessageView) -> Written<
    En,
> {
    let flags = HeaderFlags { fin: true, rsv1: false, rsv2: false, rsv3: false };
    let payload = spec_message_payload(message);
    let opcode = spec_message_opcode(message);
    match spec_write_refusal(s.state, s.config, message) {
        Some(e) => Written { after: s, frame: Err(e) },
        None => {
            let moved = SenderView {
                encoder: spec_encoder_next(s.encoder, payload, flags, opcode),
                ..s
            };
            match spec_outgoing(s.encoder, payload, flags, opcode) {
                Err(e) => Written { after: moved, frame: Err(e) },
                Ok(made) => Written {
                    after: SenderView { state: spec_state_after_write(s.state, message), ..moved },
                    frame: Ok((made.1, made.0)),
                },
            }
        },
    }
}

impl<En: ExtensionEncoder> Sender<En> {
    /// The sending half of an open connection.
    pub fn new(role: Role, encoder: Option<En>, config: WebSocketConfig) -> (r: Self)
        ensures
            r@ == (SenderView {
                role: role,
                encoder: encoder,
                config: config,
                state: ConnectionState::Open,
            }),
    {
        Sender { role: role, encoder: encoder, config: config, state: ConnectionState::Open }
    }

    pub fn role(&self) -> (r: Role)
        ensures
            r == self@.role,
    {
        self.role
    }

    pub fn config(&self) -> (r: &WebSocketConfig)
        ensures
            *r == self@.config,
    {
        &self.config
    }

    pub fn state(&self) -> (r: ConnectionState)
        ensures
            r == self@.state,
    {
        self.state
    }

    /// Records that the connection has ended: the peer's close has come, or reading failed for
    /// good. Nothing is sent afterwards.
    pub fn close(&mut self)
        ensures
            final(self)@ == (SenderView { state: ConnectionState::Closed, ..old(self)@ }),
    {
        self.state = ConnectionState::Closed;
    }

    /// Frames a payload as it is given, whatever the state of the connection: the caller
    /// answers for the sequence of frames. A control frame without the final flag or with more
    /// than 125 bytes is refused, and the sender stays as it is. A data payload goes through
    /// the extension first. The frame is masked if this end is a client.
    pub fn write_frame(&mut self, buf: &[u8], opcode: OpCode, fin: bool) -> (r: Result<
        Vec<u8>,
        Error,
    >)
        ensures
            final(self)@ == (SenderView {
                encoder: spec_encoder_next(
                    old(self)@.encoder,
                    buf@,
                    HeaderFlags { fin: fin, rsv1: false, rsv2: false, rsv3: false },
                    opcode,
                ),
                ..old(self)@
            }),
            match spec_outgoing(
                old(self)@.encoder,
                buf@,
                HeaderFlags { fin: fin, rsv1: false, rsv2: false, rsv3: false },
                opcode,
            ) {
                Err(e) => r matches Err(found) && found == e,
                Ok(made) => r matches Ok(bytes) && spec_on_wire(
                    bytes@,
                    old(self)@.role,
                    made.1,
                    opcode,
                    made.0,
                ),
            },
    {
        let (payload, flags) = match self.prepare(buf, opcode, fin) {
            Err(e) => {
                return Err(e);
            },
            Ok(found) => found,
        };
        let key: u32 = key_for(self.role);
        Ok(wire_frame(self.role, key, flags, opcode, payload.as_slice()))
    }

    /// Sends a message in one frame. What comes back is that frame, for the wire.
    ///
    /// A close leaves the connection closing: nothing can be sent after it.
    pub fn write(&mut self, message: &Message) -> (r: Result<Vec<u8>, Error>)
        ensures
            final(self)@ == spec_write(old(self)@, message@).after,
            match spec_write(old(self)@, message@).frame {
                Err(e) => r matches Err(found) && found == e,
                Ok(made) => r matches Ok(bytes) && spec_on_wire(
                    bytes@,
                    old(self)@.role,
                    made.0,
                    spec_message_opcode(message@),
                    made.1,
                ),
            },
    {
        if !self.state.is_open() {
            return Err(Error::Closed);
        }
        let opcode = message.opcode();
        let payload: Vec<u8> = message.payload();
        if opcode.is_control() {
            if payload.len() > CONTROL_MAX_SIZE {
                return Err(Error::Protocol(ProtocolError::ControlTooLarge));
            }
        } else if payload.len() > self.config.max_frame_size {
            return Err(Error::Protocol(ProtocolError::FrameTooLarge));
        }
        match self.write_frame(payload.as_slice(), opcode, true) {
            Err(e) => Err(e),
            Ok(bytes) => {
                if matches!(message, Message::Close(_, _)) {
                    self.state = self.state.after_close_sent();
                }
                Ok(bytes)
            },
        }
    }

    /// Makes sure that a payload can be framed, and runs it through the extension if it is a
    /// data payload.
    fn prepare(&mut self, buf: &[u8], opcode: OpCode, fin: bool) -> (r: Result<
        (Vec<u8>, HeaderFlags),
        Error,
    >)
        ensures
            final(self)@ == (SenderView {
                encoder: spec_encoder_next(
                    old(self)@.encoder,
                    buf@,
                    HeaderFlags { fin: fin, rsv1: false, rsv2: false, rsv3: false },
                    opcode,
                ),
                ..old(self)@
            }),
            match spec_outgoing(
                old(self)@.encoder,
                buf@,
                HeaderFlags { fin: fin, rsv1: false, rsv2: false, rsv3: false },
                opcode,
            ) {
                Err(e) => r matches Err(found) && found == e,
                Ok(made) => r matches Ok(found) && found.0@ == made.0 && found.1 == made.1,
            },
    {
        let mut flags = HeaderFlags { fin: fin, rsv1: false, rsv2: false, rsv3: false };
        match opcode {
            OpCode::ControlCode(_) => {
                if !fin {
                    return Err(Error::Protocol(ProtocolError::FragmentedControl));
                }
                if buf.len() > CONTROL_MAX_SIZE {
                    return Err(Error::Protocol(ProtocolError::ControlTooLarge));
                }
                Ok((slice_to_vec(buf), flags))
            },
            OpCode::DataCode(d) => {
                let mut payload: Vec<u8> = slice_to_vec(buf);
                match extension_encode(&mut self.encoder, &mut payload, &mut flags, d) {
                    Err(e) => {
                        return Err(e);
                    },
                    Ok(_) => {},
                }
                if payload.len() as u64 > 0x7fff_ffff_ffff_ffff {
                    return Err(Error::Protocol(ProtocolError::FrameTooLarge));
                }
                Ok((payload, flags))
            },
        }
    }

    /// Sends a message in fragments: each frame but the last carries `fragment_size` bytes of
    /// it. Where `fragment_size` is 0, or the message has no more bytes than that, it goes out
    /// in one frame. What comes back are all its frames, in order, for the wire.
    pub fn write_fragmented(&mut self, message: &Message, fragment_size: usize) -> (r: Result<
        Vec<u8>,
        Error,
    >)
        ensures
            final(self)@ == (SenderView {
                encoder: spec_write_fragmented(old(self)@, message@, fragment_size as nat).encoder,
                state: if spec_write_fragmented(old(self)@, message@, fragment_size as nat).frames
                    is Ok {
                    spec_state_after_write(old(self)@.state, message@)
                } else {
                    old(self)@.state
                },
                ..old(self)@
            }),
            match spec_write_fragmented(old(self)@, message@, fragment_size as nat).frames {
                Err(e) => r matches Err(found) && found == e,
                Ok(frames) => r matches Ok(bytes) && spec_frames_on_wire(
                    bytes@,
                    old(self)@.role,
                    frames,
                ),
            },
    {
        let opcode = message.opcode();
        let code = match opcode {
            OpCode::ControlCode(_) => {
                return self.write_whole(message);
            },
            OpCode::DataCode(code) => code,
        };
        let payload: Vec<u8> = message.payload();
        let n: usize = payload.len();
        if fragment_size == 0 || n <= fragment_size {
            return self.write_whole(message);
        }
        if !self.state.is_open() {
            return Err(Error::Closed);
        }
        if fragment_size > self.config.max_frame_size {
            return Err(Error::Protocol(ProtocolError::FrameTooLarge));
        }
        self.write_chunks(payload.as_slice(), code, fragment_size)
    }

    /// Sends a payload of more than `size` bytes in fragments of `size` bytes.
    fn write_chunks(&mut self, payload: &[u8], code: DataCode, size: usize) -> (r: Result<
        Vec<u8>,
        Error,
    >)
        requires
            size > 0,
        ensures
            final(self)@ == (SenderView {
                encoder: spec_fragments(old(self)@.encoder, code, payload@, size as nat, true).encoder,
                ..old(self)@
            }),
            match spec_fragments(old(self)@.encoder, code, payload@, size as nat, true).frames {
                Err(e) => r matches Err(found) && found == e,
                Ok(frames) => r matches Ok(bytes) && spec_frames_on_wire(
                    bytes@,
                    old(self)@.role,
                    frames,
                ),
            },
    {
        let n: usize = payload.len();
        let ghost role = self@.role;
        let ghost whole = spec_fragments(self@.encoder, code, payload@, size as nat, true);
        let ghost mut done: Seq<FrameView> = Seq::empty();
        let ghost mut keys: Seq<u32> = Seq::empty();
        let mut out: Vec<u8> = Vec::new();
        let mut start: usize = 0;
        let mut first: bool = true;
        let mut finished: bool = false;
        proof {
            assert(payload@.skip(0) =~= payload@);
            assert(spec_masked(done, role, keys) =~= Seq::<FrameView>::empty());
            let then = spec_fragments(self@.encoder, code, payload@, size as nat, true);
            match then.frames {
                Err(_) => {},
                Ok(frames) => {
                    assert(done + frames =~= frames);
                },
            }
            assert(whole == spec_prepend(done, then));
        }
        while !finished
            invariant
                n == payload@.len(),
                size > 0,
                start <= n,
                role == old(self)@.role,
                self@ == (SenderView { encoder: self@.encoder, ..old(self)@ }),
                whole == spec_fragments(old(self)@.encoder, code, payload@, size as nat, true),
                keys.len() == done.len(),
                out@ == spec_encode_frames(spec_masked(done, role, keys)),
                !finished ==> whole == spec_prepend(
                    done,
                    spec_fragments(
                        self@.encoder,
                        code,
                        payload@.skip(start as int),
                        size as nat,
                        first,
                    ),
                ),
                finished ==> whole == (Fragmented { encoder: self@.encoder, frames: Ok(done) }),
            decreases (n - start) + (if finished { 0int } else { 1int }),
        {
            let remaining: usize = n - start;
            let last: bool = remaining <= size;
            let end: usize = if last {
                n
            } else {
                start + size
            };
            let chunk = slice_subrange(payload, start, end);
            let here: DataCode = if first {
                code
            } else {
                DataCode::Continuation
            };
            let ghost rest = payload@.skip(start as int);
            let ghost before = self@.encoder;
            let ghost step = spec_fragments(before, code, rest, size as nat, first);
            proof {
                if last {
                    assert(chunk@ =~= rest);
                } else {
                    assert(chunk@ =~= rest.take(size as int));
                    assert(rest.skip(size as int) =~= payload@.skip(end as int));
                }
            }
            let (made, flags) = match self.prepare(chunk, OpCode::DataCode(here), last) {
                Err(e) => {
                    assert(step.frames == Err::<Seq<FrameView>, Error>(e));
                    assert(step.encoder == self@.encoder);
                    return Err(e);
                },
                Ok(found) => found,
            };
            let key: u32 = key_for(self.role);
            let bytes = wire_frame(self.role, key, flags, OpCode::DataCode(here), made.as_slice());
            proof {
                let frame = FrameView {
                    flags: flags,
                    opcode: OpCode::DataCode(here),
                    mask: None,
                    payload: made@,
                };
                let sent = FrameView { mask: spec_mask_for(role, key), ..frame };
                lemma_encode_frames_push(spec_masked(done, role, keys), sent);
                lemma_masked_push(done, role, keys, frame, key);
                if last {
                    assert(step == (Fragmented { encoder: self@.encoder, frames: Ok(seq![frame]) }));
                    lemma_prepend_push(done, frame, step);
                } else {
                    let then = spec_fragments(
                        self@.encoder,
                        code,
                        payload@.skip(end as int),
                        size as nat,
                        false,
                    );
                    assert(step == spec_prepend(seq![frame], then));
                    lemma_prepend_push(done, frame, then);
                }
                done = done.push(frame);
                keys = keys.push(key);
            }
            out.extend_from_slice(bytes.as_slice());
            assert(out@ =~= spec_encode_frames(spec_masked(done, role, keys)));
            start = end;
            first = false;
            finished = last;
        }
        Ok(out)
    }

    /// Sends a message in one frame, as `write` does, and says so in the words of
    /// `write_fragmented`.
    fn write_whole(&mut self, message: &Message) -> (r: Result<Vec<u8>, Error>)
        ensures
            final(self)@ == spec_write(old(self)@, message@).after,
            match spec_write(old(self)@, message@).frame {
                Err(e) => r matches Err(found) && found == e,
                Ok(made) => r matches Ok(bytes) && spec_frames_on_wire(
                    bytes@,
                    old(self)@.role,
                    seq![
                        FrameView {
                            flags: made.0,
                            opcode: spec_message_opcode(message@),
                            mask: None,
                            payload: made.1,
                        },
                    ],
                ),
            },
    {
        let ghost role = self@.role;
        let r = self.write(message);
        proof {
            if r is Ok {
                let bytes = r->Ok_0;
                let made = spec_write(old(self)@, message@).frame->Ok_0;
                let frame = FrameView {
                    flags: made.0,
                    opcode: spec_message_opcode(message@),
                    mask: None,
                    payload: made.1,
                };
                let key = choose|key: u32|
                    bytes@ == spec_encode_frame(
                        FrameView { mask: #[trigger] spec_mask_for(role, key), ..frame },
                    );
                let sent = FrameView { mask: spec_mask_for(role, key), ..frame };
                lemma_encode_frames_push(Seq::<FrameView>::empty(), sent);
                assert(spec_masked(seq![frame], role, seq![key]) =~= Seq::<FrameView>::empty().push(
                    sent,
                ));
                assert(spec_encode_frames(Seq::<FrameView>::empty()) + bytes@ =~= bytes@);
            }
        }
        r
    }

    /// Sends a ping with these bytes.
    pub fn write_ping(&mut self, payload: &[u8]) -> (r: Result<Vec<u8>, Error>)
        ensures
            final(self)@ == old(self)@,
            match spec_write_refusal(
                old(self)@.state,
                old(self)@.config,
                MessageView::Ping(payload@),
            ) {
                Some(e) => r matches Err(found) && found == e,
                None => r matches Ok(bytes) && spec_on_wire(
                    bytes@,
                    old(self)@.role,
                    HeaderFlags { fin: true, rsv1: false, rsv2: false, rsv3: false },
                    OpCode::ControlCode(crate::protocol::ControlCode::Ping),
                    payload@,
                ),
            },
    {
        let message = Message::Ping(slice_to_vec(payload));
        self.write(&message)
    }

    /// Sends a pong with these bytes.
    pub fn write_pong(&mut self, payload: &[u8]) -> (r: Result<Vec<u8>, Error>)
        ensures
            final(self)@ == old(self)@,
            match spec_write_refusal(
                old(self)@.state,
                old(self)@.config,
                MessageView::Pong(payload@),
            ) {
                Some(e) => r matches Err(found) && found == e,
                None => r matches Ok(bytes) && spec_on_wire(
                    bytes@,
                    old(self)@.role,
                    HeaderFlags { fin: true, rsv1: false, rsv2: false, rsv3: false },
                    OpCode::ControlCode(crate::protocol::ControlCode::Pong),
                    payload@,
                ),
            },
    {
        let message = Message::Pong(slice_to_vec(payload));
        self.write(&message)
    }
}

} // verus!
