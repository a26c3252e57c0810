//! What holds between the two ends: what one end sends, the other reads.

use vstd::prelude::*;
use crate::connection::ConnectionState;
use crate::errors::Error;
use crate::errors::ProtocolError;
use crate::fragment::lemma_fragments_accumulate;
use crate::fragment::lemma_fragments_reassemble;
use crate::fragment::spec_after_fragments;
use crate::fragment::spec_fragment_opcode;
use crate::fragment::spec_join;
use crate::fragment::FragmentState;
use crate::frame::lemma_decode_encode;
use crate::frame::lemma_large_control_is_refused;
use crate::frame::lemma_wrong_masking_is_refused;
use crate::frame::spec_encode_frame;
use crate::frame::spec_max_length;
use crate::frame::FrameView;
use crate::frame::HeaderFlags;
use crate::message::lemma_message_round_trip;
use crate::message::spec_message_of;
use crate::message::spec_message_opcode;
use crate::message::spec_message_payload;
use crate::message::MessageView;
use crate::protocol::ControlCode;
use crate::protocol::DataCode;
use crate::protocol::OpCode;
use crate::buffer::spec_buffer_limit;
use crate::receiver::spec_control_item;
use crate::receiver::spec_item_of_frame;
use crate::receiver::spec_message_item;
use crate::receiver::spec_read;
use crate::receiver::spec_read_item;
use crate::receiver::ItemRead;
use crate::receiver::ItemTaken;
use crate::receiver::ItemView;
use crate::receiver::spec_rules;
use crate::receiver::spec_take_control;
use crate::receiver::spec_take_data;
use crate::receiver::ReceiverView;
use crate::receiver::Step;
use crate::receiver::Taken;
use crate::extension::ExtensionDecoder;
use crate::extension::ExtensionEncoder;
use crate::frame::spec_encode_frames;
use crate::sender::spec_fragments;
use crate::sender::spec_masked;
use crate::sender::spec_mask_for;

verus! {

/// The answer that a message calls for from a receiver whose connection is not closed: a pong
/// with the same payload for a ping; a close with the same payload for a close, unless this
/// side has sent its own close already; nothing for any other message.
pub open spec fn spec_answer(state: ConnectionState, message: MessageView) -> Option<
    (ControlCode, Seq<u8>),
> {
    match message {
        MessageView::Ping(p) => Some((ControlCode::Pong, p)),
        MessageView::Close(_, _) => if state == ConnectionState::Open {
            Some((ControlCode::Close, spec_message_payload(message)))
        } else {
            None
        },
        _ => None,
    }
}

/// The one frame in which a message goes on the wire without an extension, as an end with the
/// role `sender` sends it with `key`.
pub open spec fn spec_message_frame(
    message: MessageView,
    sender: crate::protocol::Role,
    key: u32,
) -> FrameView {
    FrameView {
        flags: HeaderFlags { fin: true, rsv1: false, rsv2: false, rsv3: false },
        opcode: spec_message_opcode(message),
        mask: spec_mask_for(sender, key),
        payload: spec_message_payload(message),
    }
}

/// Whether a receiver without an extension stands ready for a new message from its peer, and
/// the message is within the receiver's limits. A pong has to be the one that is awaited, if
/// one is.
pub open spec fn spec_ready_for<De: ExtensionDecoder>(s: ReceiverView<De>, message: MessageView) -> bool {
    let len = spec_message_payload(message).len();
    &&& s.decoder is None
    &&& s.state != ConnectionState::Closed
    &&& !s.discarding
    &&& len <= s.config.max_frame_size
    &&& len <= spec_max_length()
    &&& message matches MessageView::Pong(p) ==> s.awaited.len() == 0 || s.awaited == p
    &&& if spec_message_opcode(message).spec_is_control() {
        len <= 125
    } else {
        s.fragment == FragmentState::Idle && len <= s.config.max_message_size
    }
}

/// A message that one end sends is the message that the other end reads, whatever its kind and
/// its length within the limits, whatever key masks it, and whatever follows it on the wire.
/// The bytes of its frame are taken and no others. A ping is answered by exactly one pong with
/// the payload of the ping. A close is answered by one close, unless the reader has sent its
/// own close already. Nothing else is answered. A control message is read like this in the
/// middle of a fragmented message too, which stays as it is.
pub proof fn lemma_message_is_read_back<De: ExtensionDecoder>(
    s: ReceiverView<De>,
    message: MessageView,
    key: u32,
    rest: Seq<u8>,
)
    requires
        spec_ready_for(s, message),
        s.pending == spec_encode_frame(spec_message_frame(message, s.role.spec_peer(), key)) + rest,
    ensures
        spec_read(s) == Step::Deliver(
            ReceiverView {
                pending: rest,
                state: if message is Close {
                    ConnectionState::Closed
                } else {
                    s.state
                },
                awaited: if message is Pong {
                    Seq::<u8>::empty()
                } else {
                    s.awaited
                },
                ..s
            },
            message,
            spec_answer(s.state, message),
        ),
{
    let f = spec_message_frame(message, s.role.spec_peer(), key);
    let e = spec_encode_frame(f);
    lemma_decode_encode(f, rest, spec_rules(s));
    crate::frame::lemma_encoding_shape(f);
    assert((e + rest).skip(e.len() as int) =~= rest);
    lemma_message_round_trip(message);
    let taken = ReceiverView { pending: rest, ..s };
    if s.awaited.len() == 0 {
        assert(s.awaited =~= Seq::<u8>::empty());
    }
    match f.opcode {
        OpCode::ControlCode(code) => {
            assert(spec_take_control(taken, code, f.payload) is Delivered);
        },
        OpCode::DataCode(code) => {
            assert(spec_take_data(taken, code, f.flags, f.payload) is Delivered);
        },
    }
}

/// A control frame with more than 125 bytes of payload fails the read with a protocol error
/// and closes the connection. Nothing of it is handed out.
pub proof fn lemma_oversized_control_fails_read<De: ExtensionDecoder>(
    s: ReceiverView<De>,
    code: ControlCode,
    payload: Seq<u8>,
    key: u32,
    rest: Seq<u8>,
)
    requires
        s.state != ConnectionState::Closed,
        125 < payload.len() <= spec_max_length(),
        s.pending == spec_encode_frame(
            FrameView {
                flags: HeaderFlags { fin: true, rsv1: false, rsv2: false, rsv3: false },
                opcode: OpCode::ControlCode(code),
                mask: spec_mask_for(s.role.spec_peer(), key),
                payload: payload,
            },
        ) + rest,
    ensures
        spec_read(s) == Step::Fail(
            ReceiverView { state: ConnectionState::Closed, ..s },
            Error::Protocol(ProtocolError::ControlTooLarge),
        ),
{
    let f = FrameView {
        flags: HeaderFlags { fin: true, rsv1: false, rsv2: false, rsv3: false },
        opcode: OpCode::ControlCode(code),
        mask: spec_mask_for(s.role.spec_peer(), key),
        payload: payload,
    };
    lemma_large_control_is_refused(f, rest, spec_rules(s));
}

/// A frame that is masked as the reader's own frames are, and not as its peer's, fails the
/// read with a protocol error and closes the connection: a client refuses a masked frame, a
/// server an unmasked one.
pub proof fn lemma_wrong_masking_fails_read<De: ExtensionDecoder>(
    s: ReceiverView<De>,
    fin: bool,
    opcode: OpCode,
    payload: Seq<u8>,
    key: u32,
    rest: Seq<u8>,
)
    requires
        s.state != ConnectionState::Closed,
        payload.len() <= spec_max_length(),
        s.pending == spec_encode_frame(
            FrameView {
                flags: HeaderFlags { fin: fin, rsv1: false, rsv2: false, rsv3: false },
                opcode: opcode,
                mask: spec_mask_for(s.role, key),
                payload: payload,
            },
        ) + rest,
    ensures
        spec_read(s) == Step::Fail(
            ReceiverView { state: ConnectionState::Closed, ..s },
            Error::Protocol(ProtocolError::Masking),
        ),
{
    let f = FrameView {
        flags: HeaderFlags { fin: fin, rsv1: false, rsv2: false, rsv3: false },
        opcode: opcode,
        mask: spec_mask_for(s.role, key),
        payload: payload,
    };
    lemma_wrong_masking_is_refused(f, rest, spec_rules(s));
}

/// A control frame never touches the message in progress: whatever it leads to, the message
/// stands afterwards as it stood before, and so does the extension.
pub proof fn lemma_control_keeps_fragments<De: ExtensionDecoder>(
    s: ReceiverView<De>,
    code: ControlCode,
    payload: Seq<u8>,
)
    ensures
        match spec_take_control(s, code, payload) {
            Taken::Absorbed(after) => false,
            Taken::Failed(after, _) => after.fragment == s.fragment && after.decoder == s.decoder
                && after.pending == s.pending && after.state == ConnectionState::Closed,
            Taken::Delivered(after, _, _) => after.fragment == s.fragment && after.decoder
                == s.decoder && after.pending == s.pending,
        },
{
}

/// The receiver after the first `count` fragments of a message that is sent in `chunks`.
pub open spec fn spec_receiver_after_fragments<De: ExtensionDecoder>(
    s: ReceiverView<De>,
    opcode: DataCode,
    chunks: Seq<Seq<u8>>,
    count: nat,
) -> ReceiverView<De> {
    ReceiverView {
        fragment: spec_after_fragments(opcode, chunks, count, s.config.max_message_size),
        ..s
    }
}

/// A message that is sent in any number of fragments is read as the message that it is when
/// sent in one frame. Every fragment but the last is taken in and hands nothing out; the last
/// one hands out what the one frame would have handed out, and leaves the receiver as the one
/// frame would have left it.
pub proof fn lemma_fragments_are_read_as_one<De: ExtensionDecoder>(
    s: ReceiverView<De>,
    opcode: DataCode,
    chunks: Seq<Seq<u8>>,
)
    requires
        s.decoder is None,
        !s.discarding,
        s.fragment == FragmentState::Idle,
        opcode != DataCode::Continuation,
        chunks.len() >= 1,
        spec_join(chunks).len() <= s.config.max_message_size,
    ensures
        forall|i: nat|
            i + 1 < chunks.len() ==> #[trigger] spec_take_data(
                spec_receiver_after_fragments(s, opcode, chunks, i),
                spec_fragment_opcode(opcode, i as int),
                HeaderFlags { fin: false, rsv1: false, rsv2: false, rsv3: false },
                chunks[i as int],
            ) == Taken::Absorbed(spec_receiver_after_fragments(s, opcode, chunks, i + 1)),
        spec_take_data(
            spec_receiver_after_fragments(s, opcode, chunks, (chunks.len() - 1) as nat),
            spec_fragment_opcode(opcode, chunks.len() - 1),
            HeaderFlags { fin: true, rsv1: false, rsv2: false, rsv3: false },
            chunks[chunks.len() - 1],
        ) == spec_take_data(
            s,
            opcode,
            HeaderFlags { fin: true, rsv1: false, rsv2: false, rsv3: false },
            spec_join(chunks),
        ),
        spec_message_of(OpCode::DataCode(opcode), spec_join(chunks)) matches Ok(m) ==> spec_take_data(
            s,
            opcode,
            HeaderFlags { fin: true, rsv1: false, rsv2: false, rsv3: false },
            spec_join(chunks),
        ) == Taken::Delivered(s, m, None),
{
    let max = s.config.max_message_size;
    let n = chunks.len();
    lemma_fragments_reassemble(opcode, chunks, max);
    assert(spec_after_fragments(opcode, chunks, 0, max) == FragmentState::Idle);
    assert(spec_receiver_after_fragments(s, opcode, chunks, 0) == s);
    assert forall|i: nat| i + 1 < chunks.len() implies #[trigger] spec_take_data(
        spec_receiver_after_fragments(s, opcode, chunks, i),
        spec_fragment_opcode(opcode, i as int),
        HeaderFlags { fin: false, rsv1: false, rsv2: false, rsv3: false },
        chunks[i as int],
    ) == Taken::Absorbed(spec_receiver_after_fragments(s, opcode, chunks, i + 1)) by {
        lemma_fragments_accumulate(opcode, chunks, i + 1, max);
        assert(crate::fragment::spec_fragment_outcome(opcode, chunks, i, max)
            == crate::fragment::Reassembly::Pending);
    }
    assert(crate::fragment::spec_fragment_outcome(opcode, chunks, (n - 1) as nat, max)
        == crate::fragment::Reassembly::Complete(opcode, spec_join(chunks)));
}

/// The payloads of frames, in order.
pub open spec fn spec_payloads(frames: Seq<FrameView>) -> Seq<Seq<u8>> {
    Seq::new(frames.len(), |i: int| frames[i].payload)
}

/// A chunk before others stands before them when they are put together.
pub proof fn lemma_join_first(first: Seq<u8>, others: Seq<Seq<u8>>)
    ensures
        spec_join(seq![first] + others) == first + spec_join(others),
    decreases others.len(),
{
    let all = seq![first] + others;
    if others.len() == 0 {
        assert(all.drop_last() =~= Seq::<Seq<u8>>::empty());
        assert(spec_join(all.drop_last()) =~= Seq::<u8>::empty());
        assert(spec_join(all) =~= first);
        assert(first + spec_join(others) =~= first);
    } else {
        assert(all.drop_last() =~= seq![first] + others.drop_last());
        assert(all.last() == others.last());
        lemma_join_first(first, others.drop_last());
        assert(spec_join(all) =~= first + spec_join(others));
    }
}

/// Without an extension, the fragments of a message carry the message and nothing else: their
/// payloads put together are its payload, the first has its opcode and the others are
/// continuations, and the last one alone has the final flag.
pub proof fn lemma_fragments_carry_the_message<En: ExtensionEncoder>(
    opcode: DataCode,
    payload: Seq<u8>,
    size: nat,
    first: bool,
)
    requires
        payload.len() <= spec_max_length(),
    ensures
        ({
            let out = spec_fragments(None::<En>, opcode, payload, size, first);
            &&& out.encoder is None
            &&& out.frames matches Ok(frames) && frames.len() >= 1 && spec_join(
                spec_payloads(frames),
            ) == payload && frames[0].opcode == OpCode::DataCode(
                if first {
                    opcode
                } else {
                    DataCode::Continuation
                },
            ) && (forall|i: int|
                0 < i < frames.len() ==> (#[trigger] frames[i]).opcode == OpCode::DataCode(
                    DataCode::Continuation,
                )) && (forall|i: int|
                0 <= i < frames.len() ==> (#[trigger] frames[i]).flags == (HeaderFlags {
                    fin: i == frames.len() - 1,
                    rsv1: false,
                    rsv2: false,
                    rsv3: false,
                }) && frames[i].mask is None && frames[i].payload.len() <= spec_max_length())
        }),
    decreases payload.len(),
{
    let out = spec_fragments(None::<En>, opcode, payload, size, first);
    let last = size == 0 || payload.len() <= size;
    if last {
        let frames = out.frames->Ok_0;
        assert(spec_payloads(frames) =~= seq![payload] + Seq::<Seq<u8>>::empty());
        lemma_join_first(payload, Seq::<Seq<u8>>::empty());
        assert(spec_join(Seq::<Seq<u8>>::empty()) =~= Seq::<u8>::empty());
        assert(payload + Seq::<u8>::empty() =~= payload);
    } else {
        let chunk = payload.take(size as int);
        let rest = payload.skip(size as int);
        lemma_fragments_carry_the_message::<En>(opcode, rest, size, false);
        let then = spec_fragments(None::<En>, opcode, rest, size, false);
        let later = then.frames->Ok_0;
        let frames = out.frames->Ok_0;
        assert(frames.len() == later.len() + 1);
        assert(frames[0].payload == chunk);
        assert forall|i: int| 0 < i < frames.len() implies #[trigger] frames[i] == later[i - 1] by {}
        assert(spec_payloads(frames) =~= seq![chunk] + spec_payloads(later));
        lemma_join_first(chunk, spec_payloads(later));
        assert(chunk + rest =~= payload);
    }
}

/// Whether a receiver can take every fragment of a payload that goes out in fragments of
/// `size` bytes: none of them is longer than a frame may be.
pub open spec fn spec_fragments_fit<De: ExtensionDecoder>(
    s: ReceiverView<De>,
    payload: Seq<u8>,
    size: nat,
) -> bool {
    if size == 0 || payload.len() <= size {
        payload.len() <= s.config.max_frame_size
    } else {
        size <= s.config.max_frame_size
    }
}

/// Reading takes the frame at the head of the wire: where a frame that the receiver accepts
/// stands first, reading goes on as that frame says, with what follows the frame for the rest
/// of the wire.
pub proof fn lemma_frame_is_taken<De: ExtensionDecoder>(
    s: ReceiverView<De>,
    f: FrameView,
    tail: Seq<u8>,
)
    requires
        s.state != ConnectionState::Closed,
        crate::frame::spec_acceptable(f, spec_rules(s)),
        s.pending == spec_encode_frame(f) + tail,
    ensures
        spec_read(s) == match crate::receiver::spec_take_frame(
            ReceiverView { pending: tail, ..s },
            f,
        ) {
            Taken::Absorbed(after) => spec_read(after),
            Taken::Failed(after, e) => Step::Fail(after, e),
            Taken::Delivered(after, m, answer) => Step::Deliver(after, m, answer),
        },
{
    let e = spec_encode_frame(f);
    lemma_decode_encode(f, tail, spec_rules(s));
    assert((e + tail).skip(e.len() as int) =~= tail);
}

/// The first chunk of a payload that goes out in fragments of `size` bytes.
pub open spec fn spec_first_chunk(payload: Seq<u8>, size: nat) -> Seq<u8> {
    if size == 0 || payload.len() <= size {
        payload
    } else {
        payload.take(size as int)
    }
}

/// The number of fragments in which a payload goes out without an extension.
#[verifier::opaque]
pub open spec fn spec_fragment_count<En: ExtensionEncoder>(
    code: DataCode,
    payload: Seq<u8>,
    size: nat,
    first: bool,
) -> nat {
    spec_fragments(None::<En>, code, payload, size, first).frames->Ok_0.len()
}

/// The bytes of the fragments in which a payload goes out without an extension, as an end
/// with the role `sender` sends them with these keys.
#[verifier::opaque]
pub open spec fn spec_fragments_wire<En: ExtensionEncoder>(
    code: DataCode,
    payload: Seq<u8>,
    size: nat,
    first: bool,
    sender: crate::protocol::Role,
    keys: Seq<u32>,
) -> Seq<u8> {
    spec_encode_frames(
        spec_masked(
            spec_fragments(None::<En>, code, payload, size, first).frames->Ok_0,
            sender,
            keys,
        ),
    )
}

/// The fragments of a payload on the wire are the first of them, and then the fragments of
/// what is left of the payload.
pub proof fn lemma_first_fragment_on_wire<En: ExtensionEncoder>(
    code: DataCode,
    payload: Seq<u8>,
    size: nat,
    first: bool,
    sender: crate::protocol::Role,
    keys: Seq<u32>,
)
    requires
        payload.len() <= spec_max_length(),
        keys.len() == spec_fragment_count::<En>(code, payload, size, first),
    ensures
        ({
            let last = size == 0 || payload.len() <= size;
            let head = spec_fragment_frame(
                code,
                spec_first_chunk(payload, size),
                first,
                last,
                sender,
                keys[0],
            );
            let left = payload.skip(size as int);
            &&& keys.len() >= 1
            &&& last ==> spec_fragments_wire::<En>(code, payload, size, first, sender, keys)
                == spec_encode_frame(head)
            &&& !last ==> keys.len() - 1 == spec_fragment_count::<En>(code, left, size, false)
                && spec_fragments_wire::<En>(code, payload, size, first, sender, keys)
                == spec_encode_frame(head) + spec_fragments_wire::<En>(
                code,
                left,
                size,
                false,
                sender,
                keys.drop_first(),
            )
        }),
{
    reveal(spec_fragment_count);
    reveal(spec_fragments_wire);
    let frames = spec_fragments(None::<En>, code, payload, size, first).frames->Ok_0;
    let sent = spec_masked(frames, sender, keys);
    let last = size == 0 || payload.len() <= size;
    lemma_fragments_carry_the_message::<En>(code, payload, size, first);
    if last {
        assert(sent.drop_first() =~= Seq::<FrameView>::empty());
        assert(spec_encode_frames(sent.drop_first()) =~= Seq::<u8>::empty());
        assert(spec_encode_frames(sent) =~= spec_encode_frame(sent[0]));
    } else {
        let left = payload.skip(size as int);
        lemma_fragments_carry_the_message::<En>(code, left, size, false);
        let later = spec_fragments(None::<En>, code, left, size, false).frames->Ok_0;
        assert(frames =~= seq![frames[0]] + later);
        assert(sent.drop_first() =~= spec_masked(later, sender, keys.drop_first()));
    }
}

/// The frame that carries one fragment, as an end with the role `sender` sends it.
pub open spec fn spec_fragment_frame(
    code: DataCode,
    chunk: Seq<u8>,
    first: bool,
    last: bool,
    sender: crate::protocol::Role,
    key: u32,
) -> FrameView {
    FrameView {
        flags: HeaderFlags { fin: last, rsv1: false, rsv2: false, rsv3: false },
        opcode: OpCode::DataCode(
            if first {
                code
            } else {
                DataCode::Continuation
            },
        ),
        mask: spec_mask_for(sender, key),
        payload: chunk,
    }
}

/// Whether a receiver without an extension stands where the fragment that comes next finds
/// it: with what came before of the message, or idle before the first fragment.
pub open spec fn spec_awaits_fragment<De: ExtensionDecoder>(
    s: ReceiverView<De>,
    code: DataCode,
    sofar: Seq<u8>,
    first: bool,
) -> bool {
    &&& s.decoder is None
    &&& s.state != ConnectionState::Closed
    &&& !s.discarding
    &&& code != DataCode::Continuation
    &&& if first {
        s.fragment == FragmentState::Idle && sofar.len() == 0
    } else {
        s.fragment == FragmentState::Accumulating(code, sofar)
    }
}

/// A fragment that is not the last is taken in: reading goes on behind it, with the fragment
/// added to what came before.
pub proof fn lemma_fragment_is_taken_in<De: ExtensionDecoder>(
    s: ReceiverView<De>,
    code: DataCode,
    sofar: Seq<u8>,
    chunk: Seq<u8>,
    first: bool,
    key: u32,
    tail: Seq<u8>,
)
    requires
        spec_awaits_fragment(s, code, sofar, first),
        chunk.len() <= s.config.max_frame_size,
        chunk.len() <= spec_max_length(),
        sofar.len() + chunk.len() <= s.config.max_message_size,
        s.pending == spec_encode_frame(
            spec_fragment_frame(code, chunk, first, false, s.role.spec_peer(), key),
        ) + tail,
    ensures
        spec_read(s) == spec_read(
            ReceiverView {
                pending: tail,
                fragment: FragmentState::Accumulating(code, sofar + chunk),
                ..s
            },
        ),
        spec_awaits_fragment(
            ReceiverView {
                pending: tail,
                fragment: FragmentState::Accumulating(code, sofar + chunk),
                ..s
            },
            code,
            sofar + chunk,
            false,
        ),
{
    let head = spec_fragment_frame(code, chunk, first, false, s.role.spec_peer(), key);
    lemma_frame_is_taken(s, head, tail);
    if first {
        assert(sofar + chunk =~= chunk);
    }
}

/// The last fragment completes the message: reading hands out what came before with the
/// fragment added to it.
pub proof fn lemma_last_fragment_is_read<De: ExtensionDecoder>(
    s: ReceiverView<De>,
    message: MessageView,
    code: DataCode,
    sofar: Seq<u8>,
    chunk: Seq<u8>,
    first: bool,
    key: u32,
    rest: Seq<u8>,
)
    requires
        spec_awaits_fragment(s, code, sofar, first),
        chunk.len() <= s.config.max_frame_size,
        chunk.len() <= spec_max_length(),
        sofar.len() + chunk.len() <= s.config.max_message_size,
        spec_message_of(OpCode::DataCode(code), sofar + chunk) == Ok::<MessageView, Error>(message),
        s.pending == spec_encode_frame(
            spec_fragment_frame(code, chunk, first, true, s.role.spec_peer(), key),
        ) + rest,
    ensures
        spec_read(s) == Step::Deliver(
            ReceiverView { pending: rest, fragment: FragmentState::Idle, ..s },
            message,
            None,
        ),
{
    let head = spec_fragment_frame(code, chunk, first, true, s.role.spec_peer(), key);
    lemma_frame_is_taken(s, head, rest);
    if first {
        assert(sofar + chunk =~= chunk);
    }
}

/// What is still to come of a message in fragments is read to the end: the receiver holds
/// what came before, the wire holds the fragments of the rest, and reading hands out the whole
/// message.
pub proof fn lemma_rest_of_fragments_is_read<En: ExtensionEncoder, De: ExtensionDecoder>(
    s: ReceiverView<De>,
    message: MessageView,
    code: DataCode,
    sofar: Seq<u8>,
    payload: Seq<u8>,
    size: nat,
    first: bool,
    keys: Seq<u32>,
    rest: Seq<u8>,
)
    requires
        spec_awaits_fragment(s, code, sofar, first),
        sofar.len() + payload.len() <= s.config.max_message_size,
        payload.len() <= spec_max_length(),
        spec_fragments_fit(s, payload, size),
        spec_message_of(OpCode::DataCode(code), sofar + payload) == Ok::<MessageView, Error>(
            message,
        ),
        keys.len() == spec_fragment_count::<En>(code, payload, size, first),
        s.pending == spec_fragments_wire::<En>(
            code,
            payload,
            size,
            first,
            s.role.spec_peer(),
            keys,
        ) + rest,
    ensures
        spec_read(s) == Step::Deliver(
            ReceiverView { pending: rest, fragment: FragmentState::Idle, ..s },
            message,
            None,
        ),
    decreases payload.len(),
{
    let sender = s.role.spec_peer();
    let last = size == 0 || payload.len() <= size;
    let chunk = spec_first_chunk(payload, size);
    lemma_first_fragment_on_wire::<En>(code, payload, size, first, sender, keys);
    if last {
        lemma_last_fragment_is_read(s, message, code, sofar, chunk, first, keys[0], rest);
    } else {
        let left = payload.skip(size as int);
        let tail = spec_fragments_wire::<En>(code, left, size, false, sender, keys.drop_first());
        let head = spec_encode_frame(spec_fragment_frame(code, chunk, first, false, sender, keys[0]));
        assert(s.pending =~= head + (tail + rest));
        lemma_fragment_is_taken_in(s, code, sofar, chunk, first, keys[0], tail + rest);
        let next = ReceiverView {
            pending: tail + rest,
            fragment: FragmentState::Accumulating(code, sofar + chunk),
            ..s
        };
        assert(sofar + chunk + left =~= sofar + payload);
        lemma_rest_of_fragments_is_read::<En, De>(
            next,
            message,
            code,
            sofar + chunk,
            left,
            size,
            false,
            keys.drop_first(),
            rest,
        );
    }
}

/// A message that one end sends in fragments is the message that the other end reads,
/// whatever the size of the fragments, whatever keys mask them, and whatever follows them on
/// the wire: the same message as when it is sent in one frame.
pub proof fn lemma_fragmented_message_is_read_back<En: ExtensionEncoder, De: ExtensionDecoder>(
    s: ReceiverView<De>,
    message: MessageView,
    size: nat,
    keys: Seq<u32>,
    rest: Seq<u8>,
)
    requires
        s.decoder is None,
        s.state != ConnectionState::Closed,
        !s.discarding,
        s.fragment == FragmentState::Idle,
        spec_message_opcode(message) matches OpCode::DataCode(code) && spec_fragments(
            None::<En>,
            code,
            spec_message_payload(message),
            size,
            true,
        ).frames matches Ok(frames) && keys.len() == frames.len() && s.pending
            == spec_encode_frames(spec_masked(frames, s.role.spec_peer(), keys)) + rest,
        spec_message_payload(message).len() <= s.config.max_message_size,
        spec_message_payload(message).len() <= spec_max_length(),
        spec_fragments_fit(s, spec_message_payload(message), size),
    ensures
        spec_read(s) == Step::Deliver(ReceiverView { pending: rest, ..s }, message, None),
{
    let code = spec_message_opcode(message)->DataCode_0;
    let payload = spec_message_payload(message);
    reveal(spec_fragment_count);
    reveal(spec_fragments_wire);
    lemma_message_round_trip(message);
    assert(Seq::<u8>::empty() + payload =~= payload);
    lemma_rest_of_fragments_is_read::<En, De>(
        s,
        message,
        code,
        Seq::<u8>::empty(),
        payload,
        size,
        true,
        keys,
        rest,
    );
}

/// Reading an item takes the frame at the head of the wire: where a frame that the receiver
/// accepts stands first, reading goes on as that frame says, with what follows the frame for
/// the rest of the wire.
pub proof fn lemma_frame_gives_item<De: ExtensionDecoder>(
    s: ReceiverView<De>,
    buffer: Seq<u8>,
    f: FrameView,
    tail: Seq<u8>,
)
    requires
        s.state != ConnectionState::Closed,
        crate::frame::spec_acceptable(f, spec_rules(s)),
        s.pending == spec_encode_frame(f) + tail,
    ensures
        spec_read_item(s, buffer) == match spec_item_of_frame(
            ReceiverView { pending: tail, ..s },
            buffer,
            f,
        ) {
            ItemTaken::Absorbed(after, held) => spec_read_item(after, held),
            ItemTaken::Failed(after, e) => ItemRead { after: after, buffer: buffer, result: Err(e) },
            ItemTaken::Delivered(after, item, held) => ItemRead {
                after: after,
                buffer: held,
                result: Ok(Some(item)),
            },
        },
{
    let e = spec_encode_frame(f);
    lemma_decode_encode(f, tail, spec_rules(s));
    assert((e + tail).skip(e.len() as int) =~= tail);
}

/// A control frame is handed out at once when items are read, also in the middle of a message:
/// the item carries its payload, and the message in progress, the buffer and the state of the
/// connection stay as they are.
pub proof fn lemma_control_item_is_read_at_once<De: ExtensionDecoder>(
    s: ReceiverView<De>,
    buffer: Seq<u8>,
    code: ControlCode,
    payload: Seq<u8>,
    key: u32,
    rest: Seq<u8>,
)
    requires
        s.state != ConnectionState::Closed,
        payload.len() <= 125,
        payload.len() <= s.config.max_frame_size,
        s.pending == spec_encode_frame(
            FrameView {
                flags: HeaderFlags { fin: true, rsv1: false, rsv2: false, rsv3: false },
                opcode: OpCode::ControlCode(code),
                mask: spec_mask_for(s.role.spec_peer(), key),
                payload: payload,
            },
        ) + rest,
    ensures
        spec_read_item(s, buffer) == (ItemRead {
            after: ReceiverView { pending: rest, ..s },
            buffer: buffer,
            result: Ok(Some(spec_control_item(code, payload))),
        }),
{
    let f = FrameView {
        flags: HeaderFlags { fin: true, rsv1: false, rsv2: false, rsv3: false },
        opcode: OpCode::ControlCode(code),
        mask: spec_mask_for(s.role.spec_peer(), key),
        payload: payload,
    };
    lemma_frame_gives_item(s, buffer, f, rest);
}

/// A control frame without the final flag fails the read with a protocol error and closes the
/// connection, whether messages are read or items.
pub proof fn lemma_fragmented_control_fails_read<De: ExtensionDecoder>(
    s: ReceiverView<De>,
    buffer: Seq<u8>,
    code: ControlCode,
    payload: Seq<u8>,
    key: u32,
    rest: Seq<u8>,
)
    requires
        s.state != ConnectionState::Closed,
        payload.len() <= spec_max_length(),
        s.pending == spec_encode_frame(
            FrameView {
                flags: HeaderFlags { fin: false, rsv1: false, rsv2: false, rsv3: false },
                opcode: OpCode::ControlCode(code),
                mask: spec_mask_for(s.role.spec_peer(), key),
                payload: payload,
            },
        ) + rest,
    ensures
        spec_read(s) == Step::Fail(
            ReceiverView { state: ConnectionState::Closed, ..s },
            Error::Protocol(ProtocolError::FragmentedControl),
        ),
        spec_read_item(s, buffer) == (ItemRead {
            after: ReceiverView { state: ConnectionState::Closed, ..s },
            buffer: buffer,
            result: Err(Error::Protocol(ProtocolError::FragmentedControl)),
        }),
{
    let f = FrameView {
        flags: HeaderFlags { fin: false, rsv1: false, rsv2: false, rsv3: false },
        opcode: OpCode::ControlCode(code),
        mask: spec_mask_for(s.role.spec_peer(), key),
        payload: payload,
    };
    crate::frame::lemma_fragmented_control_is_refused(f, rest, spec_rules(s));
}

/// Whether a data frame comes out of turn for a receiver without an extension: a continuation
/// while no message is in progress, or another data frame while one is.
pub open spec fn spec_out_of_turn<De: ExtensionDecoder>(s: ReceiverView<De>, code: DataCode) -> Option<
    ProtocolError,
> {
    match s.fragment {
        FragmentState::Idle => if code == DataCode::Continuation {
            Some(ProtocolError::UnexpectedContinuation)
        } else {
            None
        },
        FragmentState::Accumulating(_, _) => if code != DataCode::Continuation {
            Some(ProtocolError::InterleavedData)
        } else {
            None
        },
    }
}

/// A data frame that comes out of turn fails the read with a protocol error and closes the
/// connection, whether messages are read or items: no message and no item is handed out for
/// it, the message in progress is dropped, and the buffer stays as it is.
pub proof fn lemma_frame_out_of_turn_fails_read<De: ExtensionDecoder>(
    s: ReceiverView<De>,
    buffer: Seq<u8>,
    code: DataCode,
    fin: bool,
    payload: Seq<u8>,
    key: u32,
    rest: Seq<u8>,
)
    requires
        s.state != ConnectionState::Closed,
        s.decoder is None,
        !s.discarding,
        payload.len() <= s.config.max_frame_size,
        payload.len() <= spec_max_length(),
        spec_out_of_turn(s, code) is Some,
        s.pending == spec_encode_frame(
            FrameView {
                flags: HeaderFlags { fin: fin, rsv1: false, rsv2: false, rsv3: false },
                opcode: OpCode::DataCode(code),
                mask: spec_mask_for(s.role.spec_peer(), key),
                payload: payload,
            },
        ) + rest,
    ensures
        spec_read(s) == Step::Fail(
            ReceiverView {
                pending: rest,
                state: ConnectionState::Closed,
                fragment: FragmentState::Idle,
                ..s
            },
            Error::Protocol(spec_out_of_turn(s, code)->Some_0),
        ),
        spec_read_item(s, buffer) == (ItemRead {
            after: ReceiverView {
                pending: rest,
                state: ConnectionState::Closed,
                fragment: FragmentState::Idle,
                ..s
            },
            buffer: buffer,
            result: Err(Error::Protocol(spec_out_of_turn(s, code)->Some_0)),
        }),
{
    let f = FrameView {
        flags: HeaderFlags { fin: fin, rsv1: false, rsv2: false, rsv3: false },
        opcode: OpCode::DataCode(code),
        mask: spec_mask_for(s.role.spec_peer(), key),
        payload: payload,
    };
    lemma_frame_is_taken(s, f, rest);
    lemma_frame_gives_item(s, buffer, f, rest);
}

/// The frame with which a message passes the limit fails the read with a capacity error,
/// whether messages are read or items: nothing is handed out for that message, and the buffer
/// stays as it is. Where the configuration says so the connection is closed, and where not the
/// rest of the message is passed over.
pub proof fn lemma_message_over_the_limit_fails_read<De: ExtensionDecoder>(
    s: ReceiverView<De>,
    buffer: Seq<u8>,
    code: DataCode,
    sofar: Seq<u8>,
    chunk: Seq<u8>,
    first: bool,
    fin: bool,
    key: u32,
    rest: Seq<u8>,
)
    requires
        spec_awaits_fragment(s, code, sofar, first),
        chunk.len() <= s.config.max_frame_size,
        chunk.len() <= spec_max_length(),
        sofar.len() + chunk.len() > s.config.max_message_size,
        s.pending == spec_encode_frame(
            spec_fragment_frame(code, chunk, first, fin, s.role.spec_peer(), key),
        ) + rest,
    ensures
        ({
            let after = if s.config.capacity_error_closes {
                ReceiverView {
                    pending: rest,
                    state: ConnectionState::Closed,
                    fragment: FragmentState::Idle,
                    ..s
                }
            } else {
                ReceiverView {
                    pending: rest,
                    fragment: FragmentState::Idle,
                    discarding: !fin,
                    ..s
                }
            };
            &&& spec_read(s) == Step::Fail(after, Error::Capacity)
            &&& spec_read_item(s, buffer) == (ItemRead {
                after: after,
                buffer: buffer,
                result: Err(Error::Capacity),
            })
        }),
{
    let f = spec_fragment_frame(code, chunk, first, fin, s.role.spec_peer(), key);
    lemma_frame_is_taken(s, f, rest);
    lemma_frame_gives_item(s, buffer, f, rest);
}

/// A fragment that is not the last is gathered: it is appended to the buffer, and reading
/// goes on behind it, with the fragment added to what came before.
pub proof fn lemma_fragment_is_gathered<De: ExtensionDecoder>(
    s: ReceiverView<De>,
    buffer: Seq<u8>,
    code: DataCode,
    sofar: Seq<u8>,
    chunk: Seq<u8>,
    first: bool,
    key: u32,
    tail: Seq<u8>,
)
    requires
        spec_awaits_fragment(s, code, sofar, first),
        chunk.len() <= s.config.max_frame_size,
        chunk.len() <= spec_max_length(),
        sofar.len() + chunk.len() <= s.config.max_message_size,
        buffer.len() + chunk.len() <= spec_buffer_limit(),
        s.pending == spec_encode_frame(
            spec_fragment_frame(code, chunk, first, false, s.role.spec_peer(), key),
        ) + tail,
    ensures
        spec_read_item(s, buffer) == spec_read_item(
            ReceiverView {
                pending: tail,
                fragment: FragmentState::Accumulating(code, sofar + chunk),
                ..s
            },
            buffer + chunk,
        ),
        spec_awaits_fragment(
            ReceiverView {
                pending: tail,
                fragment: FragmentState::Accumulating(code, sofar + chunk),
                ..s
            },
            code,
            sofar + chunk,
            false,
        ),
{
    let head = spec_fragment_frame(code, chunk, first, false, s.role.spec_peer(), key);
    lemma_frame_gives_item(s, buffer, head, tail);
    if first {
        assert(sofar + chunk =~= chunk);
    }
}

/// The last fragment gives the item of the message: it is appended to the buffer like those
/// before it, and the item is that of the opcode with which the message began.
pub proof fn lemma_last_fragment_gives_item<De: ExtensionDecoder>(
    s: ReceiverView<De>,
    buffer: Seq<u8>,
    code: DataCode,
    sofar: Seq<u8>,
    chunk: Seq<u8>,
    first: bool,
    key: u32,
    rest: Seq<u8>,
)
    requires
        spec_awaits_fragment(s, code, sofar, first),
        chunk.len() <= s.config.max_frame_size,
        chunk.len() <= spec_max_length(),
        sofar.len() + chunk.len() <= s.config.max_message_size,
        buffer.len() + chunk.len() <= spec_buffer_limit(),
        s.pending == spec_encode_frame(
            spec_fragment_frame(code, chunk, first, true, s.role.spec_peer(), key),
        ) + rest,
    ensures
        spec_read_item(s, buffer) == (ItemRead {
            after: ReceiverView { pending: rest, fragment: FragmentState::Idle, ..s },
            buffer: buffer + chunk,
            result: Ok(spec_message_item(code)),
        }),
{
    let head = spec_fragment_frame(code, chunk, first, true, s.role.spec_peer(), key);
    lemma_frame_gives_item(s, buffer, head, rest);
}

/// What is still to come of a message in fragments is gathered to the end: the buffer holds
/// what came before, the wire holds the fragments of the rest, and reading gives the item of
/// the message with all of the rest appended to the buffer.
pub proof fn lemma_rest_of_fragments_is_gathered<En: ExtensionEncoder, De: ExtensionDecoder>(
    s: ReceiverView<De>,
    buffer: Seq<u8>,
    code: DataCode,
    sofar: Seq<u8>,
    payload: Seq<u8>,
    size: nat,
    first: bool,
    keys: Seq<u32>,
    rest: Seq<u8>,
)
    requires
        spec_awaits_fragment(s, code, sofar, first),
        sofar.len() + payload.len() <= s.config.max_message_size,
        payload.len() <= spec_max_length(),
        buffer.len() + payload.len() <= spec_buffer_limit(),
        spec_fragments_fit(s, payload, size),
        keys.len() == spec_fragment_count::<En>(code, payload, size, first),
        s.pending == spec_fragments_wire::<En>(
            code,
            payload,
            size,
            first,
            s.role.spec_peer(),
            keys,
        ) + rest,
    ensures
        spec_read_item(s, buffer) == (ItemRead {
            after: ReceiverView { pending: rest, fragment: FragmentState::Idle, ..s },
            buffer: buffer + payload,
            result: Ok(spec_message_item(code)),
        }),
    decreases payload.len(),
{
    let sender = s.role.spec_peer();
    let last = size == 0 || payload.len() <= size;
    let chunk = spec_first_chunk(payload, size);
    lemma_first_fragment_on_wire::<En>(code, payload, size, first, sender, keys);
    if last {
        lemma_last_fragment_gives_item(s, buffer, code, sofar, chunk, first, keys[0], rest);
    } else {
        let left = payload.skip(size as int);
        let tail = spec_fragments_wire::<En>(code, left, size, false, sender, keys.drop_first());
        let head = spec_encode_frame(spec_fragment_frame(code, chunk, first, false, sender, keys[0]));
        assert(s.pending =~= head + (tail + rest));
        lemma_fragment_is_gathered(s, buffer, code, sofar, chunk, first, keys[0], tail + rest);
        let next = ReceiverView {
            pending: tail + rest,
            fragment: FragmentState::Accumulating(code, sofar + chunk),
            ..s
        };
        assert(buffer + chunk + left =~= buffer + payload);
        lemma_rest_of_fragments_is_gathered::<En, De>(
            next,
            buffer + chunk,
            code,
            sofar + chunk,
            left,
            size,
            false,
            keys.drop_first(),
            rest,
        );
    }
}

/// A message that one end sends in fragments is one item for the end that reads items,
/// whatever the size of the fragments, whatever keys mask them, and whatever follows them on
/// the wire: one read gives the item of the message and appends its whole payload to the
/// buffer, just as when the message is sent in one frame.
pub proof fn lemma_fragmented_message_is_one_item<En: ExtensionEncoder, De: ExtensionDecoder>(
    s: ReceiverView<De>,
    buffer: Seq<u8>,
    code: DataCode,
    payload: Seq<u8>,
    size: nat,
    keys: Seq<u32>,
    rest: Seq<u8>,
)
    requires
        s.decoder is None,
        s.state != ConnectionState::Closed,
        !s.discarding,
        s.fragment == FragmentState::Idle,
        code != DataCode::Continuation,
        payload.len() <= s.config.max_message_size,
        payload.len() <= spec_max_length(),
        buffer.len() + payload.len() <= spec_buffer_limit(),
        spec_fragments_fit(s, payload, size),
        spec_fragments(None::<En>, code, payload, size, true).frames matches Ok(frames)
            && keys.len() == frames.len() && s.pending == spec_encode_frames(
            spec_masked(frames, s.role.spec_peer(), keys),
        ) + rest,
    ensures
        spec_read_item(s, buffer) == (ItemRead {
            after: ReceiverView { pending: rest, ..s },
            buffer: buffer + payload,
            result: Ok(spec_message_item(code)),
        }),
        payload.len() <= s.config.max_frame_size ==> spec_read_item(
            ReceiverView {
                pending: spec_encode_frame(
                    spec_fragment_frame(code, payload, true, true, s.role.spec_peer(), keys[0]),
                ) + rest,
                ..s
            },
            buffer,
        ) == spec_read_item(s, buffer),
{
    reveal(spec_fragment_count);
    reveal(spec_fragments_wire);
    lemma_rest_of_fragments_is_gathered::<En, De>(
        s,
        buffer,
        code,
        Seq::<u8>::empty(),
        payload,
        size,
        true,
        keys,
        rest,
    );
    if payload.len() <= s.config.max_frame_size {
        let one = ReceiverView {
            pending: spec_encode_frame(
                spec_fragment_frame(code, payload, true, true, s.role.spec_peer(), keys[0]),
            ) + rest,
            ..s
        };
        lemma_last_fragment_gives_item(
            one,
            buffer,
            code,
            Seq::<u8>::empty(),
            payload,
            true,
            keys[0],
            rest,
        );
    }
}

/// Pongs as an end with the role `sender` sends them, one frame for each payload.
pub open spec fn spec_pong_frames(
    payloads: Seq<Seq<u8>>,
    sender: crate::protocol::Role,
    keys: Seq<u32>,
) -> Seq<FrameView> {
    Seq::new(
        payloads.len(),
        |i: int|
            FrameView {
                flags: HeaderFlags { fin: true, rsv1: false, rsv2: false, rsv3: false },
                opcode: OpCode::ControlCode(ControlCode::Pong),
                mask: spec_mask_for(sender, keys[i]),
                payload: payloads[i],
            },
    )
}

/// Pongs are read one by one, as many as were written and no more: where the wire holds the
/// pongs from the one at `index` on and nothing else, reading an item gives the pong at
/// `index` with its payload and leaves the wire at the next, and after the last pong it gives
/// nothing. So the one pong that answers a ping is read once, before any pong that the
/// application sent after it, however many those are.
pub proof fn lemma_pongs_are_read_one_by_one<De: ExtensionDecoder>(
    s: ReceiverView<De>,
    buffer: Seq<u8>,
    payloads: Seq<Seq<u8>>,
    keys: Seq<u32>,
    index: int,
)
    requires
        s.state != ConnectionState::Closed,
        keys.len() == payloads.len(),
        0 <= index <= payloads.len(),
        forall|i: int|
            0 <= i < payloads.len() ==> (#[trigger] payloads[i]).len() <= 125 && payloads[i].len()
                <= s.config.max_frame_size,
        s.pending == spec_encode_frames(
            spec_pong_frames(payloads, s.role.spec_peer(), keys).skip(index),
        ),
    ensures
        spec_read_item(s, buffer) == if index < payloads.len() {
            ItemRead {
                after: ReceiverView {
                    pending: spec_encode_frames(
                        spec_pong_frames(payloads, s.role.spec_peer(), keys).skip(index + 1),
                    ),
                    ..s
                },
                buffer: buffer,
                result: Ok(Some(ItemView::Pong(payloads[index]))),
            }
        } else {
            ItemRead { after: s, buffer: buffer, result: Ok(None) }
        },
{
    let frames = spec_pong_frames(payloads, s.role.spec_peer(), keys);
    let here = frames.skip(index);
    if index < payloads.len() {
        let tail = spec_encode_frames(frames.skip(index + 1));
        assert(here[0] == frames[index]);
        assert(here.drop_first() =~= frames.skip(index + 1));
        assert(s.pending == spec_encode_frame(frames[index]) + tail);
        assert(payloads[index].len() <= 125);
        lemma_frame_gives_item(s, buffer, frames[index], tail);
    } else {
        assert(here =~= Seq::<FrameView>::empty());
        assert(s.pending =~= Seq::<u8>::empty());
    }
}

/// A ping is answered by exactly one pong, whatever the application sends afterwards. The end
/// that reads the ping answers it with one frame, a pong with the payload of the ping. Where
/// the application then sends any number of pongs of its own, the other end reads the answer
/// first and the application's pongs after it, each once and in order, and then nothing: one
/// pong more than the application sent.
pub proof fn lemma_ping_is_answered_once<De: ExtensionDecoder>(
    peer: ReceiverView<De>,
    here: ReceiverView<De>,
    buffer: Seq<u8>,
    ping: Seq<u8>,
    own: Seq<Seq<u8>>,
    ping_key: u32,
    keys: Seq<u32>,
    rest: Seq<u8>,
)
    requires
        spec_ready_for(peer, MessageView::Ping(ping)),
        peer.pending == spec_encode_frame(
            spec_message_frame(MessageView::Ping(ping), here.role, ping_key),
        ) + rest,
        peer.role.spec_peer() == here.role,
        here.role.spec_peer() == peer.role,
        here.state != ConnectionState::Closed,
        ping.len() <= here.config.max_frame_size,
        forall|i: int|
            0 <= i < own.len() ==> (#[trigger] own[i]).len() <= 125 && own[i].len()
                <= here.config.max_frame_size,
        keys.len() == 1 + own.len(),
    ensures
        spec_read(peer) matches Step::Deliver(_, message, answer) && message == MessageView::Ping(
            ping,
        ) && answer == Some((ControlCode::Pong, ping)),
        forall|index: int|
            0 <= index <= 1 + own.len() ==> (#[trigger] spec_read_item(
                ReceiverView {
                    pending: spec_encode_frames(
                        spec_pong_frames(seq![ping] + own, peer.role, keys).skip(index),
                    ),
                    ..here
                },
                buffer,
            )).result == if index < 1 + own.len() {
                Ok::<Option<ItemView>, Error>(Some(ItemView::Pong((seq![ping] + own)[index])))
            } else {
                Ok::<Option<ItemView>, Error>(None)
            },
        (seq![ping] + own)[0] == ping,
{
    lemma_message_is_read_back(peer, MessageView::Ping(ping), ping_key, rest);
    let all = seq![ping] + own;
    assert forall|i: int| 0 <= i < all.len() implies (#[trigger] all[i]).len() <= 125 && all[i].len()
        <= here.config.max_frame_size by {
        if i > 0 {
            assert(all[i] == own[i - 1]);
        }
    }
    assert forall|index: int| 0 <= index <= 1 + own.len() implies (#[trigger] spec_read_item(
        ReceiverView {
            pending: spec_encode_frames(spec_pong_frames(all, peer.role, keys).skip(index)),
            ..here
        },
        buffer,
    )).result == if index < 1 + own.len() {
        Ok::<Option<ItemView>, Error>(Some(ItemView::Pong(all[index])))
    } else {
        Ok::<Option<ItemView>, Error>(None)
    } by {
        let at = ReceiverView {
            pending: spec_encode_frames(spec_pong_frames(all, peer.role, keys).skip(index)),
            ..here
        };
        lemma_pongs_are_read_one_by_one(at, buffer, all, keys, index);
    }
}

} // verus!
