//! The frame codec: one frame to its bytes on the wire, and bytes back to one frame.
//!
//! A frame on the wire is a first byte (final flag, three reserved bits, opcode), a length field
//! of one, three or nine bytes whose top bit says whether a mask key follows, the four bytes of
//! the key if so, and the payload, masked with the key if there is one.

use vstd::prelude::*;
use vstd::slice::slice_subrange;
use vstd::slice::slice_to_vec;
use crate::errors::Error;
use crate::errors::ProtocolError;
use crate::mask::apply_mask;
use crate::mask::key_bytes;
use crate::mask::key_from_bytes;
use crate::mask::spec_apply_mask;
use crate::mask::spec_key_bytes;
use crate::mask::spec_key_from_bytes;
use crate::protocol::OpCode;
use crate::protocol::Role;

verus! {

/// The four flags of a frame's first byte.
#[derive(Clone, Copy, Debug, PartialEq, Eq, Structural)]
pub struct HeaderFlags {
    /// Set on the last frame of a message.
    pub fin: bool,
    pub rsv1: bool,
    pub rsv2: bool,
    pub rsv3: bool,
}

impl HeaderFlags {
    /// The final flag alone.
    pub fn fin() -> (r: HeaderFlags)
        ensures
            r == (HeaderFlags { fin: true, rsv1: false, rsv2: false, rsv3: false }),
    {
        HeaderFlags { fin: true, rsv1: false, rsv2: false, rsv3: false }
    }

    /// No flag at all.
    pub fn empty() -> (r: HeaderFlags)
        ensures
            r == (HeaderFlags { fin: false, rsv1: false, rsv2: false, rsv3: false }),
    {
        HeaderFlags { fin: false, rsv1: false, rsv2: false, rsv3: false }
    }

    /// Whether every reserved bit that is set here is set in `allowed` too.
    pub open spec fn spec_reserved_within(self, allowed: HeaderFlags) -> bool {
        &&& self.rsv1 ==> allowed.rsv1
        &&& self.rsv2 ==> allowed.rsv2
        &&& self.rsv3 ==> allowed.rsv3
    }

    #[verifier::when_used_as_spec(spec_reserved_within)]
    pub fn reserved_within(self, allowed: HeaderFlags) -> (r: bool)
        ensures
            r == self.spec_reserved_within(allowed),
    {
        (!self.rsv1 || allowed.rsv1) && (!self.rsv2 || allowed.rsv2) && (!self.rsv3
            || allowed.rsv3)
    }
}

/// One frame, its payload in the clear.
#[derive(Clone, Debug, PartialEq, Eq)]
pub struct Frame {
    pub flags: HeaderFlags,
    pub opcode: OpCode,
    /// The key that masks the payload on the wire, if any.
    pub mask: Option<u32>,
    pub payload: Vec<u8>,
}

/// What a frame is, as a mathematical value.
pub struct FrameView {
    pub flags: HeaderFlags,
    pub opcode: OpCode,
    pub mask: Option<u32>,
    pub payload: Seq<u8>,
}

impl View for Frame {
    type V = FrameView;

    open spec fn view(&self) -> FrameView {
        FrameView { flags: self.flags, opcode: self.opcode, mask: self.mask, payload: self.payload@ }
    }
}

/// The largest length that a length field can state: 63 bits.
pub open spec fn spec_max_length() -> nat {
    0x7fff_ffff_ffff_ffff
}

/// The first byte of a frame.
pub open spec fn spec_first_byte(flags: HeaderFlags, opcode: OpCode) -> u8 {
    ((if flags.fin { 128int } else { 0 }) + (if flags.rsv1 { 64int } else { 0 }) + (if flags.rsv2 {
        32int
    } else {
        0
    }) + (if flags.rsv3 { 16int } else { 0 }) + opcode.spec_bits()) as u8
}

/// The flags that a first byte holds.
pub open spec fn spec_flags_of(b: u8) -> HeaderFlags {
    HeaderFlags { fin: b >= 128, rsv1: b % 128 >= 64, rsv2: b % 64 >= 32, rsv3: b % 32 >= 16 }
}

/// The eight bytes of a 64-bit number, most significant first.
pub open spec fn spec_u64_bytes(v: u64) -> Seq<u8> {
    seq![
        ((v >> 56) & 0xff) as u8,
        ((v >> 48) & 0xff) as u8,
        ((v >> 40) & 0xff) as u8,
        ((v >> 32) & 0xff) as u8,
        ((v >> 24) & 0xff) as u8,
        ((v >> 16) & 0xff) as u8,
        ((v >> 8) & 0xff) as u8,
        (v & 0xff) as u8,
    ]
}

/// The 64-bit number whose bytes, most significant first, are the first eight of `b`.
pub open spec fn spec_u64_from_bytes(b: Seq<u8>) -> u64
    recommends
        b.len() >= 8,
{
    ((b[0] as u64) << 56) | ((b[1] as u64) << 48) | ((b[2] as u64) << 40) | ((b[3] as u64) << 32) | (
    (b[4] as u64) << 24) | ((b[5] as u64) << 16) | ((b[6] as u64) << 8) | (b[7] as u64)
}

/// The length field for a payload of `len` bytes: the shortest of the three forms that holds it.
pub open spec fn spec_length_field(len: nat, masked: bool) -> Seq<u8> {
    let flag: int = if masked { 128 } else { 0 };
    if len < 126 {
        seq![(flag + len) as u8]
    } else if len < 0x1_0000 {
        seq![(flag + 126) as u8, (len / 256) as u8, (len % 256) as u8]
    } else {
        seq![(flag + 127) as u8] + spec_u64_bytes(len as u64)
    }
}

/// The bytes of a frame on the wire.
pub open spec fn spec_encode_frame(f: FrameView) -> Seq<u8> {
    seq![spec_first_byte(f.flags, f.opcode)] + spec_length_field(f.payload.len(), f.mask is Some)
        + match f.mask {
        Some(key) => spec_key_bytes(key) + spec_apply_mask(f.payload, key),
        None => f.payload,
    }
}

pub fn u64_bytes(v: u64) -> (r: [u8; 8])
    ensures
        r@ == spec_u64_bytes(v),
{
    assert(((v >> 56) & 0xff) < 0x100 && ((v >> 48) & 0xff) < 0x100 && ((v >> 40) & 0xff) < 0x100
        && ((v >> 32) & 0xff) < 0x100 && ((v >> 24) & 0xff) < 0x100 && ((v >> 16) & 0xff) < 0x100
        && ((v >> 8) & 0xff) < 0x100 && (v & 0xff) < 0x100) by (bit_vector);
    let r: [u8; 8] = [
        ((v >> 56) & 0xff) as u8,
        ((v >> 48) & 0xff) as u8,
        ((v >> 40) & 0xff) as u8,
        ((v >> 32) & 0xff) as u8,
        ((v >> 24) & 0xff) as u8,
        ((v >> 16) & 0xff) as u8,
        ((v >> 8) & 0xff) as u8,
        (v & 0xff) as u8,
    ];
    assert(r@ =~= spec_u64_bytes(v));
    r
}

pub fn first_byte(flags: HeaderFlags, opcode: OpCode) -> (r: u8)
    ensures
        r == spec_first_byte(flags, opcode),
{
    let mut b: u8 = opcode.bits();
    if flags.fin {
        b = b + 128;
    }
    if flags.rsv1 {
        b = b + 64;
    }
    if flags.rsv2 {
        b = b + 32;
    }
    if flags.rsv3 {
        b = b + 16;
    }
    b
}

/// Writes one frame as it goes on the wire. The payload is masked if a key is given.
pub fn encode_frame(flags: HeaderFlags, opcode: OpCode, mask: Option<u32>, payload: &[u8]) -> (out:
    Vec<u8>)
    ensures
        out@ == spec_encode_frame(
            FrameView { flags: flags, opcode: opcode, mask: mask, payload: payload@ },
        ),
{
    let len: usize = payload.len();
    let flag: u8 = if mask.is_some() {
        128
    } else {
        0
    };
    let mut out: Vec<u8> = Vec::new();
    out.push(first_byte(flags, opcode));
    if len < 126 {
        out.push(flag + (len as u8));
    } else if len < 0x1_0000 {
        out.push(flag + 126);
        out.push((len / 256) as u8);
        out.push((len % 256) as u8);
    } else {
        out.push(flag + 127);
        let lb: [u8; 8] = u64_bytes(len as u64);
        out.extend_from_slice(lb.as_slice());
    }
    assert(out@ =~= seq![spec_first_byte(flags, opcode)] + spec_length_field(
        payload@.len(),
        mask is Some,
    ));
    match mask {
        Some(key) => {
            let kb: [u8; 4] = key_bytes(key);
            out.extend_from_slice(kb.as_slice());
            let mut body: Vec<u8> = slice_to_vec(payload);
            apply_mask(&mut body, key);
            out.extend_from_slice(body.as_slice());
        },
        None => {
            out.extend_from_slice(payload);
        },
    }
    assert(out@ =~= spec_encode_frame(
        FrameView { flags: flags, opcode: opcode, mask: mask, payload: payload@ },
    ));
    out
}

/// What a receiver accepts in a frame.
#[derive(Clone, Copy, Debug, PartialEq, Eq, Structural)]
pub struct DecodeRules {
    /// The role of the end that reads: a server reads masked frames only, a client unmasked
    /// ones only.
    pub role: Role,
    /// The reserved bits that the active extension claims. Its other flags are not read.
    pub reserved: HeaderFlags,
    /// The longest payload accepted in one frame.
    pub max_frame_size: usize,
}

/// What the bytes at the head of a buffer amount to.
pub enum Decoded {
    /// Not yet a whole frame: more bytes are needed, and none was consumed.
    Incomplete,
    /// The bytes cannot begin an acceptable frame.
    Invalid(ProtocolError),
    /// A frame, and the number of bytes that it took.
    Complete(FrameView, nat),
}

/// How many bytes of extended length follow a second byte with this 7-bit length.
pub open spec fn spec_extended_length_size(len7: int) -> nat {
    if len7 == 126 {
        2
    } else if len7 == 127 {
        8
    } else {
        0
    }
}

/// The payload length that the length field states. `bytes` holds the whole field.
pub open spec fn spec_stated_length(bytes: Seq<u8>) -> nat
    recommends
        bytes.len() >= 2 + spec_extended_length_size((bytes[1] % 128) as int),
{
    let len7: int = (bytes[1] % 128) as int;
    if len7 == 126 {
        (bytes[2] * 256 + bytes[3]) as nat
    } else if len7 == 127 {
        spec_u64_from_bytes(bytes.subrange(2, 10)) as nat
    } else {
        len7 as nat
    }
}

/// Whether the length field is the shortest form for the length that it states, within 63 bits.
pub open spec fn spec_length_is_minimal(len7: int, len: nat) -> bool {
    if len7 == 126 {
        len >= 126
    } else if len7 == 127 {
        0x1_0000 <= len <= spec_max_length()
    } else {
        true
    }
}

/// What a receiver that follows `rules` makes of the bytes at the head of its buffer.
///
/// The header is judged as soon as its bytes are there, in this order: reserved bits, opcode,
/// masking, the two rules on control frames, the form of the length field, the frame limit.
/// A header that passes waits until the whole payload has come.
pub open spec fn spec_decode_frame(bytes: Seq<u8>, rules: DecodeRules) -> Decoded {
    if bytes.len() < 2 {
        Decoded::Incomplete
    } else {
        let flags = spec_flags_of(bytes[0]);
        let masked: bool = bytes[1] >= 128;
        let len7: int = (bytes[1] % 128) as int;
        let key_size: nat = if masked { 4 } else { 0 };
        let head: nat = 2 + spec_extended_length_size(len7) + key_size;
        match OpCode::spec_from_bits(bytes[0] % 16) {
            None => if !flags.spec_reserved_within(rules.reserved) {
                Decoded::Invalid(ProtocolError::ReservedBits)
            } else {
                Decoded::Invalid(ProtocolError::UnknownOpCode)
            },
            Some(opcode) => if !flags.spec_reserved_within(rules.reserved) {
                Decoded::Invalid(ProtocolError::ReservedBits)
            } else if masked != (rules.role == Role::Server) {
                Decoded::Invalid(ProtocolError::Masking)
            } else if opcode.spec_is_control() && !flags.fin {
                Decoded::Invalid(ProtocolError::FragmentedControl)
            } else if opcode.spec_is_control() && len7 > 125 {
                Decoded::Invalid(ProtocolError::ControlTooLarge)
            } else if bytes.len() < 2 + spec_extended_length_size(len7) {
                Decoded::Incomplete
            } else {
                let len: nat = spec_stated_length(bytes);
                if !spec_length_is_minimal(len7, len) {
                    Decoded::Invalid(ProtocolError::LengthEncoding)
                } else if len > rules.max_frame_size {
                    Decoded::Invalid(ProtocolError::FrameTooLarge)
                } else if bytes.len() < head + len {
                    Decoded::Incomplete
                } else {
                    let body = bytes.subrange(head as int, (head + len) as int);
                    let mask: Option<u32> = if masked {
                        Some(
                            spec_key_from_bytes(
                                bytes[head - 4],
                                bytes[head - 3],
                                bytes[head - 2],
                                bytes[head - 1],
                            ),
                        )
                    } else {
                        None
                    };
                    let payload = match mask {
                        Some(key) => spec_apply_mask(body, key),
                        None => body,
                    };
                    Decoded::Complete(
                        FrameView { flags: flags, opcode: opcode, mask: mask, payload: payload },
                        head + len,
                    )
                }
            },
        }
    }
}

pub fn u64_from_bytes(b: &[u8]) -> (r: u64)
    requires
        b@.len() >= 8,
    ensures
        r == spec_u64_from_bytes(b@),
{
    ((b[0] as u64) << 56) | ((b[1] as u64) << 48) | ((b[2] as u64) << 40) | ((b[3] as u64) << 32) | (
    (b[4] as u64) << 24) | ((b[5] as u64) << 16) | ((b[6] as u64) << 8) | (b[7] as u64)
}

pub fn flags_of(b: u8) -> (r: HeaderFlags)
    ensures
        r == spec_flags_of(b),
{
    HeaderFlags { fin: b >= 128, rsv1: b % 128 >= 64, rsv2: b % 64 >= 32, rsv3: b % 32 >= 16 }
}

/// Reads the frame at the head of `bytes`, if a whole one is there.
///
/// `Ok(None)` asks for more bytes. `Ok(Some(..))` holds the frame, its payload unmasked, and
/// the number of bytes that it took from the head of the buffer.
pub fn decode_frame(bytes: &[u8], rules: &DecodeRules) -> (r: Result<Option<(Frame, usize)>, Error>)
    ensures
        match spec_decode_frame(bytes@, *rules) {
            Decoded::Incomplete => r == Ok::<Option<(Frame, usize)>, Error>(None),
            Decoded::Invalid(e) => r == Err::<Option<(Frame, usize)>, Error>(Error::Protocol(e)),
            Decoded::Complete(f, n) => r matches Ok(Some(found)) && found.0@ == f && found.1 == n,
        },
{
    let total: usize = bytes.len();
    if total < 2 {
        return Ok(None);
    }
    let b0: u8 = bytes[0];
    let b1: u8 = bytes[1];
    let flags = flags_of(b0);
    let masked: bool = b1 >= 128;
    let len7: u8 = b1 % 128;
    if !flags.reserved_within(rules.reserved) {
        return Err(Error::Protocol(ProtocolError::ReservedBits));
    }
    let opcode = match OpCode::from_bits(b0 % 16) {
        None => {
            return Err(Error::Protocol(ProtocolError::UnknownOpCode));
        },
        Some(op) => op,
    };
    if masked != rules.role.is_server() {
        return Err(Error::Protocol(ProtocolError::Masking));
    }
    if opcode.is_control() && !flags.fin {
        return Err(Error::Protocol(ProtocolError::FragmentedControl));
    }
    if opcode.is_control() && len7 > 125 {
        return Err(Error::Protocol(ProtocolError::ControlTooLarge));
    }
    let ext: usize = if len7 == 126 {
        2
    } else if len7 == 127 {
        8
    } else {
        0
    };
    if total < 2 + ext {
        return Ok(None);
    }
    let stated: u64 = if len7 == 126 {
        bytes[2] as u64 * 256 + bytes[3] as u64
    } else if len7 == 127 {
        u64_from_bytes(slice_subrange(bytes, 2, 10))
    } else {
        len7 as u64
    };
    assert(stated == spec_stated_length(bytes@));
    if len7 == 126 && stated < 126 {
        return Err(Error::Protocol(ProtocolError::LengthEncoding));
    }
    if len7 == 127 && (stated < 0x1_0000 || stated > 0x7fff_ffff_ffff_ffff) {
        return Err(Error::Protocol(ProtocolError::LengthEncoding));
    }
    if stated > rules.max_frame_size as u64 {
        return Err(Error::Protocol(ProtocolError::FrameTooLarge));
    }
    let len: usize = stated as usize;
    let head: usize = if masked {
        2 + ext + 4
    } else {
        2 + ext
    };
    if total < head || total - head < len {
        return Ok(None);
    }
    let mut payload: Vec<u8> = slice_to_vec(slice_subrange(bytes, head, head + len));
    let mask: Option<u32> = if masked {
        let key: u32 = key_from_bytes(
            bytes[head - 4],
            bytes[head - 3],
            bytes[head - 2],
            bytes[head - 1],
        );
        apply_mask(&mut payload, key);
        Some(key)
    } else {
        None
    };
    let frame = Frame { flags: flags, opcode: opcode, mask: mask, payload: payload };
    Ok(Some((frame, head + len)))
}

/// Whether a receiver that follows `rules` accepts this frame.
pub open spec fn spec_acceptable(f: FrameView, rules: DecodeRules) -> bool {
    &&& f.flags.spec_reserved_within(rules.reserved)
    &&& (f.mask is Some) == (rules.role == Role::Server)
    &&& f.opcode.spec_is_control() ==> f.flags.fin && f.payload.len() <= 125
    &&& f.payload.len() <= rules.max_frame_size
    &&& f.payload.len() <= spec_max_length()
}

/// The number of bytes before the payload in a frame's encoding.
pub open spec fn spec_head_size(payload_len: nat, masked: bool) -> nat {
    let ext: nat = if payload_len < 126 {
        0
    } else if payload_len < 0x1_0000 {
        2
    } else {
        8
    };
    let key: nat = if masked { 4 } else { 0 };
    2 + ext + key
}

/// A 64-bit number is its eight bytes put together again.
pub proof fn lemma_u64_bytes_round_trip(v: u64)
    ensures
        spec_u64_from_bytes(spec_u64_bytes(v)) == v,
{
    let b0: u8 = ((v >> 56) & 0xff) as u8;
    let b1: u8 = ((v >> 48) & 0xff) as u8;
    let b2: u8 = ((v >> 40) & 0xff) as u8;
    let b3: u8 = ((v >> 32) & 0xff) as u8;
    let b4: u8 = ((v >> 24) & 0xff) as u8;
    let b5: u8 = ((v >> 16) & 0xff) as u8;
    let b6: u8 = ((v >> 8) & 0xff) as u8;
    let b7: u8 = (v & 0xff) as u8;
    assert(((b0 as u64) << 56) | ((b1 as u64) << 48) | ((b2 as u64) << 40) | ((b3 as u64) << 32) | ((b4 as u64)
        << 24) | ((b5 as u64) << 16) | ((b6 as u64) << 8) | (b7 as u64) == v) by (bit_vector)
        requires
            b0 == ((v >> 56) & 0xff) as u8,
            b1 == ((v >> 48) & 0xff) as u8,
            b2 == ((v >> 40) & 0xff) as u8,
            b3 == ((v >> 32) & 0xff) as u8,
            b4 == ((v >> 24) & 0xff) as u8,
            b5 == ((v >> 16) & 0xff) as u8,
            b6 == ((v >> 8) & 0xff) as u8,
            b7 == (v & 0xff) as u8,
    ;
}

/// The shape of an encoding: its first byte, what its second byte says, and where the payload
/// begins and ends.
pub proof fn lemma_encoding_shape(f: FrameView)
    requires
        f.payload.len() <= spec_max_length(),
    ensures
        ({
            let e = spec_encode_frame(f);
            let head = spec_head_size(f.payload.len(), f.mask is Some);
            &&& e.len() == head + f.payload.len()
            &&& e[0] == spec_first_byte(f.flags, f.opcode)
            &&& (e[1] >= 128) == (f.mask is Some)
            &&& f.payload.len() < 126 ==> e[1] % 128 == f.payload.len()
            &&& 126 <= f.payload.len() < 0x1_0000 ==> e[1] % 128 == 126
            &&& 0x1_0000 <= f.payload.len() ==> e[1] % 128 == 127
            &&& e.len() >= 2 + spec_extended_length_size((e[1] % 128) as int)
            &&& spec_stated_length(e) == f.payload.len()
            &&& f.mask matches Some(key) ==> e.subrange(head - 4, head as int) == spec_key_bytes(key)
                && e.subrange(head as int, e.len() as int) == spec_apply_mask(f.payload, key)
            &&& f.mask is None ==> e.subrange(head as int, e.len() as int) == f.payload
        }),
{
    let e = spec_encode_frame(f);
    let n = f.payload.len();
    let masked = f.mask is Some;
    let field = spec_length_field(n, masked);
    let head = spec_head_size(n, masked);
    let tail = match f.mask {
        Some(key) => spec_key_bytes(key) + spec_apply_mask(f.payload, key),
        None => f.payload,
    };
    assert(e == seq![spec_first_byte(f.flags, f.opcode)] + field + tail);
    assert(e[0] == spec_first_byte(f.flags, f.opcode));
    assert(e[1] == field[0]);
    if n < 126 {
        assert(field.len() == 1);
    } else if n < 0x1_0000 {
        assert(field.len() == 3);
        assert(e[2] == field[1] && e[3] == field[2]);
        assert(e[2] == (n / 256) as u8 && e[3] == (n % 256) as u8);
    } else {
        let lb = spec_u64_bytes(n as u64);
        assert(field.len() == 9);
        assert(e.subrange(2, 10) =~= lb);
        lemma_u64_bytes_round_trip(n as u64);
    }
    match f.mask {
        Some(key) => {
            assert(e.subrange(head - 4, head as int) =~= spec_key_bytes(key));
            assert(e.subrange(head as int, e.len() as int) =~= spec_apply_mask(f.payload, key));
        },
        None => {
            assert(e.subrange(head as int, e.len() as int) =~= f.payload);
        },
    }
}

/// The first byte gives back the flags and the opcode that it was made of.
pub proof fn lemma_first_byte_round_trip(flags: HeaderFlags, opcode: OpCode)
    ensures
        spec_flags_of(spec_first_byte(flags, opcode)) == flags,
        OpCode::spec_from_bits((spec_first_byte(flags, opcode) % 16) as u8) == Some(opcode),
{
    let b = spec_first_byte(flags, opcode);
    assert(opcode.spec_bits() < 16);
}

/// Decoding undoes encoding, whatever follows the frame in the buffer: a receiver that accepts
/// a frame reads exactly that frame from the head of the bytes and takes exactly its bytes.
pub proof fn lemma_decode_encode(f: FrameView, rest: Seq<u8>, rules: DecodeRules)
    requires
        spec_acceptable(f, rules),
    ensures
        spec_decode_frame(spec_encode_frame(f) + rest, rules) == Decoded::Complete(
            f,
            spec_encode_frame(f).len(),
        ),
{
    let e = spec_encode_frame(f);
    let bytes = e + rest;
    let n = f.payload.len();
    let masked = f.mask is Some;
    let head = spec_head_size(n, masked);
    lemma_encoding_shape(f);
    lemma_first_byte_round_trip(f.flags, f.opcode);
    assert(bytes[0] == e[0] && bytes[1] == e[1]);
    let len7: int = (bytes[1] % 128) as int;
    assert(head == 2 + spec_extended_length_size(len7) + (if masked { 4nat } else { 0nat }));
    if 126 <= n < 0x1_0000 {
        assert(bytes[2] == e[2] && bytes[3] == e[3]);
    }
    if 0x1_0000 <= n {
        assert(bytes.subrange(2, 10) =~= e.subrange(2, 10));
    }
    assert(spec_stated_length(bytes) == n);
    assert(bytes.subrange(head as int, (head + n) as int) =~= e.subrange(
        head as int,
        e.len() as int,
    ));
    match f.mask {
        Some(key) => {
            let kb = e.subrange(head - 4, head as int);
            assert(kb[0] == bytes[head - 4] && kb[1] == bytes[head - 3] && kb[2] == bytes[head - 2]
                && kb[3] == bytes[head - 1]);
            crate::mask::lemma_key_bytes_round_trip(key);
            crate::mask::lemma_mask_involution(f.payload, key);
        },
        None => {},
    }
}

/// No proper prefix of a frame's encoding is taken for a frame or for an error after the header
/// was accepted: a receiver that accepts the frame waits for the rest of it.
pub proof fn lemma_prefix_is_incomplete(f: FrameView, k: int, rules: DecodeRules)
    requires
        spec_acceptable(f, rules),
        0 <= k < spec_encode_frame(f).len(),
    ensures
        spec_decode_frame(spec_encode_frame(f).subrange(0, k), rules) == Decoded::Incomplete,
{
    let e = spec_encode_frame(f);
    let bytes = e.subrange(0, k);
    let n = f.payload.len();
    let masked = f.mask is Some;
    let head = spec_head_size(n, masked);
    lemma_encoding_shape(f);
    lemma_first_byte_round_trip(f.flags, f.opcode);
    if k >= 2 {
        assert(bytes[0] == e[0] && bytes[1] == e[1]);
        let len7: int = (bytes[1] % 128) as int;
        if k >= 2 + spec_extended_length_size(len7) {
            if 126 <= n < 0x1_0000 {
                assert(bytes[2] == e[2] && bytes[3] == e[3]);
            }
            if 0x1_0000 <= n {
                assert(bytes.subrange(2, 10) =~= e.subrange(2, 10));
            }
            assert(spec_stated_length(bytes) == n);
        }
    }
}

/// A frame whose masking does not fit the direction is refused, whatever else it holds:
/// a masked frame by a client, an unmasked one by a server.
pub proof fn lemma_wrong_masking_is_refused(f: FrameView, rest: Seq<u8>, rules: DecodeRules)
    requires
        f.flags.spec_reserved_within(rules.reserved),
        f.payload.len() <= spec_max_length(),
        (f.mask is Some) != (rules.role == Role::Server),
    ensures
        spec_decode_frame(spec_encode_frame(f) + rest, rules) == Decoded::Invalid(
            ProtocolError::Masking,
        ),
{
    let e = spec_encode_frame(f);
    let bytes = e + rest;
    lemma_encoding_shape(f);
    lemma_first_byte_round_trip(f.flags, f.opcode);
    assert(bytes[0] == e[0] && bytes[1] == e[1]);
}

/// A control frame with more than 125 bytes of payload is refused as soon as its header is
/// read: no byte of its payload is waited for, and none is handed on.
pub proof fn lemma_large_control_is_refused(f: FrameView, rest: Seq<u8>, rules: DecodeRules)
    requires
        f.flags.spec_reserved_within(rules.reserved),
        f.payload.len() <= spec_max_length(),
        (f.mask is Some) == (rules.role == Role::Server),
        f.opcode.spec_is_control(),
        f.flags.fin,
        f.payload.len() > 125,
    ensures
        spec_decode_frame(spec_encode_frame(f) + rest, rules) == Decoded::Invalid(
            ProtocolError::ControlTooLarge,
        ),
        forall|k: int|
            2 <= k <= spec_encode_frame(f).len() ==> spec_decode_frame(
                #[trigger] spec_encode_frame(f).subrange(0, k),
                rules,
            ) == Decoded::Invalid(ProtocolError::ControlTooLarge),
{
    let e = spec_encode_frame(f);
    let bytes = e + rest;
    lemma_encoding_shape(f);
    lemma_first_byte_round_trip(f.flags, f.opcode);
    assert(bytes[0] == e[0] && bytes[1] == e[1]);
    assert forall|k: int| 2 <= k <= e.len() implies spec_decode_frame(
        #[trigger] e.subrange(0, k),
        rules,
    ) == Decoded::Invalid(ProtocolError::ControlTooLarge) by {
        let p = e.subrange(0, k);
        assert(p[0] == e[0] && p[1] == e[1]);
    }
}

/// A control frame without the final flag is refused, whatever it holds.
pub proof fn lemma_fragmented_control_is_refused(f: FrameView, rest: Seq<u8>, rules: DecodeRules)
    requires
        f.flags.spec_reserved_within(rules.reserved),
        f.payload.len() <= spec_max_length(),
        (f.mask is Some) == (rules.role == Role::Server),
        f.opcode.spec_is_control(),
        !f.flags.fin,
    ensures
        spec_decode_frame(spec_encode_frame(f) + rest, rules) == Decoded::Invalid(
            ProtocolError::FragmentedControl,
        ),
{
    let e = spec_encode_frame(f);
    let bytes = e + rest;
    lemma_encoding_shape(f);
    lemma_first_byte_round_trip(f.flags, f.opcode);
    assert(bytes[0] == e[0] && bytes[1] == e[1]);
}

/// The bytes of frames that are written one after the other.
pub open spec fn spec_encode_frames(frames: Seq<FrameView>) -> Seq<u8>
    decreases frames.len(),
{
    if frames.len() == 0 {
        Seq::<u8>::empty()
    } else {
        spec_encode_frame(frames[0]) + spec_encode_frames(frames.drop_first())
    }
}

/// Frames that are written whole, one after the other, keep their boundaries: a receiver that
/// stands at the first byte of one of them reads that frame, takes the bytes of that frame and
/// no others, and then stands at the first byte of the next.
pub proof fn lemma_frames_keep_their_boundaries(
    frames: Seq<FrameView>,
    index: int,
    rest: Seq<u8>,
    rules: DecodeRules,
)
    requires
        0 <= index < frames.len(),
        forall|j: int| 0 <= j < frames.len() ==> spec_acceptable(#[trigger] frames[j], rules),
    ensures
        spec_decode_frame(spec_encode_frames(frames.skip(index)) + rest, rules) == Decoded::Complete(
            frames[index],
            spec_encode_frame(frames[index]).len(),
        ),
        (spec_encode_frames(frames.skip(index)) + rest).skip(
            spec_encode_frame(frames[index]).len() as int,
        ) == spec_encode_frames(frames.skip(index + 1)) + rest,
{
    let here = frames.skip(index);
    let e = spec_encode_frame(frames[index]);
    let tail = spec_encode_frames(frames.skip(index + 1));
    assert(here[0] == frames[index]);
    assert(here.drop_first() =~= frames.skip(index + 1));
    assert(spec_encode_frames(here) + rest =~= e + (tail + rest));
    lemma_decode_encode(frames[index], tail + rest, rules);
    assert((e + (tail + rest)).skip(e.len() as int) =~= tail + rest);
}

} // verus!
