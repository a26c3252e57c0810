use ratchet::errors::Error;
use ratchet::errors::ProtocolError;
use ratchet::frame::decode_frame;
use ratchet::frame::encode_frame;
use ratchet::frame::DecodeRules;
use ratchet::frame::Frame;
use ratchet::frame::HeaderFlags;
use ratchet::mask::apply_mask;
use ratchet::mask::key_bytes;
use ratchet::mask::key_from_bytes;
use ratchet::protocol::ControlCode;
use ratchet::protocol::DataCode;
use ratchet::protocol::OpCode;
use ratchet::protocol::Role;

const TEXT: OpCode = OpCode::DataCode(DataCode::Text);
const BINARY: OpCode = OpCode::DataCode(DataCode::Binary);
const CONTINUATION: OpCode = OpCode::DataCode(DataCode::Continuation);
const PING: OpCode = OpCode::ControlCode(ControlCode::Ping);
const PONG: OpCode = OpCode::ControlCode(ControlCode::Pong);
const CLOSE: OpCode = OpCode::ControlCode(ControlCode::Close);

fn rules_for(role: Role) -> DecodeRules {
    DecodeRules { role, reserved: HeaderFlags::empty(), max_frame_size: 1 << 20 }
}

fn refused(bytes: &[u8], role: Role) -> ProtocolError {
    match decode_frame(bytes, &rules_for(role)) {
        Err(Error::Protocol(e)) => e,
        other => panic!("not refused: {:?}", other),
    }
}

#[test]
fn encodes_the_unmasked_hello() {
    let wire = encode_frame(HeaderFlags::fin(), TEXT, None, b"Hello");
    assert_eq!(wire, vec![0x81, 0x05, 0x48, 0x65, 0x6c, 0x6c, 0x6f]);
}

#[test]
fn encodes_the_masked_hello() {
    let wire = encode_frame(HeaderFlags::fin(), TEXT, Some(0x37fa_213d), b"Hello");
    assert_eq!(wire, vec![0x81, 0x85, 0x37, 0xfa, 0x21, 0x3d, 0x7f, 0x9f, 0x4d, 0x51, 0x58]);
}

#[test]
fn encodes_the_first_fragment_without_the_final_flag() {
    let wire = encode_frame(HeaderFlags::empty(), TEXT, None, b"Hel");
    assert_eq!(wire, vec![0x01, 0x03, 0x48, 0x65, 0x6c]);
    let wire = encode_frame(HeaderFlags::fin(), CONTINUATION, None, b"lo");
    assert_eq!(wire, vec![0x80, 0x02, 0x6c, 0x6f]);
}

#[test]
fn encodes_reserved_bits_and_opcodes() {
    let flags = HeaderFlags { fin: true, rsv1: true, rsv2: false, rsv3: true };
    assert_eq!(encode_frame(flags, BINARY, None, &[]), vec![0xd2, 0x00]);
    let flags = HeaderFlags { fin: false, rsv1: false, rsv2: true, rsv3: false };
    assert_eq!(encode_frame(flags, CONTINUATION, None, &[]), vec![0x20, 0x00]);
    assert_eq!(encode_frame(HeaderFlags::fin(), CLOSE, None, &[]), vec![0x88, 0x00]);
    assert_eq!(encode_frame(HeaderFlags::fin(), PING, None, &[]), vec![0x89, 0x00]);
    assert_eq!(encode_frame(HeaderFlags::fin(), PONG, None, &[]), vec![0x8a, 0x00]);
}

#[test]
fn length_field_has_three_forms() {
    let wire = encode_frame(HeaderFlags::fin(), BINARY, None, &[7; 125]);
    assert_eq!(&wire[..2], &[0x82, 125]);
    assert_eq!(wire.len(), 2 + 125);

    let wire = encode_frame(HeaderFlags::fin(), BINARY, None, &[7; 126]);
    assert_eq!(&wire[..4], &[0x82, 126, 0x00, 0x7e]);
    assert_eq!(wire.len(), 4 + 126);

    let wire = encode_frame(HeaderFlags::fin(), BINARY, None, &[7; 256]);
    assert_eq!(&wire[..4], &[0x82, 126, 0x01, 0x00]);

    let wire = encode_frame(HeaderFlags::fin(), BINARY, None, &vec![7; 65535]);
    assert_eq!(&wire[..4], &[0x82, 126, 0xff, 0xff]);
    assert_eq!(wire.len(), 4 + 65535);

    let wire = encode_frame(HeaderFlags::fin(), BINARY, None, &vec![7; 65536]);
    assert_eq!(&wire[..10], &[0x82, 127, 0, 0, 0, 0, 0, 1, 0, 0]);
    assert_eq!(wire.len(), 10 + 65536);

    let wire = encode_frame(HeaderFlags::fin(), BINARY, Some(1), &vec![7; 70000]);
    assert_eq!(&wire[..10], &[0x82, 0xff, 0, 0, 0, 0, 0, 0x01, 0x11, 0x70]);
    assert_eq!(&wire[10..14], &[0, 0, 0, 1]);
    assert_eq!(wire.len(), 14 + 70000);
}

#[test]
fn decodes_the_masked_hello() {
    let wire = [0x81, 0x85, 0x37, 0xfa, 0x21, 0x3d, 0x7f, 0x9f, 0x4d, 0x51, 0x58];
    let (frame, taken) = decode_frame(&wire, &rules_for(Role::Server)).unwrap().unwrap();
    assert_eq!(taken, 11);
    assert_eq!(
        frame,
        Frame {
            flags: HeaderFlags::fin(),
            opcode: TEXT,
            mask: Some(0x37fa_213d),
            payload: b"Hello".to_vec(),
        }
    );
}

#[test]
fn decode_takes_one_frame_and_leaves_the_rest() {
    let mut wire = encode_frame(HeaderFlags::fin(), PING, None, b"one");
    let first = wire.len();
    wire.extend(encode_frame(HeaderFlags::fin(), TEXT, None, b"two"));
    let (frame, taken) = decode_frame(&wire, &rules_for(Role::Client)).unwrap().unwrap();
    assert_eq!(taken, first);
    assert_eq!(frame.opcode, PING);
    assert_eq!(frame.payload, b"one".to_vec());
    let (frame, taken) = decode_frame(&wire[first..], &rules_for(Role::Client)).unwrap().unwrap();
    assert_eq!(taken, wire.len() - first);
    assert_eq!(frame.opcode, TEXT);
    assert_eq!(frame.payload, b"two".to_vec());
}

#[test]
fn every_proper_prefix_asks_for_more() {
    for (len, key) in [(0usize, None), (5, Some(0xdead_beefu32)), (300, None), (70000, Some(9))] {
        let role = if key.is_some() { Role::Server } else { Role::Client };
        let wire = encode_frame(HeaderFlags::fin(), BINARY, key, &vec![0x5a; len]);
        for cut in [0, 1, 2, 3, 5, 9, 10, 13, wire.len() - 1] {
            if cut < wire.len() {
                assert_eq!(decode_frame(&wire[..cut], &rules_for(role)), Ok(None));
            }
        }
        let (frame, taken) = decode_frame(&wire, &rules_for(role)).unwrap().unwrap();
        assert_eq!(taken, wire.len());
        assert_eq!(frame.payload, vec![0x5a; len]);
        assert_eq!(frame.mask, key);
    }
}

#[test]
fn frames_round_trip_at_the_edges_of_the_length_forms() {
    for len in [0usize, 1, 125, 126, 127, 65535, 65536, 70000] {
        for (key, role) in [(None, Role::Client), (Some(0x0102_0304u32), Role::Server)] {
            let payload: Vec<u8> = (0..len).map(|i| (i % 251) as u8).collect();
            let wire = encode_frame(HeaderFlags::fin(), BINARY, key, &payload);
            let (frame, taken) = decode_frame(&wire, &rules_for(role)).unwrap().unwrap();
            assert_eq!(taken, wire.len());
            assert_eq!(
                frame,
                Frame { flags: HeaderFlags::fin(), opcode: BINARY, mask: key, payload }
            );
        }
    }
}

#[test]
fn refuses_reserved_bits_that_nothing_claims() {
    assert_eq!(refused(&[0xc1, 0x00], Role::Client), ProtocolError::ReservedBits);
    assert_eq!(refused(&[0xa1, 0x00], Role::Client), ProtocolError::ReservedBits);
    assert_eq!(refused(&[0x91, 0x00], Role::Client), ProtocolError::ReservedBits);
    // Reserved bits are judged before the opcode.
    assert_eq!(refused(&[0xc3, 0x00], Role::Client), ProtocolError::ReservedBits);
}

#[test]
fn accepts_reserved_bits_that_the_extension_claims() {
    let rules = DecodeRules {
        role: Role::Client,
        reserved: HeaderFlags { fin: false, rsv1: true, rsv2: false, rsv3: false },
        max_frame_size: 16,
    };
    let (frame, _) = decode_frame(&[0xc1, 0x00], &rules).unwrap().unwrap();
    assert!(frame.flags.rsv1 && !frame.flags.rsv2 && !frame.flags.rsv3 && frame.flags.fin);
    assert_eq!(
        decode_frame(&[0xa1, 0x00], &rules),
        Err(Error::Protocol(ProtocolError::ReservedBits))
    );
}

#[test]
fn refuses_undefined_opcodes() {
    for op in [3u8, 4, 5, 6, 7, 11, 12, 13, 14, 15] {
        assert_eq!(refused(&[0x80 | op, 0x00], Role::Client), ProtocolError::UnknownOpCode);
    }
}

#[test]
fn refuses_masking_in_the_wrong_direction() {
    let masked = encode_frame(HeaderFlags::fin(), TEXT, Some(7), b"x");
    let clear = encode_frame(HeaderFlags::fin(), TEXT, None, b"x");
    assert_eq!(refused(&masked, Role::Client), ProtocolError::Masking);
    assert_eq!(refused(&clear, Role::Server), ProtocolError::Masking);
    assert!(decode_frame(&masked, &rules_for(Role::Server)).unwrap().is_some());
    assert!(decode_frame(&clear, &rules_for(Role::Client)).unwrap().is_some());
}

#[test]
fn refuses_fragmented_control_frames() {
    for op in [PING, PONG, CLOSE] {
        let wire = encode_frame(HeaderFlags::empty(), op, None, b"");
        assert_eq!(refused(&wire, Role::Client), ProtocolError::FragmentedControl);
    }
}

#[test]
fn refuses_control_frames_over_125_bytes() {
    for op in [PING, PONG, CLOSE] {
        let wire = encode_frame(HeaderFlags::fin(), op, None, &[0; 126]);
        assert_eq!(refused(&wire, Role::Client), ProtocolError::ControlTooLarge);
        // The header is enough to refuse it.
        assert_eq!(refused(&wire[..2], Role::Client), ProtocolError::ControlTooLarge);
        let wire = encode_frame(HeaderFlags::fin(), op, None, &[0; 125]);
        assert!(decode_frame(&wire, &rules_for(Role::Client)).unwrap().is_some());
    }
}

#[test]
fn refuses_length_fields_that_are_longer_than_needed() {
    assert_eq!(refused(&[0x82, 126, 0x00, 0x7d], Role::Client), ProtocolError::LengthEncoding);
    assert_eq!(refused(&[0x82, 126, 0x00, 0x00], Role::Client), ProtocolError::LengthEncoding);
    assert_eq!(
        refused(&[0x82, 127, 0, 0, 0, 0, 0, 0, 0xff, 0xff], Role::Client),
        ProtocolError::LengthEncoding
    );
    assert_eq!(
        refused(&[0x82, 127, 0x80, 0, 0, 0, 0, 1, 0, 0], Role::Client),
        ProtocolError::LengthEncoding
    );
}

#[test]
fn refuses_frames_over_the_limit_before_their_payload_comes() {
    let rules = DecodeRules { role: Role::Client, reserved: HeaderFlags::empty(), max_frame_size: 10 };
    assert_eq!(
        decode_frame(&[0x82, 11], &rules),
        Err(Error::Protocol(ProtocolError::FrameTooLarge))
    );
    assert_eq!(decode_frame(&[0x82, 10], &rules), Ok(None));
    assert_eq!(
        decode_frame(&[0x82, 126, 0x01, 0x00], &rules),
        Err(Error::Protocol(ProtocolError::FrameTooLarge))
    );
}

#[test]
fn masking_twice_gives_the_payload_back() {
    let plain: Vec<u8> = (0..=255u8).collect();
    let mut data = plain.clone();
    apply_mask(&mut data, 0x0102_0304);
    assert_eq!(&data[..6], &[0x01, 0x03, 0x01, 0x07, 0x05, 0x07]);
    assert_ne!(data, plain);
    apply_mask(&mut data, 0x0102_0304);
    assert_eq!(data, plain);
}

#[test]
fn a_key_is_its_bytes_most_significant_first() {
    assert_eq!(key_bytes(0x37fa_213d), [0x37, 0xfa, 0x21, 0x3d]);
    assert_eq!(key_from_bytes(0x37, 0xfa, 0x21, 0x3d), 0x37fa_213d);
    assert_eq!(key_bytes(0), [0, 0, 0, 0]);
    assert_eq!(key_from_bytes(0xff, 0xff, 0xff, 0xff), u32::MAX);
}

#[test]
fn opcodes_and_their_bits() {
    let all = [(CONTINUATION, 0u8), (TEXT, 1), (BINARY, 2), (CLOSE, 8), (PING, 9), (PONG, 10)];
    for (op, bits) in all {
        assert_eq!(op.bits(), bits);
        assert_eq!(OpCode::from_bits(bits), Some(op));
        assert_eq!(op.is_control(), bits >= 8);
    }
    assert_eq!(OpCode::from_bits(3), None);
    assert_eq!(OpCode::from_bits(16), None);
}

#[test]
fn roles() {
    assert!(Role::Client.is_client() && !Role::Client.is_server());
    assert!(Role::Server.is_server() && !Role::Server.is_client());
    assert_eq!(Role::Client.peer(), Role::Server);
    assert_eq!(Role::Server.peer(), Role::Client);
}
