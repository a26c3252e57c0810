use bytes::BytesMut;
use ratchet::connection::ConnectionState;
use ratchet::connection::WebSocketConfig;
use ratchet::errors::Error;
use ratchet::errors::ProtocolError;
use ratchet::extension::NegotiatedExtension;
use ratchet::extension::NoExtDecoder;
use ratchet::extension::NoExtEncoder;
use ratchet::fragment::FragmentBuffer;
use ratchet::frame::decode_frame;
use ratchet::frame::encode_frame;
use ratchet::frame::HeaderFlags;
use ratchet::message::Message;
use ratchet::protocol::ControlCode;
use ratchet::protocol::DataCode;
use ratchet::protocol::OpCode;
use ratchet::protocol::Role;
use ratchet::receiver::Incoming;
use ratchet::receiver::Item;
use ratchet::receiver::Receiver;
use ratchet::sender::wire_frame;
use ratchet::sender::Sender;
use ratchet::ws::WebSocket;

type Socket = WebSocket<NoExtEncoder, NoExtDecoder>;

fn socket_with(role: Role, config: WebSocketConfig) -> Socket {
    WebSocket::from_upgraded(config, NegotiatedExtension::identity(), Vec::new(), role)
}

fn socket(role: Role) -> Socket {
    socket_with(role, WebSocketConfig::default())
}

fn pair() -> (Socket, Socket) {
    (socket(Role::Client), socket(Role::Server))
}

fn small(max_message_size: usize, max_frame_size: usize, closes: bool) -> WebSocketConfig {
    WebSocketConfig { max_message_size, max_frame_size, capacity_error_closes: closes }
}

fn delivered(message: Message) -> Result<Option<Incoming>, Error> {
    Ok(Some(Incoming { message, reply: None }))
}

/// One frame as an end with the role `sender` puts it on the wire.
fn framed(sender: Role, fin: bool, opcode: OpCode, payload: &[u8]) -> Vec<u8> {
    let flags = HeaderFlags { fin, ..HeaderFlags::empty() };
    wire_frame(sender, 0x1234_5678, flags, opcode, payload)
}

const TEXT: OpCode = OpCode::DataCode(DataCode::Text);
const BINARY: OpCode = OpCode::DataCode(DataCode::Binary);
const CONTINUATION: OpCode = OpCode::DataCode(DataCode::Continuation);

fn text_of(len: usize) -> String {
    (0..len).map(|i| char::from(b'a' + (i % 26) as u8)).collect()
}

fn bytes_of(len: usize) -> Vec<u8> {
    (0..len).map(|i| (i % 253) as u8).collect()
}

#[test]
fn messages_round_trip_in_both_directions() {
    for len in [0usize, 1, 125, 126, 65536, 70000] {
        let mut all = vec![Message::Text(text_of(len)), Message::Binary(bytes_of(len))];
        if len <= 125 {
            all.push(Message::Pong(bytes_of(len)));
        }
        for message in all {
            let (mut client, mut server) = pair();
            let wire = client.write(&message).unwrap();
            server.receive(&wire);
            assert_eq!(server.read(), delivered(message.clone()));
            assert_eq!(server.read(), Ok(None));

            let wire = server.write(&message).unwrap();
            client.receive(&wire);
            assert_eq!(client.read(), delivered(message));
            assert_eq!(client.read(), Ok(None));
        }
    }
}

#[test]
fn pings_round_trip_and_are_answered_once() {
    for len in [0usize, 1, 125] {
        let (mut client, mut server) = pair();
        let ping = Message::Ping(bytes_of(len));
        let wire = client.write(&ping).unwrap();
        server.receive(&wire);
        let Incoming { message, reply } = server.read().unwrap().unwrap();
        assert_eq!(message, ping);
        // The answer is one whole pong frame with the payload of the ping, in the clear.
        let reply = reply.expect("a ping is answered");
        let pong = OpCode::ControlCode(ControlCode::Pong);
        assert_eq!(reply, encode_frame(HeaderFlags::fin(), pong, None, &bytes_of(len)));
        assert_eq!(server.read(), Ok(None));

        // The application may answer as well: that is another pong, and it is its own.
        let manual = server.write(&Message::Pong(bytes_of(len))).unwrap();
        client.receive(&reply);
        client.receive(&manual);
        assert_eq!(client.read(), delivered(Message::Pong(bytes_of(len))));
        assert_eq!(client.read(), delivered(Message::Pong(bytes_of(len))));
        assert_eq!(client.read(), Ok(None));
    }
}

#[test]
fn a_client_masks_its_pong() {
    let (mut client, mut server) = pair();
    let wire = server.write(&Message::Ping(b"p".to_vec())).unwrap();
    assert_eq!(wire, vec![0x89, 0x01, b'p']);
    client.receive(&wire);
    let Incoming { message, reply } = client.read().unwrap().unwrap();
    assert_eq!(message, Message::Ping(b"p".to_vec()));
    let reply = reply.unwrap();
    assert_eq!(reply.len(), 2 + 4 + 1);
    assert_eq!(&reply[..2], &[0x8a, 0x81]);
    assert_eq!(reply[6], b'p' ^ reply[2]);
    server.receive(&reply);
    assert_eq!(server.read(), delivered(Message::Pong(b"p".to_vec())));
}

#[test]
fn fragments_are_read_as_the_whole_message() {
    for pieces in [2usize, 5] {
        for message in [Message::Text(text_of(1000)), Message::Binary(bytes_of(1000))] {
            let (mut client, mut server) = pair();
            let whole = client.write(&message).unwrap();
            let parted = client.write_fragmented(&message, 1000 / pieces).unwrap();
            assert_eq!(parted.len(), whole.len() + (pieces - 1) * 8);
            server.receive(&parted);
            assert_eq!(server.read(), delivered(message.clone()));
            server.receive(&whole);
            assert_eq!(server.read(), delivered(message));
            assert_eq!(server.read(), Ok(None));
        }
    }
}

#[test]
fn fragments_have_the_size_asked_for() {
    let mut server = socket(Role::Server);
    let wire = server.write_fragmented(&Message::Binary(vec![1, 2, 3, 4, 5]), 2).unwrap();
    assert_eq!(wire, vec![0x02, 2, 1, 2, 0x00, 2, 3, 4, 0x80, 1, 5]);
    let wire = server.write_fragmented(&Message::Text(String::from("abcd")), 2).unwrap();
    assert_eq!(wire, vec![0x01, 2, b'a', b'b', 0x80, 2, b'c', b'd']);
    let wire = server.write_fragmented(&Message::Text(String::from("abcd")), 4).unwrap();
    assert_eq!(wire, vec![0x81, 4, b'a', b'b', b'c', b'd']);
    let wire = server.write_fragmented(&Message::Text(String::from("abcd")), 0).unwrap();
    assert_eq!(wire, vec![0x81, 4, b'a', b'b', b'c', b'd']);
    let wire = server.write_fragmented(&Message::Text(String::new()), 3).unwrap();
    assert_eq!(wire, vec![0x81, 0]);
    let wire = server.write_fragmented(&Message::Ping(vec![7, 7, 7]), 1).unwrap();
    assert_eq!(wire, vec![0x89, 3, 7, 7, 7]);
}

#[test]
fn fragments_are_held_to_the_frame_limit() {
    let mut server = socket_with(Role::Server, small(100, 4, true));
    let message = Message::Binary(bytes_of(10));
    assert_eq!(server.write(&message), Err(Error::Protocol(ProtocolError::FrameTooLarge)));
    assert_eq!(
        server.write_fragmented(&message, 5),
        Err(Error::Protocol(ProtocolError::FrameTooLarge))
    );
    assert_eq!(
        server.write_fragmented(&message, 0),
        Err(Error::Protocol(ProtocolError::FrameTooLarge))
    );
    assert_eq!(server.write_fragmented(&message, 4).unwrap().len(), 10 + 3 * 2);
    assert!(server.write(&Message::Binary(bytes_of(4))).is_ok());
}

#[test]
fn control_frames_pass_between_fragments() {
    let (mut client, mut server) = pair();
    let mut wire = Vec::new();
    for (payload, opcode, fin) in [
        ("123", TEXT, false),
        ("456", CONTINUATION, false),
        ("data", OpCode::ControlCode(ControlCode::Ping), true),
        ("data", OpCode::ControlCode(ControlCode::Pong), true),
        ("789", CONTINUATION, true),
    ] {
        wire.extend(framed(Role::Client, fin, opcode, payload.as_bytes()));
    }
    server.receive(&wire);
    let Incoming { message, reply } = server.read().unwrap().unwrap();
    assert_eq!(message, Message::Ping(b"data".to_vec()));
    assert_eq!(reply, Some(vec![0x8a, 4, b'd', b'a', b't', b'a']));
    assert_eq!(server.read(), delivered(Message::Pong(b"data".to_vec())));
    assert_eq!(server.read(), delivered(Message::Text(String::from("123456789"))));
    assert_eq!(server.read(), Ok(None));
    assert!(client.is_active());
}

#[test]
fn oversized_control_messages_are_never_sent() {
    for role in [Role::Client, Role::Server] {
        let mut end = socket(role);
        for message in [
            Message::Ping(vec![0; 126]),
            Message::Pong(vec![0; 126]),
            Message::Close(1000, text_of(124)),
            Message::Ping(vec![0; 70000]),
        ] {
            assert_eq!(end.write(&message), Err(Error::Protocol(ProtocolError::ControlTooLarge)));
            assert_eq!(
                end.write_fragmented(&message, 10),
                Err(Error::Protocol(ProtocolError::ControlTooLarge))
            );
        }
        assert!(end.is_active());
        assert!(end.write(&Message::Ping(vec![0; 125])).is_ok());
        assert!(end.write(&Message::Close(1000, text_of(123))).is_ok());
    }
}

#[test]
fn oversized_control_frames_are_never_accepted() {
    for (sender, opcode) in [
        (Role::Client, ControlCode::Ping),
        (Role::Server, ControlCode::Pong),
        (Role::Server, ControlCode::Close),
    ] {
        let mut reader = socket(sender.peer());
        let wire = framed(sender, true, OpCode::ControlCode(opcode), &[13; 256]);
        reader.receive(&wire);
        assert_eq!(reader.read(), Err(Error::Protocol(ProtocolError::ControlTooLarge)));
        assert!(reader.is_closed());
        assert_eq!(reader.read(), Err(Error::Closed));
        assert_eq!(reader.write(&Message::Binary(vec![])), Err(Error::Closed));
    }
}

#[test]
fn masking_in_the_wrong_direction_fails_the_read() {
    let mut client = socket(Role::Client);
    client.receive(&framed(Role::Client, true, TEXT, b"x"));
    assert_eq!(client.read(), Err(Error::Protocol(ProtocolError::Masking)));
    assert!(client.is_closed());

    let mut server = socket(Role::Server);
    server.receive(&framed(Role::Server, true, TEXT, b"x"));
    assert_eq!(server.read(), Err(Error::Protocol(ProtocolError::Masking)));
    assert!(server.is_closed());
}

#[test]
fn frames_keep_their_boundaries_however_the_bytes_arrive() {
    let (mut client, mut server) = pair();
    let messages = [
        Message::Text(text_of(300)),
        Message::Ping(b"now".to_vec()),
        Message::Binary(bytes_of(70000)),
        Message::Pong(vec![]),
        Message::Text(String::from("end")),
    ];
    let mut wire = Vec::new();
    for m in &messages {
        wire.extend(client.write(m).unwrap());
    }
    let mut read = Vec::new();
    for piece in wire.chunks(977) {
        server.receive(piece);
        while let Some(incoming) = server.read().unwrap() {
            read.push(incoming.message);
        }
    }
    assert_eq!(read, messages.to_vec());
    assert!(server.is_active());
}

#[test]
fn a_frame_that_has_not_come_whole_stays_buffered() {
    let mut client = socket(Role::Client);
    let wire = encode_frame(HeaderFlags::fin(), BINARY, None, &bytes_of(200));
    client.receive(&wire[..1]);
    assert_eq!(client.read(), Ok(None));
    client.receive(&wire[1..100]);
    assert_eq!(client.read(), Ok(None));
    assert_eq!(client.read(), Ok(None));
    client.receive(&wire[100..]);
    assert_eq!(client.read(), delivered(Message::Binary(bytes_of(200))));
}

#[test]
fn close_is_echoed_once() {
    let (mut client, mut server) = pair();
    let close = Message::Close(1000, String::from("bye"));
    let wire = client.write(&close).unwrap();
    assert!(!client.is_active() && !client.is_closed());
    assert_eq!(client.write(&Message::Text(String::from("late"))), Err(Error::Closed));
    assert_eq!(client.write(&close), Err(Error::Closed));

    server.receive(&wire);
    let Incoming { message, reply } = server.read().unwrap().unwrap();
    assert_eq!(message, close);
    let reply = reply.expect("a close is answered");
    assert_eq!(reply, vec![0x88, 5, 0x03, 0xe8, b'b', b'y', b'e']);
    assert!(server.is_closed());
    assert_eq!(server.read(), Err(Error::Closed));
    assert_eq!(server.write(&Message::Pong(vec![])), Err(Error::Closed));

    client.receive(&reply);
    assert_eq!(client.read(), delivered(close));
    assert!(client.is_closed());
    assert_eq!(client.end_of_stream(), Error::Closed);
}

#[test]
fn a_close_without_a_payload() {
    let (mut client, mut server) = pair();
    let wire = server.write(&Message::Close(1005, String::new())).unwrap();
    assert_eq!(wire, vec![0x88, 0]);
    client.receive(&wire);
    let Incoming { message, reply } = client.read().unwrap().unwrap();
    assert_eq!(message, Message::Close(1005, String::new()));
    assert_eq!(reply.unwrap().len(), 2 + 4);

    let mut reader = socket(Role::Client);
    reader.receive(&[0x88, 1, 0x03]);
    assert_eq!(reader.read(), Err(Error::Protocol(ProtocolError::ClosePayload)));
    assert!(reader.is_closed());
}

#[test]
fn a_ping_is_answered_after_the_own_close_too() {
    let (mut client, mut server) = pair();
    let ping = server.write(&Message::Ping(b"p".to_vec())).unwrap();
    let data = server.write(&Message::Binary(vec![1])).unwrap();
    client.write(&Message::Close(1001, String::new())).unwrap();
    client.receive(&ping);
    client.receive(&data);
    let Incoming { message, reply } = client.read().unwrap().unwrap();
    assert_eq!(message, Message::Ping(b"p".to_vec()));
    server.receive(&reply.expect("a ping is answered"));
    assert_eq!(server.read(), delivered(Message::Pong(b"p".to_vec())));
    assert_eq!(client.read(), delivered(Message::Binary(vec![1])));
    assert_eq!(client.read(), Ok(None));
    // The peer's close is not answered by a second close.
    client.receive(&server.write(&Message::Close(1001, String::new())).unwrap());
    assert_eq!(client.read(), delivered(Message::Close(1001, String::new())));
    assert!(client.is_closed());
}

#[test]
fn a_message_over_the_limit_closes_the_connection() {
    let mut server = socket_with(Role::Server, small(10, 100, true));
    let mut client = socket(Role::Client);
    server.receive(&client.write_fragmented(&Message::Binary(bytes_of(12)), 6).unwrap());
    server.receive(&client.write(&Message::Binary(bytes_of(3))).unwrap());
    let error = server.read().unwrap_err();
    assert_eq!(error, Error::Capacity);
    assert!(error.is_capacity());
    assert!(server.is_closed());
    assert_eq!(server.read(), Err(Error::Closed));
}

#[test]
fn a_message_over_the_limit_is_passed_over() {
    let mut server = socket_with(Role::Server, small(10, 100, false));
    let mut client = socket(Role::Client);
    server.receive(&client.write_fragmented(&Message::Binary(bytes_of(20)), 6).unwrap());
    server.receive(&client.write(&Message::Ping(vec![9])).unwrap());
    server.receive(&client.write(&Message::Binary(bytes_of(11))).unwrap());
    server.receive(&client.write(&Message::Binary(bytes_of(10))).unwrap());
    // 6 + 6 bytes are over the limit; the two frames that follow belong to that message.
    assert_eq!(server.read(), Err(Error::Capacity));
    assert!(server.is_active());
    let Incoming { message, reply } = server.read().unwrap().unwrap();
    assert_eq!(message, Message::Ping(vec![9]));
    assert!(reply.is_some());
    assert_eq!(server.read(), Err(Error::Capacity));
    assert_eq!(server.read(), delivered(Message::Binary(bytes_of(10))));
    assert_eq!(server.read(), Ok(None));
}

#[test]
fn a_new_message_may_not_follow_an_unfinished_one() {
    let mut server = socket(Role::Server);
    server.receive(&framed(Role::Client, false, TEXT, b"a"));
    server.receive(&framed(Role::Client, true, TEXT, b"b"));
    assert_eq!(server.read(), Err(Error::Protocol(ProtocolError::InterleavedData)));
    assert!(server.is_closed());

    let mut server = socket(Role::Server);
    server.receive(&framed(Role::Client, true, CONTINUATION, b"a"));
    assert_eq!(server.read(), Err(Error::Protocol(ProtocolError::UnexpectedContinuation)));
    assert!(server.is_closed());
}

#[test]
fn text_has_to_be_utf8_when_the_message_is_whole() {
    let mut server = socket(Role::Server);
    // The two bytes of one character, one in each fragment.
    server.receive(&framed(Role::Client, false, TEXT, &[0xc3]));
    server.receive(&framed(Role::Client, true, CONTINUATION, &[0xa9]));
    assert_eq!(server.read(), delivered(Message::Text(String::from("é"))));
    server.receive(&framed(Role::Client, true, TEXT, &[0xc3]));
    assert_eq!(server.read(), Err(Error::Protocol(ProtocolError::Encoding)));
    assert!(server.is_closed());
}

#[test]
fn a_pong_has_to_answer_the_ping_that_awaits_it() {
    let (mut client, mut server) = pair();
    client.write(&Message::Ping(b"one".to_vec())).unwrap();
    client.receive(&server.write(&Message::Pong(b"one".to_vec())).unwrap());
    assert_eq!(client.read(), delivered(Message::Pong(b"one".to_vec())));
    // No ping awaits a pong now: any pong is taken.
    client.receive(&server.write(&Message::Pong(b"any".to_vec())).unwrap());
    assert_eq!(client.read(), delivered(Message::Pong(b"any".to_vec())));
    client.write(&Message::Ping(b"two".to_vec())).unwrap();
    client.receive(&server.write(&Message::Pong(b"tw0".to_vec())).unwrap());
    assert_eq!(client.read(), Err(Error::Protocol(ProtocolError::UnexpectedPong)));
    assert!(client.is_closed());
}

#[test]
fn the_end_of_the_stream_before_a_close_is_a_failure() {
    let mut client = socket(Role::Client);
    client.receive(&[0x82]);
    let error = client.end_of_stream();
    assert_eq!(error, Error::Io);
    assert!(error.is_io());
    assert!(client.is_closed());
    assert_eq!(client.end_of_stream(), Error::Closed);
    assert!(client.split().is_err());
}

#[test]
fn halves_keep_what_the_connection_held() {
    let mut whole = socket_with(Role::Server, small(50, 60, false));
    whole.receive(&framed(Role::Client, false, TEXT, b"ab"));
    assert_eq!(whole.read(), Ok(None));
    whole.receive(&framed(Role::Client, true, CONTINUATION, b"cd"));
    let (tx, mut rx): (Sender<NoExtEncoder>, Receiver<NoExtDecoder>) = whole.split().unwrap();
    assert_eq!(tx.role(), Role::Server);
    assert_eq!(rx.role(), Role::Server);
    assert_eq!(*tx.config(), small(50, 60, false));
    assert_eq!(*rx.config(), small(50, 60, false));
    assert_eq!(tx.state(), ConnectionState::Open);
    assert_eq!(rx.state(), ConnectionState::Open);
    assert!(rx.in_progress());
    assert_eq!(rx.read(), delivered(Message::Text(String::from("abcd"))));
}

#[test]
fn halves_are_told_of_each_other() {
    let (mut tx, mut rx) = socket(Role::Server).split().unwrap();
    tx.write(&Message::Close(1000, String::new())).unwrap();
    assert_eq!(tx.state(), ConnectionState::Closing);
    rx.close_sent();
    assert_eq!(rx.state(), ConnectionState::Closing);
    let close = OpCode::ControlCode(ControlCode::Close);
    rx.receive(&framed(Role::Client, true, close, &[0x03, 0xe8]));
    assert_eq!(rx.read(), delivered(Message::Close(1000, String::new())));
    assert_eq!(rx.state(), ConnectionState::Closed);
    tx.close();
    assert_eq!(tx.state(), ConnectionState::Closed);
    assert_eq!(tx.write_ping(b""), Err(Error::Closed));
    assert_eq!(tx.write_pong(b""), Err(Error::Closed));
}

#[test]
fn items_gather_the_fragments_in_the_buffer() {
    let (_tx, mut rx) = socket(Role::Server).split().unwrap();
    let mut buf = BytesMut::new();
    assert_eq!(rx.read_frame(&mut buf), Ok(None));
    let ping = OpCode::ControlCode(ControlCode::Ping);
    let pong = OpCode::ControlCode(ControlCode::Pong);
    for (payload, opcode, fin) in [
        ("123", TEXT, false),
        ("456", CONTINUATION, false),
        ("data", ping, true),
        ("data", pong, true),
        ("789", CONTINUATION, true),
    ] {
        rx.receive(&framed(Role::Client, fin, opcode, payload.as_bytes()));
    }
    assert_eq!(rx.read_frame(&mut buf), Ok(Some(Item::Ping(b"data".to_vec()))));
    assert_eq!(buf.to_vec(), b"123456".to_vec());
    assert!(rx.in_progress());
    assert_eq!(rx.read_frame(&mut buf), Ok(Some(Item::Pong(b"data".to_vec()))));
    assert_eq!(buf.to_vec(), b"123456".to_vec());
    assert_eq!(rx.read_frame(&mut buf), Ok(Some(Item::Text)));
    assert_eq!(String::from_utf8(buf.to_vec()).unwrap(), "123456789");
    assert!(!rx.in_progress());
    assert_eq!(rx.read_frame(&mut buf), Ok(None));
    assert_eq!(rx.pending_len(), 0);
    assert_eq!(rx.state(), ConnectionState::Open);
}

#[test]
fn a_message_in_fragments_is_one_item() {
    for pieces in [1usize, 2, 5] {
        for (opcode, item) in [(TEXT, Item::Text), (BINARY, Item::Binary)] {
            let (_tx, mut rx) = socket(Role::Server).split().unwrap();
            let whole = bytes_of(1000);
            let chunks: Vec<&[u8]> = whole.chunks(1000 / pieces).collect();
            for (i, chunk) in chunks.iter().enumerate() {
                let here = if i == 0 { opcode } else { CONTINUATION };
                rx.receive(&framed(Role::Client, i + 1 == chunks.len(), here, chunk));
            }
            let mut buf = BytesMut::new();
            assert_eq!(rx.read_frame(&mut buf), Ok(Some(item)));
            assert_eq!(buf.to_vec(), whole);
            assert_eq!(rx.read_frame(&mut buf), Ok(None));
            assert_eq!(buf.to_vec(), whole);
        }
    }
}

#[test]
fn items_wait_for_the_last_fragment() {
    let (_tx, mut rx) = socket(Role::Server).split().unwrap();
    let mut buf = BytesMut::from(&b"held"[..]);
    rx.receive(&framed(Role::Client, false, BINARY, &[1, 2]));
    assert_eq!(rx.read_frame(&mut buf), Ok(None));
    assert_eq!(buf.to_vec(), b"held\x01\x02".to_vec());
    assert!(rx.in_progress());
    let last = framed(Role::Client, true, CONTINUATION, &[3]);
    rx.receive(&last[..3]);
    assert_eq!(rx.read_frame(&mut buf), Ok(None));
    assert_eq!(buf.to_vec(), b"held\x01\x02".to_vec());
    rx.receive(&last[3..]);
    assert_eq!(rx.read_frame(&mut buf), Ok(Some(Item::Binary)));
    assert_eq!(buf.to_vec(), b"held\x01\x02\x03".to_vec());
    // Reading messages goes on where reading items left off, and the other way round.
    rx.receive(&framed(Role::Client, false, TEXT, b"ab"));
    assert_eq!(rx.read_frame(&mut buf), Ok(None));
    rx.receive(&framed(Role::Client, true, CONTINUATION, b"cd"));
    assert_eq!(rx.read(), delivered(Message::Text(String::from("abcd"))));
}

#[test]
fn items_are_refused_out_of_turn() {
    let ping = OpCode::ControlCode(ControlCode::Ping);
    let broken: [Vec<Vec<u8>>; 4] = [
        vec![framed(Role::Client, true, CONTINUATION, b"a")],
        vec![framed(Role::Client, false, TEXT, b"a"), framed(Role::Client, true, TEXT, b"b")],
        vec![framed(Role::Client, false, BINARY, b"a"), framed(Role::Client, false, TEXT, b"b")],
        vec![framed(Role::Client, false, TEXT, b"a"), framed(Role::Client, false, ping, b"b")],
    ];
    for frames in broken {
        let (_tx, mut rx) = socket(Role::Server).split().unwrap();
        for frame in &frames {
            rx.receive(frame);
        }
        let mut buf = BytesMut::new();
        let error = rx.read_frame(&mut buf).unwrap_err();
        assert!(error.is_protocol());
        assert_eq!(buf.len(), frames.len() - 1);
        assert_eq!(rx.state(), ConnectionState::Closed);
        assert_eq!(rx.read_frame(&mut buf), Err(Error::Closed));
    }
    let (_tx, mut rx) = socket(Role::Server).split().unwrap();
    rx.receive(&framed(Role::Client, true, CONTINUATION, b"a"));
    let mut buf = BytesMut::new();
    assert_eq!(
        rx.read_frame(&mut buf),
        Err(Error::Protocol(ProtocolError::UnexpectedContinuation))
    );
    assert!(buf.is_empty());
    let (_tx, mut rx) = socket(Role::Server).split().unwrap();
    rx.receive(&framed(Role::Client, false, TEXT, b"a"));
    rx.receive(&framed(Role::Client, true, BINARY, b"b"));
    assert_eq!(rx.read_frame(&mut buf), Err(Error::Protocol(ProtocolError::InterleavedData)));
    assert_eq!(buf.to_vec(), b"a".to_vec());
    let (_tx, mut rx) = socket(Role::Server).split().unwrap();
    rx.receive(&[0x83, 0x80, 0, 0, 0, 0]);
    assert_eq!(rx.read_frame(&mut buf), Err(Error::Protocol(ProtocolError::UnknownOpCode)));
    assert_eq!(buf.to_vec(), b"a".to_vec());
}

#[test]
fn items_are_held_to_the_message_limit() {
    for closes in [true, false] {
        let (_tx, mut rx) = socket_with(Role::Server, small(10, 100, closes)).split().unwrap();
        rx.receive(&framed(Role::Client, false, BINARY, &[1; 6]));
        rx.receive(&framed(Role::Client, false, CONTINUATION, &[2; 5]));
        rx.receive(&framed(Role::Client, true, CONTINUATION, &[3; 1]));
        rx.receive(&framed(Role::Client, false, BINARY, &[4; 6]));
        rx.receive(&framed(Role::Client, true, CONTINUATION, &[5; 4]));
        let mut buf = BytesMut::new();
        let error = rx.read_frame(&mut buf).unwrap_err();
        assert_eq!(error, Error::Capacity);
        assert!(error.is_capacity() && !error.is_io());
        assert_eq!(buf.to_vec(), vec![1; 6]);
        if closes {
            assert_eq!(rx.state(), ConnectionState::Closed);
            assert_eq!(rx.read_frame(&mut buf), Err(Error::Closed));
        } else {
            // The rest of that message is passed over; a message of just the limit is read.
            buf.clear();
            assert_eq!(rx.read_frame(&mut buf), Ok(Some(Item::Binary)));
            assert_eq!(buf.to_vec(), vec![4, 4, 4, 4, 4, 4, 5, 5, 5, 5]);
            assert_eq!(rx.read_frame(&mut buf), Ok(None));
        }
    }
    let (_tx, mut rx) = socket_with(Role::Server, small(10, 100, true)).split().unwrap();
    rx.receive(&framed(Role::Client, true, TEXT, &[b'a'; 11]));
    let mut buf = BytesMut::new();
    assert_eq!(rx.read_frame(&mut buf), Err(Error::Capacity));
    assert!(buf.is_empty());
}

#[test]
fn a_ping_is_answered_by_one_pong_whatever_is_sent_after() {
    for own in [0usize, 1, 3] {
        let (mut client, server) = pair();
        let (mut server_tx, mut server_rx) = server.split().unwrap();
        let (_client_tx, mut client_rx) = {
            let wire = client.write(&Message::Ping(b"p".to_vec())).unwrap();
            server_rx.receive(&wire);
            client.split().unwrap()
        };
        let Incoming { message, reply } = server_rx.read().unwrap().unwrap();
        assert_eq!(message, Message::Ping(b"p".to_vec()));
        client_rx.receive(&reply.expect("a ping is answered"));
        for i in 0..own {
            client_rx.receive(&server_tx.write_pong(&[i as u8]).unwrap());
        }
        assert_eq!(server_rx.read(), Ok(None));
        let mut buf = BytesMut::new();
        assert_eq!(client_rx.read_frame(&mut buf), Ok(Some(Item::Pong(b"p".to_vec()))));
        for i in 0..own {
            assert_eq!(client_rx.read_frame(&mut buf), Ok(Some(Item::Pong(vec![i as u8]))));
        }
        assert_eq!(client_rx.read_frame(&mut buf), Ok(None));
        assert!(buf.is_empty());
    }
}

#[test]
fn control_items_carry_their_payload_and_change_nothing() {
    let (_tx, mut rx) = socket(Role::Server).split().unwrap();
    let mut buf = BytesMut::new();
    rx.ping_sent(b"awaited");
    rx.receive(&framed(Role::Client, true, OpCode::ControlCode(ControlCode::Pong), b"other"));
    rx.receive(&framed(Role::Client, true, OpCode::ControlCode(ControlCode::Close), &[3, 232]));
    rx.receive(&framed(Role::Client, true, BINARY, b"78"));
    assert_eq!(rx.read_frame(&mut buf), Ok(Some(Item::Pong(b"other".to_vec()))));
    assert_eq!(rx.read_frame(&mut buf), Ok(Some(Item::Close(vec![3, 232]))));
    assert_eq!(rx.state(), ConnectionState::Open);
    assert_eq!(rx.read_frame(&mut buf), Ok(Some(Item::Binary)));
    assert_eq!(buf.to_vec(), b"78".to_vec());
}

#[test]
fn raw_frames_are_written_as_they_are_given() {
    let (mut tx, _rx) = socket(Role::Server).split().unwrap();
    assert_eq!(
        tx.write_frame(b"abc", CONTINUATION, false),
        Ok(vec![0x00, 3, b'a', b'b', b'c'])
    );
    assert_eq!(
        tx.write_frame(&[1; 125], OpCode::ControlCode(ControlCode::Ping), true).unwrap()[..2],
        [0x89, 125]
    );
    let close = OpCode::ControlCode(ControlCode::Close);
    assert_eq!(tx.write_frame(b"", close, true), Ok(vec![0x88, 0]));
    let (mut tx, _rx) = socket(Role::Client).split().unwrap();
    let wire = tx.write_frame(b"abc", TEXT, true).unwrap();
    let rules = ratchet::frame::DecodeRules {
        role: Role::Server,
        reserved: HeaderFlags::empty(),
        max_frame_size: 3,
    };
    let (frame, taken) = decode_frame(&wire, &rules).unwrap().unwrap();
    assert_eq!(taken, 9);
    assert_eq!(frame.payload, b"abc".to_vec());
    assert!(frame.mask.is_some());
}

#[test]
fn control_frames_that_break_the_rules_are_never_framed() {
    for role in [Role::Client, Role::Server] {
        let (mut tx, _rx) = socket(role).split().unwrap();
        for code in [ControlCode::Ping, ControlCode::Pong, ControlCode::Close] {
            let opcode = OpCode::ControlCode(code);
            assert_eq!(
                tx.write_frame(&[13; 126], opcode, true),
                Err(Error::Protocol(ProtocolError::ControlTooLarge))
            );
            assert_eq!(
                tx.write_frame(&[13; 256], opcode, true),
                Err(Error::Protocol(ProtocolError::ControlTooLarge))
            );
            assert_eq!(
                tx.write_frame(b"", opcode, false),
                Err(Error::Protocol(ProtocolError::FragmentedControl))
            );
            assert_eq!(
                tx.write_frame(&[13; 256], opcode, false),
                Err(Error::Protocol(ProtocolError::FragmentedControl))
            );
            assert!(tx.write_frame(&[13; 125], opcode, true).is_ok());
        }
        assert_eq!(tx.state(), ConnectionState::Open);
        assert!(tx.write_frame(&[13; 256], BINARY, false).is_ok());
    }
}

#[test]
fn a_server_never_masks() {
    let (mut tx, rx) = socket(Role::Server).split().unwrap();
    let mut rx = rx;
    assert_eq!(tx.write_frame(b"ab", TEXT, true), Ok(vec![0x81, 2, b'a', b'b']));
    assert_eq!(
        tx.write_fragmented(&Message::Binary(vec![1, 2, 3]), 2),
        Ok(vec![0x02, 2, 1, 2, 0x80, 1, 3])
    );
    rx.receive(&framed(Role::Client, true, OpCode::ControlCode(ControlCode::Ping), b"p"));
    let Incoming { reply, .. } = rx.read().unwrap().unwrap();
    assert_eq!(reply, Some(vec![0x8a, 1, b'p']));
}

#[test]
fn a_connection_takes_the_buffer_for_fragments_that_it_is_given() {
    let mut codec = FragmentBuffer::new();
    assert_eq!(codec.on_frame(DataCode::Text, false, b"be".to_vec(), 10), Ok(None));
    let mut server: Socket = WebSocket::with_codec(
        WebSocketConfig::default(),
        NegotiatedExtension::identity(),
        codec,
        Role::Server,
    );
    assert!(server.is_active());
    server.receive(&framed(Role::Client, true, CONTINUATION, b"gun"));
    assert_eq!(server.read(), delivered(Message::Text(String::from("begun"))));
    let (_tx, rx) = socket(Role::Client).split().unwrap();
    assert!(!rx.in_progress());
    let rx: Receiver<NoExtDecoder> = Receiver::with_codec(
        Role::Client,
        None,
        WebSocketConfig::default(),
        vec![0x81],
        FragmentBuffer::new(),
    );
    assert_eq!(rx.pending_len(), 1);
    assert!(!rx.in_progress());
}

#[test]
fn bytes_from_before_the_connection_are_read_first() {
    let early = encode_frame(HeaderFlags::fin(), TEXT, None, b"early");
    let mut client: Socket = WebSocket::from_upgraded(
        WebSocketConfig::default(),
        NegotiatedExtension::identity(),
        early,
        Role::Client,
    );
    client.receive(&encode_frame(HeaderFlags::fin(), TEXT, None, b"late"));
    assert_eq!(client.read(), delivered(Message::Text(String::from("early"))));
    assert_eq!(client.read(), delivered(Message::Text(String::from("late"))));
}

#[test]
fn frames_over_the_frame_limit_fail_the_read() {
    let mut server = socket_with(Role::Server, small(1000, 4, true));
    server.receive(&framed(Role::Client, true, BINARY, &[0; 5]));
    assert_eq!(server.read(), Err(Error::Protocol(ProtocolError::FrameTooLarge)));
    assert!(server.is_closed());
}
