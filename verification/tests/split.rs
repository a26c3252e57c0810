use bytes::BytesMut;
use ratchet::connection::WebSocketConfig;
use ratchet::extension::NegotiatedExtension;
use ratchet::extension::NoExtDecoder;
use ratchet::extension::NoExtEncoder;
use ratchet::frame::encode_frame;
use ratchet::frame::HeaderFlags;
use ratchet::message::Message;
use ratchet::protocol::ControlCode;
use ratchet::protocol::DataCode;
use ratchet::protocol::OpCode;
use ratchet::protocol::Role;
use ratchet::receiver::Incoming;
use ratchet::receiver::Item;
use ratchet::receiver::Receiver;
use ratchet::sender::Sender;
use ratchet::ws::WebSocket;

type Half = (Sender<NoExtEncoder>, Receiver<NoExtDecoder>);

fn is_send_sync_unpin<T: Send + Sync + Unpin>() {}

fn fixture() -> (Half, Half) {
    let config = WebSocketConfig::default();
    let server = WebSocket::from_upgraded(
        config,
        NegotiatedExtension::<NoExtEncoder, NoExtDecoder>::identity(),
        Vec::new(),
        Role::Server,
    )
    .split()
    .unwrap();
    let client = WebSocket::from_upgraded(
        config,
        NegotiatedExtension::<NoExtEncoder, NoExtDecoder>::identity(),
        Vec::new(),
        Role::Client,
    )
    .split()
    .unwrap();
    (client, server)
}

/// Reads the next message and hands the answer, if there is one, to the peer.
fn read_and_answer(rx: &mut Receiver<NoExtDecoder>, peer: &mut Receiver<NoExtDecoder>) -> Message {
    let Incoming { message, reply } = rx.read().expect("Read failure").expect("no message");
    if let Some(bytes) = reply {
        peer.receive(&bytes);
    }
    message
}

#[test]
fn bounds() {
    is_send_sync_unpin::<Sender<NoExtEncoder>>();
    is_send_sync_unpin::<Receiver<NoExtDecoder>>();
}

#[test]
fn ping_pong() {
    let ((mut client_tx, mut client_rx), (_server_tx, mut server_rx)) = fixture();
    let payload = "ping!";
    let wire = client_tx.write_ping(payload.as_bytes()).expect("Send failed.");
    client_rx.ping_sent(payload.as_bytes());
    server_rx.receive(&wire);

    let message = read_and_answer(&mut server_rx, &mut client_rx);
    assert_eq!(message, Message::Ping(b"ping!".to_vec()));
    assert_eq!(server_rx.pending_len(), 0);

    let message = read_and_answer(&mut client_rx, &mut server_rx);
    assert_eq!(message, Message::Pong(b"ping!".to_vec()));
    assert_eq!(client_rx.pending_len(), 0);
}

#[test]
fn reads_unsolicited_pong() {
    let ((_client_tx, mut client_rx), (mut server_tx, mut server_rx)) = fixture();
    let payload = "pong!";

    let wire = server_tx.write_pong(payload.as_bytes()).expect("Write failure");
    client_rx.receive(&wire);

    let message = read_and_answer(&mut client_rx, &mut server_rx);
    assert_eq!(message, Message::Pong(payload.as_bytes().to_vec()));
    assert_eq!(client_rx.pending_len(), 0);
    assert_eq!(server_rx.pending_len(), 0);
}

#[test]
fn empty_control_frame() {
    let ((_client_tx, mut client_rx), (mut server_tx, mut server_rx)) = fixture();

    let wire = server_tx.write_pong(&[]).expect("Write failure");
    client_rx.receive(&wire);

    let message = read_and_answer(&mut client_rx, &mut server_rx);
    assert_eq!(message, Message::Pong(Vec::new()));
    assert_eq!(client_rx.pending_len(), 0);
}

#[test]
fn interleaved_control_frames() {
    let ((mut client_tx, mut client_rx), (_server_tx, mut server_rx)) = fixture();
    let control_data = "data";

    let frames = [
        ("123", OpCode::DataCode(DataCode::Text), false),
        ("456", OpCode::DataCode(DataCode::Continuation), false),
        (control_data, OpCode::ControlCode(ControlCode::Ping), true),
        (control_data, OpCode::ControlCode(ControlCode::Pong), true),
        ("789", OpCode::DataCode(DataCode::Continuation), true),
    ];
    for (payload, opcode, fin) in frames {
        let wire = client_tx
            .write_frame(payload.as_bytes(), opcode, fin)
            .expect("Write failure");
        server_rx.receive(&wire);
    }

    let message = read_and_answer(&mut server_rx, &mut client_rx);
    assert_eq!(message, Message::Ping(control_data.as_bytes().to_vec()));
    assert!(server_rx.in_progress());

    let message = read_and_answer(&mut server_rx, &mut client_rx);
    assert_eq!(message, Message::Pong(control_data.as_bytes().to_vec()));
    assert!(server_rx.in_progress());

    let message = read_and_answer(&mut server_rx, &mut client_rx);
    assert_eq!(message, Message::Text(String::from("123456789")));
    assert!(!server_rx.in_progress());
    assert_eq!(server_rx.pending_len(), 0);

    // The ping was answered once, and nothing else was.
    let message = read_and_answer(&mut client_rx, &mut server_rx);
    assert_eq!(message, Message::Pong(control_data.as_bytes().to_vec()));
    assert_eq!(client_rx.read(), Ok(None));
}

#[test]
fn bad_ping_pong_response() {
    let ((mut client_tx, mut client_rx), (mut server_tx, mut server_rx)) = fixture();

    let wire = client_tx.write_ping(b"ping1").expect("Write failure");
    client_rx.ping_sent(b"ping1");
    server_rx.receive(&wire);

    let message = read_and_answer(&mut server_rx, &mut client_rx);
    assert_eq!(message, Message::Ping(b"ping1".to_vec()));
    assert_eq!(server_rx.pending_len(), 0);

    let mut buf = BytesMut::new();
    let item = client_rx.read_frame(&mut buf).expect("Read failure");
    assert_eq!(item, Some(Item::Pong(b"ping1".to_vec())));
    assert!(buf.is_empty());

    // The frame was read by itself, so the ping still awaits its pong, and a pong with other
    // bytes breaks the protocol.
    let wire = server_tx
        .write_frame(b"bad data", OpCode::ControlCode(ControlCode::Pong), true)
        .expect("Write failure");
    client_rx.receive(&wire);

    let error = client_rx.read().unwrap_err();
    assert!(error.is_protocol());
}

#[test]
fn large_control_frames() {
    {
        let ((mut client_tx, _client_rx), (_server_tx, _server_rx)) = fixture();
        let error = client_tx.write_ping(&[13; 256]).unwrap_err();
        assert!(error.is_protocol());
    }
    {
        let ((_client_tx, _client_rx), (mut server_tx, _server_rx)) = fixture();
        let error = server_tx
            .write_frame(&[13; 256], OpCode::ControlCode(ControlCode::Pong), true)
            .unwrap_err();
        assert!(error.is_protocol());
    }
    {
        let ((_client_tx, mut client_rx), (_server_tx, _server_rx)) = fixture();
        let pong = OpCode::ControlCode(ControlCode::Pong);
        let wire = encode_frame(HeaderFlags::fin(), pong, None, &[13; 256]);
        client_rx.receive(&wire);

        let error = client_rx.read().unwrap_err();
        assert!(error.is_protocol());
    }
}
