use ratchet::connection::WebSocketConfig;
use ratchet::errors::Error;
use ratchet::errors::HandshakeError;
use ratchet::extension::settle;
use ratchet::fragment::FragmentBuffer;
use ratchet::extension::ExtensionError;
use ratchet::extension::NegotiatedExtension;
use ratchet::extension::NoExtDecoder;
use ratchet::extension::NoExtEncoder;
use ratchet::extension::Requirement;
use ratchet::handshake::accept_request;
use ratchet::handshake::accept_value;
use ratchet::handshake::check_response;
use ratchet::handshake::same_bytes;
use ratchet::header::holds_name;
use ratchet::header::items;
use ratchet::header::same_name;
use ratchet::header::trim;
use ratchet::handshake::ExtensionHandshake;
use ratchet::handshake::NoExt;
use ratchet::handshake::request_key;
use ratchet::handshake::upgrade_request;
use ratchet::handshake::ProtocolRegistry;
use ratchet::handshake::UpgradeAnswer;
use ratchet::handshake::UpgradeRequest;
use ratchet::handshake::UpgradeResponse;
use ratchet::message::Message;
use ratchet::protocol::Role;
use ratchet::ws::client;
use ratchet::ws::server;

const KEY: &[u8] = b"dGhlIHNhbXBsZSBub25jZQ==";
const ACCEPT: &[u8] = b"s3pPLMBiTxaQ9kYGzzhZRbK+xOo=";

fn names(list: &[&str]) -> Vec<String> {
    list.iter().map(|s| String::from(*s)).collect()
}

fn codec() -> FragmentBuffer {
    FragmentBuffer::new()
}

fn response() -> UpgradeResponse {
    UpgradeResponse { status: 101, accept: ACCEPT.to_vec(), protocol: None, extensions: Vec::new() }
}

fn request() -> UpgradeRequest {
    UpgradeRequest {
        upgrade: b"websocket".to_vec(),
        connection: b"Upgrade".to_vec(),
        key: Some(KEY.to_vec()),
        version: Some(13),
        protocols: Vec::new(),
        extensions: Vec::new(),
    }
}

#[test]
fn accept_value_of_the_sample_key() {
    assert_eq!(accept_value(KEY), ACCEPT.to_vec());
    assert_eq!(accept_value(b"x3JJHMbDL1EzLkh9GBhXDw=="), b"HSmrc0sMlYUkAGmm5OPpG2HaGWk=".to_vec());
    assert_eq!(accept_value(b"").len(), 28);
    assert_ne!(accept_value(b""), accept_value(b" "));
}

#[test]
fn same_bytes_compares_whole_strings() {
    assert!(same_bytes(b"", b""));
    assert!(same_bytes(b"abc", b"abc"));
    assert!(!same_bytes(b"abc", b"abd"));
    assert!(!same_bytes(b"abc", b"ab"));
    assert!(!same_bytes(b"", b"a"));
}

#[test]
fn registry_keeps_each_name_once_in_order() {
    let registry = ProtocolRegistry::new(names(&["chat", "superchat", "chat", "v2", "superchat"]));
    assert_eq!(registry.len(), 3);
    assert_eq!(registry.names(), names(&["chat", "superchat", "v2"]));
    assert!(registry.contains(&String::from("v2")));
    assert!(!registry.contains(&String::from("V2")));
    assert_eq!(ProtocolRegistry::new(Vec::new()).len(), 0);
}

#[test]
fn server_picks_by_the_order_of_the_request() {
    let registry = ProtocolRegistry::new(names(&["a", "b", "c"]));
    assert_eq!(registry.select(&names(&["c", "a"])), Some(String::from("c")));
    assert_eq!(registry.select(&names(&["x", "b", "a"])), Some(String::from("b")));
    assert_eq!(registry.select(&names(&["x", "y"])), None);
    assert_eq!(registry.select(&Vec::new()), None);
    assert_eq!(ProtocolRegistry::new(Vec::new()).select(&names(&["a"])), None);
}

#[test]
fn client_accepts_only_what_it_offered() {
    let registry = ProtocolRegistry::new(names(&["a", "b"]));
    assert_eq!(registry.accept_choice(&None), Ok(None));
    assert_eq!(registry.accept_choice(&Some(String::from("b"))), Ok(Some(String::from("b"))));
    assert_eq!(
        registry.accept_choice(&Some(String::from("c"))),
        Err(Error::Handshake(HandshakeError::Subprotocol))
    );
}

#[test]
fn settle_follows_the_requirement() {
    let agreed = settle(Requirement::Required, Some((NoExtEncoder, NoExtDecoder))).unwrap();
    assert!(!agreed.is_identity());
    let agreed = settle(Requirement::Optional, Some((NoExtEncoder, NoExtDecoder))).unwrap();
    assert!(agreed.encoder.is_some() && agreed.decoder.is_some());
    let none = settle::<NoExtEncoder, NoExtDecoder>(Requirement::Optional, None).unwrap();
    assert!(none.is_identity());
    let failed = settle::<NoExtEncoder, NoExtDecoder>(Requirement::Required, None);
    assert_eq!(failed.unwrap_err(), Error::Extension);
    assert!(NegotiatedExtension::<NoExtEncoder, NoExtDecoder>::identity().is_identity());
    assert!(!NegotiatedExtension::active(NoExtEncoder, NoExtDecoder).is_identity());
}

#[test]
fn no_extension_offers_and_agrees_to_nothing() {
    assert_eq!(NoExt.requirement(), Requirement::Optional);
    assert_eq!(NoExt.offer(), Vec::<u8>::new());
    assert_eq!(NoExt.negotiate_client(b""), Ok(None));
    assert_eq!(NoExt.negotiate_client(b" \t"), Ok(None));
    assert_eq!(NoExt.negotiate_client(b"permessage-deflate"), Err(ExtensionError));
    assert_eq!(NoExt.negotiate_server(b""), Ok(None));
    assert_eq!(NoExt.negotiate_server(b"permessage-deflate"), Ok(None));
}

#[test]
fn client_checks_the_response_in_order() {
    let registry = ProtocolRegistry::new(names(&["chat"]));

    let agreed = check_response(&response(), KEY, &NoExt, &registry).unwrap();
    assert_eq!(agreed.protocol, None);
    assert!(agreed.extension.is_identity());

    let chosen = UpgradeResponse { protocol: Some(String::from("chat")), ..response() };
    let agreed = check_response(&chosen, KEY, &NoExt, &registry).unwrap();
    assert_eq!(agreed.protocol, Some(String::from("chat")));

    let bad = UpgradeResponse { status: 200, accept: Vec::new(), ..response() };
    assert_eq!(
        check_response(&bad, KEY, &NoExt, &registry).unwrap_err(),
        Error::Handshake(HandshakeError::Status)
    );
    let bad = UpgradeResponse { accept: KEY.to_vec(), protocol: Some(String::from("x")), ..response() };
    assert_eq!(
        check_response(&bad, KEY, &NoExt, &registry).unwrap_err(),
        Error::Handshake(HandshakeError::Accept)
    );
    let bad = UpgradeResponse { protocol: Some(String::from("x")), ..response() };
    assert_eq!(
        check_response(&bad, KEY, &NoExt, &registry).unwrap_err(),
        Error::Handshake(HandshakeError::Subprotocol)
    );
    assert_eq!(
        check_response(&response(), b"another key", &NoExt, &registry).unwrap_err(),
        Error::Handshake(HandshakeError::Accept)
    );
    let bad = UpgradeResponse { extensions: b"permessage-deflate".to_vec(), ..response() };
    assert_eq!(
        check_response(&bad, KEY, &NoExt, &registry).unwrap_err(),
        Error::Handshake(HandshakeError::Extension)
    );
    let bad = UpgradeResponse {
        protocol: Some(String::from("x")),
        extensions: b"permessage-deflate".to_vec(),
        ..response()
    };
    assert_eq!(
        check_response(&bad, KEY, &NoExt, &registry).unwrap_err(),
        Error::Handshake(HandshakeError::Subprotocol)
    );
}

#[test]
fn server_checks_the_request_and_answers() {
    let registry = ProtocolRegistry::new(names(&["a", "b"]));

    let (answer, extension) = accept_request(&request(), &NoExt, &registry).unwrap();
    assert_eq!(
        answer,
        UpgradeAnswer { accept: ACCEPT.to_vec(), protocol: None, extensions: Vec::new() }
    );
    assert!(extension.is_identity());

    let asking = UpgradeRequest {
        protocols: names(&["z", "b", "a"]),
        extensions: b"permessage-deflate; client_max_window_bits".to_vec(),
        ..request()
    };
    let (answer, extension) = accept_request(&asking, &NoExt, &registry).unwrap();
    assert_eq!(answer.protocol, Some(String::from("b")));
    assert_eq!(answer.extensions, Vec::<u8>::new());
    assert!(extension.is_identity());

    for good in [
        UpgradeRequest { upgrade: b"WebSocket".to_vec(), ..request() },
        UpgradeRequest { connection: b"keep-alive, Upgrade".to_vec(), ..request() },
        UpgradeRequest { connection: b"keep-alive ,\t upgrade ,x".to_vec(), ..request() },
    ] {
        assert!(accept_request(&good, &NoExt, &registry).is_ok());
    }
    for bad in [
        UpgradeRequest { upgrade: Vec::new(), ..request() },
        UpgradeRequest { upgrade: b"websockets".to_vec(), ..request() },
        UpgradeRequest { upgrade: b" websocket".to_vec(), ..request() },
        UpgradeRequest { connection: Vec::new(), ..request() },
        UpgradeRequest { connection: b"keep-alive".to_vec(), ..request() },
        UpgradeRequest { connection: b"Upgrade keep-alive".to_vec(), ..request() },
        UpgradeRequest { connection: b"Up,grade".to_vec(), ..request() },
        UpgradeRequest { key: None, ..request() },
        UpgradeRequest { version: None, ..request() },
        UpgradeRequest { version: Some(8), ..request() },
    ] {
        assert_eq!(
            accept_request(&bad, &NoExt, &registry).unwrap_err(),
            Error::Handshake(HandshakeError::BadRequest)
        );
    }
}

#[test]
fn client_makes_an_open_connection() {
    let registry = ProtocolRegistry::new(names(&["chat"]));
    let config = WebSocketConfig::default();
    let chosen = UpgradeResponse { protocol: Some(String::from("chat")), ..response() };
    let (mut socket, protocol) = client(config, &chosen, KEY, codec(), &NoExt, &registry).unwrap();
    assert_eq!(protocol, Some(String::from("chat")));
    assert_eq!(socket.role(), Role::Client);
    assert_eq!(*socket.config(), config);
    assert!(socket.is_active() && !socket.is_closed());
    assert_eq!(socket.read(), Ok(None));
    let wire = socket.write(&Message::Text(String::from("hi"))).unwrap();
    assert_eq!(wire.len(), 2 + 4 + 2);
    assert_eq!(wire[0], 0x81);
    assert_eq!(wire[1], 0x82);

    let bad = UpgradeResponse { status: 404, ..response() };
    let error = client(config, &bad, KEY, codec(), &NoExt, &registry).unwrap_err();
    assert!(error.is_handshake());
}

#[test]
fn default_limits() {
    let config = WebSocketConfig::default();
    assert_eq!(config.max_message_size, 64 << 20);
    assert_eq!(config.max_frame_size, 16 << 20);
    assert!(config.capacity_error_closes);
}

#[test]
fn server_makes_an_open_connection_and_its_answer() {
    let registry = ProtocolRegistry::new(names(&["a", "b"]));
    let config = WebSocketConfig::default();
    let asking = UpgradeRequest { protocols: names(&["b"]), ..request() };
    let (mut socket, answer) = server(config, &asking, codec(), &NoExt, &registry).unwrap();
    assert_eq!(socket.role(), Role::Server);
    assert!(socket.is_active());
    assert_eq!(
        answer,
        UpgradeAnswer {
            accept: ACCEPT.to_vec(),
            protocol: Some(String::from("b")),
            extensions: Vec::new(),
        }
    );
    assert_eq!(socket.write(&Message::Text(String::from("hi"))), Ok(vec![0x81, 2, b'h', b'i']));

    let bad = UpgradeRequest { key: None, ..request() };
    assert!(server(config, &bad, codec(), &NoExt, &registry).unwrap_err().is_handshake());
}

#[test]
fn a_request_states_what_the_client_offers() {
    let registry = ProtocolRegistry::new(names(&["a", "b", "a"]));
    let asked = upgrade_request(KEY.to_vec(), &NoExt, &registry);
    assert_eq!(asked.upgrade, b"websocket".to_vec());
    assert_eq!(asked.connection, b"Upgrade".to_vec());
    assert_eq!(asked.key, Some(KEY.to_vec()));
    assert_eq!(asked.version, Some(13));
    assert_eq!(asked.protocols, names(&["a", "b"]));
    assert_eq!(asked.extensions, Vec::<u8>::new());
}

#[test]
fn a_request_key_is_sixteen_bytes_in_base64() {
    let key = request_key();
    assert_eq!(key.len(), 24);
    assert_eq!(&key[22..], b"==");
    assert!(key[..22].iter().all(|b| b.is_ascii_alphanumeric() || *b == b'+' || *b == b'/'));
    assert_ne!(request_key(), key);
}

#[test]
fn both_ends_shake_hands() {
    let offered = ProtocolRegistry::new(names(&["v2", "v1"]));
    let supported = ProtocolRegistry::new(names(&["v1", "v2"]));
    let config = WebSocketConfig::default();
    let key = request_key();
    let asked = upgrade_request(key.clone(), &NoExt, &offered);
    let (mut server_end, answer) = server(config, &asked, codec(), &NoExt, &supported).unwrap();
    let answered = UpgradeResponse {
        status: 101,
        accept: answer.accept,
        protocol: answer.protocol,
        extensions: answer.extensions,
    };
    let (mut client_end, protocol) = client(config, &answered, &key, codec(), &NoExt, &offered).unwrap();
    assert_eq!(protocol, Some(String::from("v2")));
    let wire = client_end.write(&Message::Text(String::from("hello"))).unwrap();
    server_end.receive(&wire);
    assert_eq!(server_end.read().unwrap().unwrap().message, Message::Text(String::from("hello")));
}

#[test]
fn names_are_compared_without_regard_to_case() {
    assert!(same_name(b"websocket", b"WebSocket"));
    assert!(same_name(b"", b""));
    assert!(same_name(b"a-1_Z", b"A-1_z"));
    assert!(!same_name(b"websocket", b"websocke"));
    assert!(!same_name(b"@", b"`"));
    assert!(!same_name(b"[", b"{"));
}

#[test]
fn blanks_around_a_text_are_dropped() {
    assert_eq!(trim(b"  a b\t "), b"a b");
    assert_eq!(trim(b"ab"), b"ab");
    assert_eq!(trim(b" \t "), b"");
    assert_eq!(trim(b""), b"");
    assert_eq!(trim(b"\na "), b"\na");
}

#[test]
fn lists_hold_the_names_between_their_commas() {
    assert!(holds_name(b"upgrade", b"Upgrade"));
    assert!(holds_name(b"a, b ,c", b"b"));
    assert!(holds_name(b"a,b,c", b"c"));
    assert!(holds_name(b"a,,c", b""));
    assert!(holds_name(b"", b""));
    assert!(holds_name(b"a,", b""));
    assert!(!holds_name(b"a", b""));
    assert!(!holds_name(b"ab,c", b"a"));
    assert!(!holds_name(b"a b", b"a"));
    assert!(!holds_name(b"", b"a"));
}

#[test]
fn lists_are_taken_apart_at_their_commas() {
    assert_eq!(items(b"chat, superchat"), vec![b"chat".to_vec(), b"superchat".to_vec()]);
    assert_eq!(items(b""), vec![Vec::<u8>::new()]);
    assert_eq!(items(b" a "), vec![b"a".to_vec()]);
    assert_eq!(items(b"a,,b,"), vec![b"a".to_vec(), vec![], b"b".to_vec(), vec![]]);
    assert_eq!(items(b","), vec![Vec::<u8>::new(), Vec::new()]);
}
