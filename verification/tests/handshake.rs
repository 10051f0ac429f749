use bytes::BytesMut;
use stream_relay::addr::IpAddr;
use stream_relay::http::{
    count_line_feeds, detect_protocol, is_http, parse_with_httparse, read_upgrade, resolve,
    scan_headers,
};
use stream_relay::http::{
    Detection, HeaderField, ParseResult, PrimaryProtocol, UpgradeFields, HEAD_LIMIT,
};
use stream_relay::ws_handshake::{upgrade_reply, Action, Event, Handshake, HandshakeRes};

const UPGRADE: &str = "GET /live HTTP/1.1\r\nHost: example.org\r\nUpgrade: websocket\r\nSec-WebSocket-Key: dGhlIHNhbXBsZSBub25jZQ==\r\n\r\n";

const ACCEPTED: &str = "HTTP/1.1 101 Switching Protocols\r\nUpgrade: websocket\r\nConnection: Upgrade\r\nSec-WebSocket-Accept: s3pPLMBiTxaQ9kYGzzhZRbK+xOo=\r\n\r\n";

const REFUSED: &str = "HTTP/1.1 404 Not Found\r\nServer: rs/streaming\r\nAccess-Control-Allow-Origin: *\r\nAccess-Control-Allow-Credentials: true\r\nContent-Length: 0\r\nConnection: close\r\n\r\n1.2.3";

const PREFLIGHT: &str = "HTTP/1.1 204 No Content\r\nAllow: GET\r\nCache-Control: max-age=604800\r\nAccess-Control-Allow-Origin: *\r\nAccess-Control-Allow-Methods: GET\r\nAccess-Control-Max-Age: 86400\r\nContent-Length: 0\r\nConnection: close\r\n\r\n";

fn field(name: &str, value: &[u8]) -> HeaderField {
    HeaderField { name: name.to_string(), value: value.to_vec() }
}

fn detected(bytes: &[u8]) -> (Detection, Vec<u8>) {
    let mut buf = BytesMut::from(bytes);
    let detection = detect_protocol(&mut buf);
    (detection, buf.to_vec())
}

fn detection(bytes: &[u8]) -> Detection {
    detected(bytes).0
}

fn started() -> Handshake {
    let mut hs = Handshake::new("1.2.3").unwrap();
    assert!(matches!(hs.handshake(Event::Start), Action::Read));
    hs
}

fn receive(hs: &mut Handshake, bytes: &[u8]) -> Action {
    hs.read_buf.extend_from_slice(bytes);
    hs.handshake(Event::Read(bytes.len()))
}

fn written(action: Action) -> String {
    match action {
        Action::Write(answer) => answer,
        other => panic!("{:?}", other),
    }
}

fn failure(action: Action) -> String {
    match action {
        Action::Done(Err(reason)) => reason,
        other => panic!("{:?}", other),
    }
}

#[test]
fn a_head_ends_with_an_empty_line() {
    assert!(is_http(b"GET / HT\r\n\r\n"));
    assert!(is_http(b"\r\n\r\nabcdefg"));
    assert!(is_http(b"abcdefg\r\n\r\n"));
    assert!(!is_http(b"abcdef\r\n\r\n"));
    assert!(!is_http(b"abcdefghij\r\n\r"));
    assert!(!is_http(b"abcdefghij\n\r\n\r"));
    assert!(!is_http(b""));
}

#[test]
fn methods_are_recognised() {
    let found = |bytes: &[u8]| match detection(bytes) {
        Detection::Found(primary) => Some(primary),
        _ => None,
    };
    assert_eq!(found(b"GET / HTTP/1.1\r\n\r\n"), Some(PrimaryProtocol::HttpGet));
    assert_eq!(found(b"POST / HTTP/1.1\r\n\r\n"), Some(PrimaryProtocol::HttpPost));
    assert_eq!(found(b"PUT / HTTP/1.1\r\n\r\n"), Some(PrimaryProtocol::HttpPut));
    assert_eq!(found(b"CONNECT / HTTP/1.1\r\n\r\n"), Some(PrimaryProtocol::HttpConnect));
    assert_eq!(found(b"OPTIONS / HTTP/1.1\r\n\r\n"), Some(PrimaryProtocol::HttpOptions));
    assert_eq!(found(b"GET / HTTP/1.1\r\n\r\nmore"), Some(PrimaryProtocol::HttpGet));
    assert_eq!(found(b"DELETE / HTTP/1.1\r\n\r\n"), None);
    assert_eq!(found(b"get / HTTP/1.1\r\n\r\n"), None);
}

#[test]
fn an_empty_line_before_a_request_is_dropped() {
    let methods = [
        ("GET", PrimaryProtocol::HttpGet),
        ("POST", PrimaryProtocol::HttpPost),
        ("PUT", PrimaryProtocol::HttpPut),
        ("CONNECT", PrimaryProtocol::HttpConnect),
        ("OPTIONS", PrimaryProtocol::HttpOptions),
    ];
    for (method, primary) in methods {
        let request = format!("{} / HTTP/1.1\r\n\r\n", method);
        let (found, left) = detected(format!("\r\n{}", request).as_bytes());
        assert_eq!(found, Detection::Found(primary));
        assert_eq!(left, request.as_bytes());
        let (found, left) = detected(request.as_bytes());
        assert_eq!(found, Detection::Found(primary));
        assert_eq!(left, request.as_bytes());
    }
    let (found, left) = detected(b"\r\nGET /\r\n\r\n");
    assert_eq!(found, Detection::Found(PrimaryProtocol::HttpGet));
    assert_eq!(left, b"GET /\r\n\r\n");
}

#[test]
fn an_empty_line_is_dropped_only_with_a_head_and_only_once() {
    let (found, left) = detected(b"\r\nDELETE / HTTP/1.1\r\n\r\n");
    assert_eq!(found, Detection::Incomplete);
    assert_eq!(left, b"DELETE / HTTP/1.1\r\n\r\n");
    let (found, left) = detected(b"\r\nGET / HTTP/1.1\r\n");
    assert_eq!(found, Detection::Incomplete);
    assert_eq!(left, b"\r\nGET / HTTP/1.1\r\n");
    let (found, left) = detected(b"\r\n\r\nGET / HTTP/1.1\r\n\r\n");
    assert_eq!(found, Detection::Incomplete);
    assert_eq!(left, b"\r\nGET / HTTP/1.1\r\n\r\n");
}

#[test]
fn bytes_without_a_head_are_given_up() {
    assert_eq!(detection(b""), Detection::Incomplete);
    assert_eq!(detection(b"GET"), Detection::Incomplete);
    assert_eq!(detection(&vec![b'x'; HEAD_LIMIT - 1]), Detection::Incomplete);
    assert_eq!(detection(&vec![b'x'; HEAD_LIMIT]), Detection::NotHttp);
    let mut other = b"DELETE / HTTP/1.1\r\n\r\n".to_vec();
    other.resize(HEAD_LIMIT + 10, b'x');
    assert_eq!(detection(&other), Detection::Incomplete);
}

#[test]
fn line_feeds_are_counted() {
    assert_eq!(count_line_feeds(b""), 0);
    assert_eq!(count_line_feeds(b"a\nb\r\n\n"), 3);
}

#[test]
fn fields_are_found_by_their_exact_names() {
    assert!(scan_headers(&[]).is_err());
    assert!(scan_headers(&[field("sec-websocket-key", b"k"), field("", b"")]).is_err());
    let result = scan_headers(&[field("Sec-WebSocket-Key", b"k")]).unwrap();
    assert_eq!(result.sec_websocket_key, b"k");
    assert_eq!(result.forwarded_for, None);
    let result = scan_headers(&[field("x-forwarded-for", b"10.0.0.1")]).unwrap();
    assert!(result.sec_websocket_key.is_empty());
    assert_eq!(result.forwarded_for, Some("10.0.0.1".to_string()));
    assert!(scan_headers(&[field("X-Forwarded-For", b"10.0.0.1")]).is_err());
}

#[test]
fn the_last_value_counts_until_both_are_found() {
    let result = scan_headers(&[
        field("Sec-WebSocket-Key", b"first"),
        field("Sec-WebSocket-Key", b"second"),
        field("x-forwarded-for", b"a"),
        field("Sec-WebSocket-Key", b"third"),
        field("x-forwarded-for", b"b"),
    ])
    .unwrap();
    assert_eq!(result.sec_websocket_key, b"second");
    assert_eq!(result.forwarded_for, Some("a".to_string()));
}

#[test]
fn a_forwarded_address_must_be_text() {
    let result = scan_headers(&[field("x-forwarded-for", &[0xff])]).unwrap();
    assert_eq!(result.forwarded_for, None);
    let result = scan_headers(&[
        field("x-forwarded-for", "\u{c0}".as_bytes()),
        field("x-forwarded-for", &[0xff]),
    ])
    .unwrap();
    assert_eq!(result.forwarded_for, Some("\u{c0}".to_string()));
}

#[test]
fn requests_are_parsed() {
    let result = parse_with_httparse(UPGRADE.as_bytes(), 5).unwrap();
    assert_eq!(result.sec_websocket_key, b"dGhlIHNhbXBsZSBub25jZQ==");
    assert!(parse_with_httparse(UPGRADE.as_bytes(), 2).is_err());
    assert!(parse_with_httparse(b"GET / HTTP/1.1\r\nHost: a\r\n\r\n", 3).is_err());
    assert!(parse_with_httparse(b"GET /\r\n\r\n", 3).is_err());
    let partial = parse_with_httparse(b"GET / HTTP/1.1\r\nSec-WebSocket-Key: k\r\nHos", 3).unwrap();
    assert_eq!(partial.sec_websocket_key, b"k");
}

#[test]
fn an_upgrade_has_three_to_ninety_nine_lines() {
    assert!(read_upgrade(UPGRADE.as_bytes()).is_some());
    assert!(read_upgrade(b"GET / HTTP/1.1\r\n\r\n").is_none());
    let head = |extra: usize| {
        let mut text = "GET / HTTP/1.1\r\nSec-WebSocket-Key: k\r\n".to_string();
        for _ in 0..extra {
            text.push_str("A: b\r\n");
        }
        text.push_str("\r\n");
        text
    };
    assert!(read_upgrade(head(0).as_bytes()).is_some());
    assert!(read_upgrade(head(96).as_bytes()).is_some());
    assert!(read_upgrade(head(97).as_bytes()).is_none());
}

#[test]
fn an_upgrade_becomes_a_websocket() {
    let mut hs = started();
    assert!(matches!(receive(&mut hs, &UPGRADE.as_bytes()[..40]), Action::Read));
    let action = receive(&mut hs, &UPGRADE.as_bytes()[40..]);
    assert_eq!(written(action), ACCEPTED);
    assert_eq!(hs.get_protocol(), None);
    assert!(matches!(hs.handshake(Event::Written), Action::Done(Ok(()))));
    assert_eq!(hs.get_protocol(), Some(HandshakeRes::Ws));
    assert_eq!(hs.get_protocol(), None);
    assert_eq!(hs.get_ip_header(), None);
    assert_eq!(&hs.into_inner()[..], UPGRADE.as_bytes());
}

#[test]
fn a_forwarded_address_is_remembered() {
    let mut hs = started();
    let request = "POST / HTTP/1.1\r\nx-forwarded-for: 10.0.0.1\r\nSec-WebSocket-Key: dGhlIHNhbXBsZSBub25jZQ==\r\n\r\n";
    assert_eq!(written(receive(&mut hs, request.as_bytes())), ACCEPTED);
    assert!(matches!(hs.handshake(Event::Written), Action::Done(Ok(()))));
    assert_eq!(hs.get_ip_header(), Some(IpAddr::V4([10, 0, 0, 1])));
    assert_eq!(hs.get_ip_header(), None);
    assert_eq!(hs.get_protocol(), Some(HandshakeRes::Ws));
}

#[test]
fn a_forwarded_address_alone_is_an_upgrade() {
    let mut hs = started();
    let request = "GET / HTTP/1.1\r\nx-forwarded-for: nowhere\r\n\r\n";
    let action = receive(&mut hs, request.as_bytes());
    assert_eq!(written(action), upgrade_reply("Kfh9QIsMVZcl6xEPYxPHzW8SZ8w="));
    assert_eq!(hs.get_ip_header(), None);
}

#[test]
fn texts_of_addresses_are_parsed() {
    let address = |text: &str| {
        let found = UpgradeFields {
            forwarded_for: Some(text.to_string()),
            sec_websocket_key: vec![7],
        };
        let result = resolve(found);
        assert_eq!(result.sec_websocket_key, [7]);
        result.proxy_ip
    };
    let mut octets = [0u8; 16];
    octets[0] = 0x20;
    octets[1] = 1;
    octets[15] = 7;
    assert_eq!(address("192.168.0.255"), Some(IpAddr::V4([192, 168, 0, 255])));
    assert_eq!(address("2001::7"), Some(IpAddr::V6(octets)));
    assert_eq!(address("10.0.0.1, 10.0.0.2"), None);
    assert_eq!(address("10.0.0.1:80"), None);
    assert_eq!(address("256.0.0.1"), None);
    assert_eq!(address(" 10.0.0.1"), None);
    assert_eq!(address(""), None);
    let none = UpgradeFields { forwarded_for: None, sec_websocket_key: vec![] };
    assert_eq!(resolve(none).proxy_ip, None);
}

#[test]
fn the_last_text_of_an_address_counts() {
    let head = |first: &str, second: &str| {
        format!("GET / HTTP/1.1\r\nx-forwarded-for: {}\r\nx-forwarded-for: {}\r\n\r\n", first, second)
    };
    let result = read_upgrade(head("10.0.0.1", "10.0.0.2").as_bytes()).unwrap();
    assert_eq!(result.proxy_ip, Some(IpAddr::V4([10, 0, 0, 2])));
    let result = read_upgrade(head("10.0.0.1", "nowhere").as_bytes()).unwrap();
    assert_eq!(result.proxy_ip, None);
    let result = parse_with_httparse(head("nowhere", "10.0.0.2").as_bytes(), 4).unwrap();
    assert_eq!(result.proxy_ip, Some(IpAddr::V4([10, 0, 0, 2])));
}

#[test]
fn an_older_forwarded_address_is_forgotten() {
    let mut hs = started();
    let upgrade = |ip| Some(ParseResult { proxy_ip: ip, sec_websocket_key: vec![] });
    hs.answer(PrimaryProtocol::HttpGet, upgrade(Some(IpAddr::V4([1, 2, 3, 4]))));
    assert_eq!(hs.ip_header, Some(IpAddr::V4([1, 2, 3, 4])));
    hs.answer(PrimaryProtocol::HttpGet, upgrade(None));
    assert_eq!(hs.ip_header, None);
}

#[test]
fn an_upgrade_that_cannot_be_answered_fails() {
    let mut hs = started();
    written(receive(&mut hs, UPGRADE.as_bytes()));
    let reason = failure(hs.handshake(Event::Failed("gone".to_string())));
    assert_eq!(reason, "ws handshake 전송오류 gone");
    assert_eq!(hs.get_protocol(), None);
}

#[test]
fn other_requests_are_refused() {
    for event in [Event::Written, Event::Failed("gone".to_string())] {
        let mut hs = started();
        let action = receive(&mut hs, b"GET / HTTP/1.1\r\nHost: a\r\n\r\n");
        assert_eq!(written(action), REFUSED);
        assert!(matches!(hs.handshake(event), Action::Done(Ok(()))));
        assert_eq!(hs.get_protocol(), Some(HandshakeRes::Close));
    }
}

#[test]
fn options_are_answered_whatever_else_is_asked() {
    assert_eq!(PREFLIGHT.len(), 206);
    for event in [Event::Written, Event::Failed("gone".to_string())] {
        let mut hs = started();
        let request = UPGRADE.replace("GET", "OPTIONS");
        assert_eq!(written(receive(&mut hs, request.as_bytes())), PREFLIGHT);
        assert!(matches!(hs.handshake(event), Action::Done(Ok(()))));
        assert_eq!(hs.get_protocol(), Some(HandshakeRes::Close));
    }
}

#[test]
fn a_closed_connection_is_an_error() {
    let mut hs = started();
    receive(&mut hs, b"GET");
    let reason = failure(hs.handshake(Event::Read(0)));
    assert_eq!(reason, "detect_protocl : 연결이 종료되었습니다.");
}

#[test]
fn a_failed_read_is_an_error() {
    let mut hs = started();
    assert_eq!(failure(hs.handshake(Event::Failed("reset".to_string()))), "reset");
}

#[test]
fn other_protocols_are_an_error() {
    let mut hs = started();
    let reason = failure(receive(&mut hs, &vec![b'x'; 4096]));
    assert_eq!(reason, "HTTP 요청이 아닙니다");
    assert_eq!(hs.get_protocol(), None);
}

#[test]
fn a_handshake_can_begin_again() {
    let mut hs = started();
    hs.handshake(Event::Failed("reset".to_string()));
    hs.read_buf.extend_from_slice(b"left over");
    assert!(matches!(hs.handshake(Event::Start), Action::Read));
    assert!(hs.read_buf.is_empty());
    assert_eq!(written(receive(&mut hs, UPGRADE.as_bytes())), ACCEPTED);
}

#[test]
fn an_upgrade_after_an_empty_line_is_accepted() {
    let mut hs = started();
    assert!(matches!(receive(&mut hs, b"\r\n"), Action::Read));
    assert_eq!(written(receive(&mut hs, UPGRADE.as_bytes())), ACCEPTED);
    assert!(matches!(hs.handshake(Event::Written), Action::Done(Ok(()))));
    assert_eq!(hs.get_protocol(), Some(HandshakeRes::Ws));
    assert_eq!(&hs.into_inner()[..], UPGRADE.as_bytes());
}

#[test]
fn all_methods_but_options_are_answered_alike() {
    for method in ["GET", "POST", "PUT", "CONNECT"] {
        let mut hs = started();
        let request = UPGRADE.replace("GET", method);
        assert_eq!(written(receive(&mut hs, request.as_bytes())), ACCEPTED);
        let mut hs = started();
        let request = format!("{} / HTTP/1.1\r\nHost: a\r\n\r\n", method);
        assert_eq!(written(receive(&mut hs, request.as_bytes())), REFUSED);
    }
}

#[test]
fn a_head_is_found_among_other_bytes() {
    assert!(is_http(b"abcdefg\r\n\r\n"));
    assert!(is_http(b"before abcdefg\r\n\r\n after"));
}
