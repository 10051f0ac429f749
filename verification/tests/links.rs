use bytes::{Bytes, BytesMut};
use stream_relay::addr::IpAddr;
use stream_relay::browser::{BrowserLink, BrowserStep, MAX_REQUEST};
use stream_relay::packer::{ControlPacket, Packer, Packet};
use stream_relay::relay::BroadcastData;
use stream_relay::server::{packet_event, ServerEvent, ServerLink};

const V6: [u8; 16] = [0x20, 1, 0xd, 0xb8, 0, 0, 0, 0, 0, 0, 0, 0, 0, 0, 0, 7];
const OTHER: [u8; 16] = [0x20, 1, 0xd, 0xb8, 0, 0, 0, 0, 0, 0, 0, 0, 0, 0, 0, 8];

fn disconnect(ip: IpAddr) -> Packet {
    Packet::Control(ControlPacket::DisconnectIP(ip))
}

fn video(data: &[u8]) -> Bytes {
    Packer::<Packet>::pack(Packet::Video(Bytes::from(data.to_vec())))
}

fn feed(link: &mut ServerLink, bytes: &[u8]) -> Vec<ServerEvent> {
    link.rx_buf.extend_from_slice(bytes);
    assert!(link.accepts());
    link.on_read()
}

fn rejected(bytes: &[u8]) -> bool {
    let mut link = ServerLink::new();
    link.rx_buf.extend_from_slice(bytes);
    !link.accepts()
}

fn frame_of(event: &ServerEvent) -> (usize, Vec<u8>) {
    match event {
        ServerEvent::Video(len, BroadcastData::Bytes(b)) => (*len, b.to_vec()),
        other => panic!("{:?}", other),
    }
}

#[test]
fn video_goes_to_the_browsers() {
    let mut link = ServerLink::new();
    let events = feed(&mut link, &video(&[1, 2, 3, 4]));
    assert_eq!(events.len(), 1);
    assert_eq!(frame_of(&events[0]), (4, vec![0x82, 4, 1, 2, 3, 4]));
    assert!(link.rx_buf.is_empty());
    assert_eq!(link.last_len, None);
    let events = feed(&mut link, &video(&[9; 200]));
    let (len, frame) = frame_of(&events[0]);
    assert_eq!(len, 200);
    assert_eq!(&frame[..5], &[0x82, 126, 0, 200, 9]);
}

#[test]
fn disconnections_go_to_the_browsers() {
    let mut link = ServerLink::new();
    let frame = Packer::<Packet>::pack(disconnect(IpAddr::V6(V6)));
    let events = feed(&mut link, &frame);
    assert_eq!(events.len(), 1);
    match &events[0] {
        ServerEvent::Disconnected(
            ip,
            BroadcastData::Packet(Packet::Control(ControlPacket::DisconnectIP(named))),
        ) => {
            assert_eq!(*ip, IpAddr::V6(V6));
            assert_eq!(*named, IpAddr::V6(V6));
        }
        other => panic!("{:?}", other),
    }
}

#[test]
fn the_worker_learns_its_number() {
    let mut link = ServerLink::new();
    let events = feed(&mut link, &[0, 0, 0, 9, 1, 0, 0, 1, 2]);
    assert!(matches!(events[..], [ServerEvent::Connected(0x102)]));
    assert!(link.rx_buf.is_empty());
}

#[test]
fn a_greeting_from_the_server_leads_to_nothing() {
    let mut link = ServerLink::new();
    assert!(feed(&mut link, &[0, 0, 0, 9, 0, 0, 0, 1, 2]).is_empty());
    assert_eq!(link.last_len, None);
    assert!(packet_event(Packet::Handshake(1)).is_none());
}

#[test]
fn a_number_in_a_long_word_leaves_its_lower_half() {
    if usize::BITS == 64 {
        let mut link = ServerLink::new();
        let number = ((5u64 << 32) + 6) as usize;
        let events = feed(&mut link, &Packer::<Packet>::pack(Packet::HandshakeResponse(number)));
        assert!(matches!(events[..], [ServerEvent::Connected(5)]));
        assert_eq!(&link.rx_buf[..], &[0, 0, 0, 6]);
    }
}

#[test]
fn a_frame_can_come_in_pieces() {
    let frame = video(&[1, 2, 3, 4, 5]);
    for cut in 0..frame.len() {
        let mut link = ServerLink::new();
        assert!(feed(&mut link, &frame[..cut]).is_empty());
        if cut < 4 {
            assert_eq!(link.last_len, None);
            assert_eq!(link.rx_buf.len(), cut);
        } else {
            assert_eq!(link.last_len, Some(6));
            assert_eq!(link.rx_buf.len(), cut - 4);
        }
        let events = feed(&mut link, &frame[cut..]);
        assert_eq!(events.len(), 1);
        assert_eq!(frame_of(&events[0]), (5, vec![0x82, 5, 1, 2, 3, 4, 5]));
        assert!(link.rx_buf.is_empty());
        assert_eq!(link.last_len, None);
    }
}

#[test]
fn one_read_is_cut_into_bodies_of_one_length() {
    let mut link = ServerLink::new();
    let bytes = vec![0u8, 0, 0, 8, 2, 1, 1, 1, 2, 2, 2, 2, 9, 9];
    let events = feed(&mut link, &bytes);
    assert_eq!(events.len(), 2);
    assert_eq!(frame_of(&events[0]), (3, vec![0x82, 3, 1, 1, 1]));
    assert_eq!(frame_of(&events[1]), (3, vec![0x82, 3, 2, 2, 2]));
    assert_eq!(&link.rx_buf[..], &[9, 9]);
}

#[test]
fn the_length_is_kept_until_a_packet_is_read() {
    let mut link = ServerLink::new();
    assert!(feed(&mut link, &[0, 0, 0, 9, 7, 7, 7, 7, 7]).is_empty());
    assert_eq!(link.last_len, Some(5));
    assert!(link.rx_buf.is_empty());
    let events = feed(&mut link, &[1, 0, 0, 0, 3]);
    assert!(matches!(events[..], [ServerEvent::Connected(3)]));
    assert_eq!(link.last_len, None);
}

#[test]
fn reads_that_cannot_be_taken_in_are_told() {
    assert!(rejected(&[0, 0, 0, 3]));
    assert!(rejected(&[0, 0, 0, 4]));
    assert!(rejected(&[0, 0, 0, 8, 1, 2, 3, 4]));
    assert!(rejected(&[0, 0, 0, 8, 2, 2, 3, 4, 0, 0, 0, 0]));
    let v4 = Packer::<Packet>::pack(disconnect(IpAddr::V4([1, 2, 3, 4])));
    assert!(rejected(&v4));
    assert!(!rejected(&[]));
    assert!(!rejected(&[0, 0, 0]));
    assert!(!rejected(&[0, 0, 0, 5]));
    assert!(!rejected(&[0, 0, 1, 0]));
    assert!(!rejected(&video(&[1, 2, 3])));
}

fn browser(bytes: &[u8]) -> BrowserLink {
    BrowserLink::new(BytesMut::from(bytes), IpAddr::V6(V6))
}

#[test]
fn a_browser_link_starts_with_what_was_received() {
    let link = browser(&[1, 2]);
    assert_eq!(&link.rx_buf[..], &[1, 2]);
    assert!(link.tx_buf.is_empty());
    assert_eq!(link.last_len, None);
    assert!(link.wants_flush());
    assert!(!browser(&[]).wants_flush());
}

#[test]
fn a_browser_request_is_forwarded_with_its_own_address() {
    let frame = Packer::<Packet>::pack(disconnect(IpAddr::V6(OTHER)));
    let mut link = browser(&frame);
    assert!(link.accepts());
    assert_eq!(link.on_read(), Some(18));
    assert!(link.can_step(18));
    match link.next_request(18) {
        BrowserStep::Forward(Packet::Control(ControlPacket::DisconnectIP(ip))) => {
            assert_eq!(ip, IpAddr::V6(V6));
        }
        other => panic!("{:?}", other),
    }
    assert!(link.rx_buf.is_empty());
    assert_eq!(link.last_len, Some(18));
    assert!(!link.can_step(18));
}

#[test]
fn other_browser_requests_ask_for_nothing() {
    let mut link = browser(&video(&[1, 2, 3]));
    assert_eq!(link.on_read(), Some(4));
    assert!(matches!(link.next_request(4), BrowserStep::Skip));
    assert!(link.rx_buf.is_empty());
}

#[test]
fn a_browser_with_more_than_a_body_waits() {
    let mut link = browser(&[0, 0, 0, 8, 2, 1, 1, 1, 1]);
    assert_eq!(link.on_read(), Some(4));
    assert!(link.can_step(4));
    assert!(matches!(link.next_request(4), BrowserStep::Wait));
    assert_eq!(&link.rx_buf[..], &[2, 1, 1, 1, 1]);
}

#[test]
fn a_browser_body_has_a_limit() {
    let mut link = browser(&[0, 0, 4, 5]);
    assert_eq!(link.on_read(), Some(MAX_REQUEST + 1));
    assert!(link.can_step(MAX_REQUEST + 1));
    assert!(matches!(link.next_request(MAX_REQUEST + 1), BrowserStep::TooLarge(1025)));
    let mut link = browser(&[0, 0, 4, 4]);
    assert_eq!(link.on_read(), Some(1024));
    assert!(!link.can_step(1024));
}

#[test]
fn a_browser_length_is_read_once() {
    let mut link = browser(&[0, 0, 0]);
    assert!(link.accepts());
    assert_eq!(link.on_read(), None);
    link.rx_buf.extend_from_slice(&[9, 1]);
    assert_eq!(link.on_read(), Some(5));
    link.rx_buf.extend_from_slice(&[0, 0, 0, 7]);
    assert_eq!(link.on_read(), Some(5));
    assert_eq!(&link.rx_buf[..], &[1, 0, 0, 0, 7]);
    assert!(!browser(&[0, 0, 0, 3]).accepts());
    assert!(browser(&[0, 0, 0, 4]).accepts());
    assert!(browser(&[1, 0, 0, 0]).accepts());
}

#[test]
fn broadcasts_are_queued_in_order() {
    let mut link = browser(&[]);
    assert!(!link.on_broadcast(BroadcastData::Bytes(Bytes::from(vec![1u8, 2]))));
    assert!(!link.on_broadcast(BroadcastData::Bytes(Bytes::from(vec![3u8]))));
    assert_eq!(&link.tx_buf[..], &[1, 2, 3]);
    assert!(link.wants_flush());
}

#[test]
fn a_disconnection_closes_one_link() {
    let mut link = browser(&[]);
    assert!(link.on_broadcast(BroadcastData::Packet(disconnect(IpAddr::V6(V6)))));
    assert!(!link.on_broadcast(BroadcastData::Packet(disconnect(IpAddr::V6(OTHER)))));
    assert!(!link.on_broadcast(BroadcastData::Packet(disconnect(IpAddr::V4([1, 2, 3, 4])))));
    assert!(!link.on_broadcast(BroadcastData::Packet(Packet::Handshake(0))));
    assert!(link.tx_buf.is_empty());
}

#[test]
fn a_disconnection_from_the_server_closes_its_browser() {
    let mut server = ServerLink::new();
    let frame = Packer::<Packet>::pack(disconnect(IpAddr::V6(V6)));
    match feed(&mut server, &frame).pop() {
        Some(ServerEvent::Disconnected(_, data)) => {
            let copy = data.clone();
            assert!(browser(&[]).on_broadcast(data));
            assert!(!BrowserLink::new(BytesMut::new(), IpAddr::V6(OTHER)).on_broadcast(copy));
        }
        other => panic!("{:?}", other),
    }
}

#[test]
fn broadcast_bytes_clone_alike() {
    match BroadcastData::Bytes(Bytes::from(vec![4u8, 5])).clone() {
        BroadcastData::Bytes(b) => assert_eq!(&b[..], &[4, 5]),
        other => panic!("{:?}", other),
    }
}

#[test]
fn video_from_the_server_is_queued_for_a_browser() {
    let mut server = ServerLink::new();
    let mut link = browser(&[]);
    link.tx_buf.extend_from_slice(&[1]);
    match feed(&mut server, &video(&[7, 8, 9])).pop() {
        Some(ServerEvent::Video(3, data)) => assert!(!link.on_broadcast(data)),
        other => panic!("{:?}", other),
    }
    assert_eq!(&link.tx_buf[..], &[1, 0x82, 3, 7, 8, 9]);
}

#[test]
fn what_was_sent_leaves_from_the_front() {
    let mut link = browser(&[0, 0, 0, 8, 2, 1, 1, 1]);
    assert!(!link.on_broadcast(BroadcastData::Bytes(Bytes::from(vec![1u8, 2, 3]))));
    link.on_sent(2);
    assert_eq!(&link.tx_buf[..], &[3]);
    assert_eq!(link.on_read(), Some(4));
    assert!(matches!(link.next_request(4), BrowserStep::Skip));
    assert_eq!(&link.tx_buf[..], &[3]);
    assert!(!link.on_broadcast(BroadcastData::Packet(Packet::Handshake(0))));
    assert!(!link.on_broadcast(BroadcastData::Bytes(Bytes::from(vec![4u8]))));
    link.on_sent(0);
    assert_eq!(&link.tx_buf[..], &[3, 4]);
    link.on_sent(2);
    assert!(link.tx_buf.is_empty());
}

#[test]
fn bodies_can_be_taken_one_by_one() {
    let mut link = ServerLink::new();
    link.last_len = Some(4);
    link.rx_buf.extend_from_slice(&[7, 7, 7, 7, 2, 1, 1, 1, 1, 2, 3, 4]);
    assert!(!link.accepts());
    assert!(!link.can_take(13));
    assert!(link.can_take(4));
    assert!(link.take_body(4).is_none());
    assert_eq!(link.last_len, Some(4));
    assert!(link.can_take(4));
    assert_eq!(frame_of(&link.take_body(4).unwrap()), (3, vec![0x82, 3, 1, 1, 1]));
    assert_eq!(link.last_len, None);
    assert_eq!(&link.rx_buf[..], &[1, 2, 3, 4]);
    assert!(!link.can_take(4));
    assert!(link.can_take(0));
    assert!(link.take_body(0).is_none());
    assert_eq!(link.rx_buf.len(), 4);
}
