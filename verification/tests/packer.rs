use bytes::Bytes;
use stream_relay::addr::IpAddr;
use stream_relay::packer::{ControlPacket, Packer, Packet};

const V6: [u8; 16] = [0x20, 1, 0xd, 0xb8, 0, 0, 0, 0, 0, 0, 0, 0, 0, 0, 0, 7];

fn disconnect(ip: IpAddr) -> Packet {
    Packet::Control(ControlPacket::DisconnectIP(ip))
}

#[test]
fn greeting_has_a_fixed_length_field_and_a_whole_word() {
    let frame: Bytes = Packer::<Packet>::pack(Packet::Handshake(0x0102));
    let mut expected = vec![0u8, 0, 0, 9, 0];
    expected.extend_from_slice(&0x0102usize.to_be_bytes());
    assert_eq!(&frame[..], &expected[..]);
}

#[test]
fn answer_to_a_greeting_has_its_own_kind() {
    let frame = Packer::<Packet>::pack(Packet::HandshakeResponse(7));
    let mut expected = vec![0u8, 0, 0, 9, 1];
    expected.extend_from_slice(&7usize.to_be_bytes());
    assert_eq!(&frame[..], &expected[..]);
}

#[test]
fn video_frame_counts_itself() {
    let frame = Packer::<Packet>::pack(Packet::Video(Bytes::from(vec![9u8, 8, 7])));
    assert_eq!(&frame[..], &[0, 0, 0, 8, 2, 9, 8, 7]);
    let long = Packer::<Packet>::pack(Packet::Video(Bytes::from(vec![5u8; 70000])));
    assert_eq!(long.len(), 70005);
    assert_eq!(&long[..5], &[0, 1, 0x11, 0x75, 2]);
}

#[test]
fn control_frames_hold_the_octets() {
    let frame = Packer::<Packet>::pack(disconnect(IpAddr::V4([10, 0, 0, 1])));
    assert_eq!(&frame[..], &[0, 0, 0, 10, 3, 0, 10, 0, 0, 1]);
    let frame = Packer::<Packet>::pack(disconnect(IpAddr::V6(V6)));
    assert_eq!(&frame[..6], &[0, 0, 0, 22, 3, 0]);
    assert_eq!(&frame[6..], &V6);
    let bytes = Packer::<ControlPacket>::pack(ControlPacket::DisconnectIP(IpAddr::V4([1, 2, 3, 4])));
    assert_eq!(&bytes[..], &[0, 1, 2, 3, 4]);
}

#[test]
fn numbers_are_read_from_four_bytes() {
    let packet = Packer::<Packet>::unpack(Bytes::from(vec![0u8, 1, 2, 3, 4, 5]));
    assert!(matches!(packet, Some(Packet::Handshake(0x01020304))));
    let packet = Packer::<Packet>::unpack(Bytes::from(vec![1u8, 0xff, 0xff, 0xff, 0xfe]));
    assert!(matches!(packet, Some(Packet::HandshakeResponse(0xfffffffe))));
}

#[test]
fn upper_part_of_a_number_reads_back() {
    let number = usize::MAX - 5;
    let frame = Packer::<Packet>::pack(Packet::HandshakeResponse(number));
    match Packer::<Packet>::unpack(frame.slice(4..)) {
        Some(Packet::HandshakeResponse(read)) => {
            assert_eq!(read, number >> (usize::BITS - 32));
        }
        other => panic!("{:?}", other),
    }
}

#[test]
fn video_reads_back() {
    let frame = Packer::<Packet>::pack(Packet::Video(Bytes::from(vec![1u8, 2, 3])));
    match Packer::<Packet>::unpack(frame.slice(4..)) {
        Some(Packet::Video(data)) => assert_eq!(&data[..], &[1, 2, 3]),
        other => panic!("{:?}", other),
    }
}

#[test]
fn short_video_and_unknown_kinds_are_no_packets() {
    let frame = Packer::<Packet>::pack(Packet::Video(Bytes::from(vec![1u8, 2])));
    assert!(Packer::<Packet>::unpack(frame.slice(4..)).is_none());
    assert!(Packer::<Packet>::unpack(Bytes::new()).is_none());
    assert!(Packer::<Packet>::unpack(Bytes::from(vec![4u8, 0, 0, 0, 0])).is_none());
    assert!(Packer::<Packet>::unpack(Bytes::from(vec![0u8, 0, 0])).is_none());
}

#[test]
fn disconnection_of_v6_reads_back() {
    let frame = Packer::<Packet>::pack(disconnect(IpAddr::V6(V6)));
    match Packer::<Packet>::unpack(frame.slice(4..)) {
        Some(Packet::Control(ControlPacket::DisconnectIP(ip))) => assert_eq!(ip, IpAddr::V6(V6)),
        other => panic!("{:?}", other),
    }
    let mut bytes = vec![0u8];
    bytes.extend_from_slice(&V6);
    bytes.push(99);
    let ControlPacket::DisconnectIP(ip) = Packer::<ControlPacket>::unpack(Bytes::from(bytes));
    assert_eq!(ip, IpAddr::V6(V6));
}

#[test]
fn unreadable_bodies_are_told() {
    let v4 = Packer::<Packet>::pack(disconnect(IpAddr::V4([10, 0, 0, 1])));
    assert!(!Packer::<Packet>::can_unpack(&v4[4..]));
    let v6 = Packer::<Packet>::pack(disconnect(IpAddr::V6(V6)));
    assert!(Packer::<Packet>::can_unpack(&v6[4..]));
    assert!(!Packer::<Packet>::can_unpack(&v6[4..21]));
    assert!(!Packer::<Packet>::can_unpack(&[0, 1, 2, 3]));
    assert!(!Packer::<Packet>::can_unpack(&[1, 1, 2, 3]));
    assert!(Packer::<Packet>::can_unpack(&[1, 1, 2]));
    assert!(Packer::<Packet>::can_unpack(&[2, 1, 2, 3]));
    assert!(Packer::<Packet>::can_unpack(&[9, 1, 2, 3]));
    let mut other = vec![3u8, 1];
    other.extend_from_slice(&V6);
    assert!(!Packer::<Packet>::can_unpack(&other));
}

#[test]
fn read_video_packs_to_its_body() {
    let body = Bytes::from(vec![2u8, 6, 5, 4, 3]);
    let packet = Packer::<Packet>::unpack(body.clone()).unwrap();
    assert_eq!(&Packer::<Packet>::pack(packet)[4..], &body[..]);
}

#[test]
fn clones_pack_alike() {
    let packets = vec![
        Packet::Handshake(3),
        Packet::HandshakeResponse(4),
        Packet::Video(Bytes::from(vec![1u8, 2, 3])),
        disconnect(IpAddr::V6(V6)),
    ];
    for packet in packets {
        let copy = packet.clone();
        assert_eq!(Packer::<Packet>::pack(copy), Packer::<Packet>::pack(packet));
    }
}

#[test]
fn packers_can_be_made() {
    let _packets: Packer<Packet> = Packer::new();
    let _controls: Packer<ControlPacket> = Packer::new();
}

#[test]
fn control_packets_of_v6_read_back() {
    let bytes = Packer::<ControlPacket>::pack(ControlPacket::DisconnectIP(IpAddr::V6(V6)));
    assert_eq!(bytes.len(), 17);
    let ControlPacket::DisconnectIP(ip) = Packer::<ControlPacket>::unpack(bytes);
    assert_eq!(ip, IpAddr::V6(V6));
}

#[test]
fn different_packets_have_different_frames() {
    let packets = vec![
        Packet::Handshake(0),
        Packet::Handshake(1),
        Packet::HandshakeResponse(0),
        Packet::Video(Bytes::from(vec![0u8; 8])),
        Packet::Video(Bytes::from(vec![0u8; 5])),
        disconnect(IpAddr::V4([0, 0, 0, 0])),
        disconnect(IpAddr::V6([0; 16])),
    ];
    let frames: Vec<Bytes> = packets.into_iter().map(Packer::<Packet>::pack).collect();
    for i in 0..frames.len() {
        for j in 0..i {
            assert_ne!(frames[i], frames[j]);
        }
    }
}
