use bytes::Bytes;
use stream_relay::addr::{same_bytes, IpAddr};
use stream_relay::be::{be_u32, low_u32, word_be_bytes};
use stream_relay::digest::{accept_key, ACCEPT_GUID, ACCEPT_GUID_LEN};
use stream_relay::websocket::binary_message;

#[test]
fn words_are_big_endian() {
    assert_eq!(&word_be_bytes(0x01020304)[..], &0x01020304usize.to_be_bytes());
    assert_eq!(&word_be_bytes(usize::MAX)[..], &usize::MAX.to_be_bytes());
    assert_eq!(be_u32(1, 2, 3, 4), 0x01020304);
    assert_eq!(be_u32(255, 255, 255, 255), u32::MAX);
}

#[test]
fn lengths_keep_32_bits() {
    assert_eq!(low_u32(5), 5);
    assert_eq!(low_u32(usize::MAX), u32::MAX);
    assert_eq!(low_u32(u32::MAX as usize), u32::MAX);
}

#[test]
fn addresses_are_compared_by_version_and_octets() {
    let v4 = IpAddr::V4([1, 2, 3, 4]);
    let mut octets = [0u8; 16];
    octets[15] = 1;
    let v6 = IpAddr::V6(octets);
    assert!(v4.same_as(&v4));
    assert!(v6.same_as(&v6));
    assert!(!v4.same_as(&v6));
    assert!(!v4.same_as(&IpAddr::V4([1, 2, 3, 5])));
    assert!(!v6.same_as(&IpAddr::V6([0; 16])));
    assert!(same_bytes(&[], &[]));
    assert!(!same_bytes(&[1], &[1, 2]));
}

#[test]
fn accept_values_are_those_of_the_protocol() {
    assert_eq!(accept_key(b"dGhlIHNhbXBsZSBub25jZQ=="), "s3pPLMBiTxaQ9kYGzzhZRbK+xOo=");
    assert_eq!(accept_key(b"x3JJHMbDL1EzLkh9GBhXDw=="), "HSmrc0sMlYUkAGmm5OPpG2HaGWk=");
    assert_eq!(accept_key(b""), "Kfh9QIsMVZcl6xEPYxPHzW8SZ8w=");
    assert_eq!(ACCEPT_GUID.len() as u64, ACCEPT_GUID_LEN);
}

#[test]
fn short_messages_have_a_two_byte_header() {
    let frame = binary_message(Bytes::from(vec![1u8, 2, 3]));
    assert_eq!(&frame[..], &[0x82, 3, 1, 2, 3]);
    let empty = binary_message(Bytes::new());
    assert_eq!(&empty[..], &[0x82, 0]);
    let frame = binary_message(Bytes::from(vec![7u8; 125]));
    assert_eq!(frame.len(), 127);
    assert_eq!(&frame[..3], &[0x82, 125, 7]);
}

#[test]
fn longer_messages_have_longer_headers() {
    let frame = binary_message(Bytes::from(vec![7u8; 126]));
    assert_eq!(frame.len(), 130);
    assert_eq!(&frame[..5], &[0x82, 126, 0, 126, 7]);
    let frame = binary_message(Bytes::from(vec![7u8; 65535]));
    assert_eq!(frame.len(), 65539);
    assert_eq!(&frame[..5], &[0x82, 126, 255, 255, 7]);
    let frame = binary_message(Bytes::from(vec![7u8; 65536]));
    assert_eq!(frame.len(), 65546);
    assert_eq!(&frame[..11], &[0x82, 127, 0, 0, 0, 0, 0, 1, 0, 0, 7]);
}

#[test]
fn payloads_of_different_length_have_different_frames() {
    assert_ne!(binary_message(Bytes::from(vec![0u8; 125])), binary_message(Bytes::from(vec![0u8; 126])));
    assert_ne!(binary_message(Bytes::from(vec![0u8; 3])), binary_message(Bytes::from(vec![1u8; 3])));
}
