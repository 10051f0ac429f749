//! Packets between a worker and its server, and their wire format.
//!
//! A frame starts with a length field of four bytes, most significant first. What follows is
//! the packet's body: one byte that tells the kind of packet, then its fields.

use crate::addr::{IpAddr, IpAddrView};
use crate::be::{be_bytes, be_u32, be_value, lemma_be_bytes_len, low_u32, word_be_bytes, word_bytes};
use crate::buffers::{buffered, bytes_from, contents, put_u32};
use bytes::{Bytes, BytesMut};
use vstd::prelude::*;

verus! {

/// A packet of the link between worker and server.
#[derive(Debug)]
pub enum Packet {
    /// The worker's greeting, with its protocol version.
    Handshake(usize),
    /// The server's answer, with the number given to the worker.
    HandshakeResponse(usize),
    /// Video data.
    Video(Bytes),
    /// An instruction.
    Control(ControlPacket),
}

/// An instruction to the other side.
#[derive(Debug)]
pub enum ControlPacket {
    /// Drop the viewer at this address.
    DisconnectIP(IpAddr),
}

/// What a packet says.
#[verifier::ext_equal]
pub enum PacketView {
    Handshake(usize),
    HandshakeResponse(usize),
    Video(Seq<u8>),
    Control(ControlPacketView),
}

/// What a control packet says.
#[verifier::ext_equal]
pub enum ControlPacketView {
    DisconnectIP(IpAddrView),
}

impl View for ControlPacket {
    type V = ControlPacketView;

    open spec fn view(&self) -> ControlPacketView {
        match self {
            ControlPacket::DisconnectIP(ip) => ControlPacketView::DisconnectIP(ip@),
        }
    }
}

impl View for Packet {
    type V = PacketView;

    open spec fn view(&self) -> PacketView {
        match self {
            Packet::Handshake(version) => PacketView::Handshake(*version),
            Packet::HandshakeResponse(worker_id) => PacketView::HandshakeResponse(*worker_id),
            Packet::Video(data) => PacketView::Video(contents(*data)),
            Packet::Control(data) => PacketView::Control(data@),
        }
    }
}

impl Clone for ControlPacket {
    fn clone(&self) -> (copy: Self)
        ensures
            copy@ == self@,
    {
        match self {
            ControlPacket::DisconnectIP(ip) => ControlPacket::DisconnectIP(*ip),
        }
    }
}

impl Clone for Packet {
    fn clone(&self) -> (copy: Self)
        ensures
            copy@ == self@,
    {
        match self {
            Packet::Handshake(version) => Packet::Handshake(*version),
            Packet::HandshakeResponse(worker_id) => Packet::HandshakeResponse(*worker_id),
            Packet::Video(data) => Packet::Video(data.clone()),
            Packet::Control(data) => Packet::Control(data.clone()),
        }
    }
}

/// A control packet on the wire: a kind byte, then the octets of the address.
pub open spec fn control_bytes(packet: ControlPacketView) -> Seq<u8> {
    match packet {
        ControlPacketView::DisconnectIP(ip) => seq![0x00u8] + ip.octets(),
    }
}

/// The byte that tells the kind of packet.
pub open spec fn kind_byte(packet: PacketView) -> u8 {
    match packet {
        PacketView::Handshake(_) => 0x00,
        PacketView::HandshakeResponse(_) => 0x01,
        PacketView::Video(_) => 0x02,
        PacketView::Control(_) => 0x03,
    }
}

/// The fields of a packet on the wire. A number takes all bytes of a machine word.
pub open spec fn field_bytes(packet: PacketView) -> Seq<u8> {
    match packet {
        PacketView::Handshake(version) => be_bytes(version as nat, word_bytes()),
        PacketView::HandshakeResponse(worker_id) => be_bytes(worker_id as nat, word_bytes()),
        PacketView::Video(data) => data,
        PacketView::Control(data) => control_bytes(data),
    }
}

/// What the length field of a packet's frame says: five plus the length of the fields, of
/// which only 32 bits are kept, where a number counts for four bytes whatever the machine.
pub open spec fn length_field(packet: PacketView) -> nat {
    match packet {
        PacketView::Handshake(_) | PacketView::HandshakeResponse(_) => 9,
        _ => 5 + field_bytes(packet).len() % 0x1_0000_0000,
    }
}

/// The body of a packet's frame: what follows the length field.
pub open spec fn body_bytes(packet: PacketView) -> Seq<u8> {
    seq![kind_byte(packet)] + field_bytes(packet)
}

/// A packet's whole frame.
pub open spec fn frame_bytes(packet: PacketView) -> Seq<u8> {
    be_bytes(length_field(packet), 4) + body_bytes(packet)
}

/// The packet can be framed: the length of a video packet fits in the length field and in a
/// buffer. Any other packet is short enough.
pub open spec fn packable(packet: PacketView) -> bool {
    match packet {
        PacketView::Video(data) => length_field(packet) <= u32::MAX && data.len() + 5 <= isize::MAX,
        _ => true,
    }
}

/// A control packet can be read from these bytes.
pub open spec fn control_readable(bytes: Seq<u8>) -> bool {
    bytes.len() >= 17 && bytes[0] == 0x00
}

/// The control packet that these bytes stand for. The address is always read as sixteen
/// octets.
pub open spec fn read_control(bytes: Seq<u8>) -> ControlPacketView {
    ControlPacketView::DisconnectIP(IpAddrView::V6(bytes.subrange(1, 17)))
}

/// A body from which `read_body` can be computed: a number is not cut short, and a control
/// packet is readable.
pub open spec fn readable(body: Seq<u8>) -> bool {
    body.len() >= 4 ==> {
        &&& body[0] <= 0x01 ==> body.len() >= 5
        &&& body[0] == 0x03 ==> control_readable(body.skip(1))
    }
}

/// The packet that a body stands for, if any: none where the body is under four bytes or of an
/// unknown kind. A number is read from four bytes.
pub open spec fn read_body(body: Seq<u8>) -> Option<PacketView> {
    if body.len() < 4 {
        None
    } else if body[0] == 0x00 {
        Some(PacketView::Handshake(be_value(body.subrange(1, 5)) as usize))
    } else if body[0] == 0x01 {
        Some(PacketView::HandshakeResponse(be_value(body.subrange(1, 5)) as usize))
    } else if body[0] == 0x02 {
        Some(PacketView::Video(body.skip(1)))
    } else if body[0] == 0x03 {
        Some(PacketView::Control(read_control(body.skip(1))))
    } else {
        None
    }
}

/// What a `Packer` packs.
pub trait Packable {

}

impl Packable for Packet {

}

impl Packable for ControlPacket {

}

/// Packing for a type of packet.
pub trait PackImpl<T> where T: Packable {
    /// The bytes of a packet.
    fn pack(data: T) -> Bytes;

    /// The packet that the bytes stand for.
    fn unpack(b: Bytes) -> T;
}

/// The wire format of one type of packet.
pub struct Packer<T> where T: Packable {
    phantom: std::marker::PhantomData<T>,
}

impl<T> Packer<T> where T: Packable {
    /// The one value of the type: a packer holds nothing.
    pub closed spec fn value() -> Self {
        Packer { phantom: std::marker::PhantomData }
    }

    /// A packer.
    pub fn new() -> (packer: Self)
        ensures
            packer == Self::value(),
    {
        Self { phantom: std::marker::PhantomData }
    }
}

impl Packer<Packet> {
    /// The frame of a packet.
    pub fn pack(data: Packet) -> (frame: Bytes)
        requires
            packable(data@),
        ensures
            contents(frame) == frame_bytes(data@),
    {
        proof {
            lemma_be_bytes_len(length_field(data@), 4);
        }
        let mut b = BytesMut::new();
        match data {
            Packet::Handshake(version) => {
                proof {
                    lemma_be_bytes_len(version as nat, word_bytes());
                }
                put_u32(&mut b, 1 + 4 + 4);
                b.extend_from_slice(&[0x00]);
                b.extend_from_slice(&word_be_bytes(version));
            },
            Packet::HandshakeResponse(worker_id) => {
                proof {
                    lemma_be_bytes_len(worker_id as nat, word_bytes());
                }
                put_u32(&mut b, 1 + 4 + 4);
                b.extend_from_slice(&[0x01]);
                b.extend_from_slice(&word_be_bytes(worker_id));
            },
            Packet::Video(video) => {
                put_u32(&mut b, 1 + 4 + low_u32(video.len()));
                b.extend_from_slice(&[0x02]);
                b.extend_from_slice(&video);
            },
            Packet::Control(control) => {
                let byte_arr = Packer::<ControlPacket>::pack(control);
                put_u32(&mut b, 1 + 4 + low_u32(byte_arr.len()));
                b.extend_from_slice(&[0x03]);
                b.extend_from_slice(&byte_arr);
            },
        }
        assert(buffered(b) =~= frame_bytes(data@));
        b.freeze()
    }

    /// Whether `unpack` can be called on these bytes.
    pub fn can_unpack(b: &[u8]) -> (ok: bool)
        ensures
            ok == readable(b@),
    {
        if b.len() < 4 {
            true
        } else if b[0] == 0x03 {
            proof {
                assert(b@.skip(1).len() == b@.len() - 1);
                assert(b@.skip(1)[0] == b@[1]);
            }
            b.len() >= 18 && b[1] == 0x00
        } else {
            b[0] > 0x01 || b.len() >= 5
        }
    }

    /// The packet that a frame's body stands for, if any.
    pub fn unpack(b: Bytes) -> (packet: Option<Packet>)
        requires
            readable(contents(b)),
        ensures
            packet is Some <==> read_body(contents(b)) is Some,
            packet matches Some(p) ==> read_body(contents(b)) == Some(p@),
    {
        if b.len() < 4 {
            return None;
        }
        proof {
            if contents(b).len() >= 5 {
                assert(contents(b).subrange(1, 5) =~= seq![
                    contents(b)[1],
                    contents(b)[2],
                    contents(b)[3],
                    contents(b)[4],
                ]);
            }
        }
        match b[0] {
            0x00 => Some(Packet::Handshake(be_u32(b[1], b[2], b[3], b[4]) as usize)),
            0x01 => Some(Packet::HandshakeResponse(be_u32(b[1], b[2], b[3], b[4]) as usize)),
            0x02 => Some(Packet::Video(bytes_from(&b, 1))),
            0x03 => Some(Packet::Control(Packer::<ControlPacket>::unpack(bytes_from(&b, 1)))),
            _ => None,
        }
    }
}

impl Packer<ControlPacket> {
    /// The bytes of a control packet.
    pub fn pack(data: ControlPacket) -> (bytes: Bytes)
        ensures
            contents(bytes) == control_bytes(data@),
    {
        match data {
            ControlPacket::DisconnectIP(ip) => {
                let mut b = BytesMut::new();
                b.extend_from_slice(&[0x00]);
                match ip {
                    IpAddr::V4(octets) => {
                        b.extend_from_slice(&octets);
                    },
                    IpAddr::V6(octets) => {
                        b.extend_from_slice(&octets);
                    },
                }
                b.freeze()
            },
        }
    }

    /// The control packet that the bytes stand for.
    pub fn unpack(b: Bytes) -> (packet: ControlPacket)
        requires
            control_readable(contents(b)),
        ensures
            packet@ == read_control(contents(b)),
    {
        let ip: [u8; 16] = [
            b[1],
            b[2],
            b[3],
            b[4],
            b[5],
            b[6],
            b[7],
            b[8],
            b[9],
            b[10],
            b[11],
            b[12],
            b[13],
            b[14],
            b[15],
            b[16],
        ];
        assert(ip@ =~= contents(b).subrange(1, 17));
        ControlPacket::DisconnectIP(IpAddr::V6(ip))
    }
}

} // verus!
