//! The wire formats, byte by byte.

use crate::addr::{IpAddr, IpAddrView};
use crate::be::{
    be_bytes, be_value, lemma_be_bytes_len, lemma_be_round_trip, lemma_be_value_4, lemma_pow_256_4,
};
use crate::laws::well_formed;
use crate::packer::{
    control_bytes, control_readable, frame_bytes, length_field, packable, read_body, read_control,
    readable,
};
use crate::packer::{ControlPacketView, Packet, PacketView};
use crate::websocket::binary_frame;
use vstd::arithmetic::div_mod::{lemma_div_basics, lemma_div_denominator};
use vstd::arithmetic::power::{lemma_pow0, lemma_pow1, lemma_pow_adds, lemma_pow_positive, pow};
use vstd::prelude::*;

verus! {

/// Byte `i` of a number in `width` bytes is what is left of the number, modulo 256, when the
/// bytes that follow it are divided off.
pub proof fn digits_of_a_number(value: nat, width: nat)
    ensures
        be_bytes(value, width).len() == width,
        forall|i: int|
            0 <= i < width ==> #[trigger] be_bytes(value, width)[i] == value as int / pow(
                256,
                (width - 1 - i) as nat,
            ) % 256,
    decreases width,
{
    lemma_be_bytes_len(value, width);
    if width > 0 {
        let shorter = (width - 1) as nat;
        digits_of_a_number(value / 256, shorter);
        lemma_be_bytes_len(value / 256, shorter);
        assert forall|i: int| 0 <= i < width implies #[trigger] be_bytes(value, width)[i]
            == value as int / pow(256, (width - 1 - i) as nat) % 256 by {
            if i == shorter {
                lemma_pow0(256);
                lemma_div_basics(value as int);
            } else {
                let after = (shorter - 1 - i) as nat;
                assert(be_bytes(value, width)[i] == be_bytes(value / 256, shorter)[i]);
                lemma_pow1(256);
                lemma_pow_adds(256, 1, after);
                lemma_pow_positive(256, after);
                lemma_div_denominator(value as int, 256, pow(256, after));
            }
        }
    }
}

/// One more byte makes a number 256 times as large, plus the byte.
pub proof fn number_of_digits(digits: Seq<u8>, next: u8)
    ensures
        be_value(Seq::empty()) == 0,
        be_value(digits.push(next)) == be_value(digits) * 256 + next,
{
    assert(digits.push(next).drop_last() =~= digits);
}

/// A frame, byte by byte. A number takes a whole machine word, whatever the length field says.
pub proof fn bytes_of_a_frame(packet: PacketView)
    requires
        well_formed(packet),
    ensures
        match packet {
            PacketView::Handshake(version) => frame_bytes(packet) == seq![0u8, 0u8, 0u8, 9u8, 0u8]
                + be_bytes(version as nat, (usize::BITS / 8) as nat),
            PacketView::HandshakeResponse(worker_id) => frame_bytes(packet) == seq![
                0u8,
                0u8,
                0u8,
                9u8,
                1u8,
            ] + be_bytes(worker_id as nat, (usize::BITS / 8) as nat),
            PacketView::Video(data) => {
                let frame = frame_bytes(packet);
                &&& frame.len() == data.len() + 5
                &&& frame[4] == 2
                &&& frame.skip(5) == data
                &&& packable(packet) ==> frame[0] * 0x100_0000 + frame[1] * 0x1_0000 + frame[2]
                    * 0x100 + frame[3] == data.len() % 0x1_0000_0000 + 5
            },
            PacketView::Control(ControlPacketView::DisconnectIP(IpAddrView::V4(octets))) =>
                frame_bytes(packet) == seq![0u8, 0u8, 0u8, 10u8, 3u8, 0u8] + octets,
            PacketView::Control(ControlPacketView::DisconnectIP(IpAddrView::V6(octets))) =>
                frame_bytes(packet) == seq![0u8, 0u8, 0u8, 22u8, 3u8, 0u8] + octets,
        },
{
    reveal_with_fuel(be_bytes, 5);
    assert(be_bytes(9, 4) =~= seq![0u8, 0u8, 0u8, 9u8]);
    assert(be_bytes(10, 4) =~= seq![0u8, 0u8, 0u8, 10u8]);
    assert(be_bytes(22, 4) =~= seq![0u8, 0u8, 0u8, 22u8]);
    let frame = frame_bytes(packet);
    match packet {
        PacketView::Handshake(version) => {
            assert(frame =~= seq![0u8, 0u8, 0u8, 9u8, 0u8] + be_bytes(
                version as nat,
                (usize::BITS / 8) as nat,
            ));
        },
        PacketView::HandshakeResponse(worker_id) => {
            assert(frame =~= seq![0u8, 0u8, 0u8, 9u8, 1u8] + be_bytes(
                worker_id as nat,
                (usize::BITS / 8) as nat,
            ));
        },
        PacketView::Video(data) => {
            let field = be_bytes(length_field(packet), 4);
            lemma_be_bytes_len(length_field(packet), 4);
            assert(frame.skip(5) =~= data);
            if packable(packet) {
                lemma_be_value_4(field);
                lemma_pow_256_4();
                lemma_be_round_trip(length_field(packet), 4);
            }
        },
        PacketView::Control(ControlPacketView::DisconnectIP(IpAddrView::V4(octets))) => {
            assert(frame =~= seq![0u8, 0u8, 0u8, 10u8, 3u8, 0u8] + octets);
        },
        PacketView::Control(ControlPacketView::DisconnectIP(IpAddrView::V6(octets))) => {
            assert(frame =~= seq![0u8, 0u8, 0u8, 22u8, 3u8, 0u8] + octets);
        },
    }
}

/// Every packet can be framed, save for video data whose length does not fit in the length
/// field or in a buffer.
pub proof fn packets_can_be_framed(packet: PacketView)
    ensures
        packet !is Video ==> packable(packet),
        packet matches PacketView::Video(data) ==> (data.len() + 5 <= u32::MAX && data.len() + 5
            <= isize::MAX ==> packable(packet)),
{
}

/// What a body stands for, byte by byte, and which bodies can be read.
pub proof fn packet_of_a_body(body: Seq<u8>)
    ensures
        body.len() < 4 ==> read_body(body) is None,
        body.len() >= 4 && body[0] > 3 ==> read_body(body) is None,
        body.len() >= 5 && body[0] == 0 ==> read_body(body) == Some(
            PacketView::Handshake(
                (body[1] * 0x100_0000 + body[2] * 0x1_0000 + body[3] * 0x100 + body[4]) as usize,
            ),
        ),
        body.len() >= 5 && body[0] == 1 ==> read_body(body) == Some(
            PacketView::HandshakeResponse(
                (body[1] * 0x100_0000 + body[2] * 0x1_0000 + body[3] * 0x100 + body[4]) as usize,
            ),
        ),
        body.len() >= 4 && body[0] == 2 ==> read_body(body) == Some(
            PacketView::Video(body.skip(1)),
        ),
        body.len() >= 18 && body[0] == 3 && body[1] == 0 ==> read_body(body) == Some(
            PacketView::Control(
                ControlPacketView::DisconnectIP(IpAddrView::V6(body.subrange(2, 18))),
            ),
        ),
        readable(body) <==> body.len() < 4 || body[0] > 3 || body[0] == 2 || (body[0] < 2
            && body.len() >= 5) || (body[0] == 3 && body[1] == 0 && body.len() >= 18),
{
    if body.len() >= 5 {
        lemma_be_value_4(body.subrange(1, 5));
    }
    if body.len() >= 4 {
        assert(body.skip(1)[0] == body[1]);
    }
    if body.len() >= 18 {
        assert(body.skip(1).subrange(1, 17) =~= body.subrange(2, 18));
    }
}

/// A control packet is a zero byte and the octets; it is read from a zero byte and sixteen
/// octets, and what follows them makes no difference.
pub proof fn bytes_of_a_control_packet(ip: IpAddrView, octets: Seq<u8>, more: Seq<u8>)
    requires
        octets.len() == 16,
    ensures
        control_bytes(ControlPacketView::DisconnectIP(ip)).len() == ip.octets().len() + 1,
        control_bytes(ControlPacketView::DisconnectIP(ip))[0] == 0,
        control_bytes(ControlPacketView::DisconnectIP(ip)).skip(1) == ip.octets(),
        control_readable(seq![0u8] + octets + more),
        read_control(seq![0u8] + octets + more) == ControlPacketView::DisconnectIP(
            IpAddrView::V6(octets),
        ),
{
    assert(control_bytes(ControlPacketView::DisconnectIP(ip)).skip(1) =~= ip.octets());
    assert((seq![0u8] + octets + more).subrange(1, 17) =~= octets);
}

/// A control packet cannot be read from fewer than seventeen bytes, nor where the first is not
/// zero.
pub proof fn unreadable_control_packets(bytes: Seq<u8>)
    requires
        bytes.len() < 17 || bytes[0] != 0,
    ensures
        !control_readable(bytes),
{
}

/// A binary message, byte by byte: the kind of frame, the length in one, three or nine bytes,
/// and the payload.
pub proof fn bytes_of_a_message(data: Seq<u8>)
    ensures
        binary_frame(data)[0] == 0x82,
        data.len() <= 125 ==> {
            &&& binary_frame(data)[1] == data.len()
            &&& binary_frame(data).skip(2) == data
        },
        125 < data.len() <= 65535 ==> {
            &&& binary_frame(data)[1] == 126
            &&& binary_frame(data)[2] * 0x100 + binary_frame(data)[3] == data.len()
            &&& binary_frame(data).skip(4) == data
        },
        65535 < data.len() ==> {
            &&& binary_frame(data)[1] == 127
            &&& binary_frame(data).subrange(2, 10) == be_bytes(data.len(), 8)
            &&& binary_frame(data).skip(10) == data
        },
{
    let n = data.len();
    lemma_be_bytes_len(n, 2);
    lemma_be_bytes_len(n, 8);
    if n <= 125 {
        assert(binary_frame(data).skip(2) =~= data);
    } else if n <= 65535 {
        reveal_with_fuel(be_bytes, 3);
        assert(binary_frame(data).skip(4) =~= data);
        assert(be_bytes(n, 2)[0] == n / 256 % 256);
        assert(be_bytes(n, 2)[1] == n % 256);
        assert(binary_frame(data)[2] == be_bytes(n, 2)[0]);
        assert(binary_frame(data)[3] == be_bytes(n, 2)[1]);
    } else {
        assert(binary_frame(data).subrange(2, 10) =~= be_bytes(n, 8));
        assert(binary_frame(data).skip(10) =~= data);
    }
}

/// Two addresses look alike only if they are of the same version and have the same octets.
pub proof fn addresses_look_like_what_they_are(first: IpAddr, second: IpAddr)
    requires
        first@ == second@,
    ensures
        match (first, second) {
            (IpAddr::V4(a), IpAddr::V4(b)) => a@ == b@,
            (IpAddr::V6(a), IpAddr::V6(b)) => a@ == b@,
            _ => false,
        },
        first@.octets().len() == (if first is V4 {
            4nat
        } else {
            16
        }),
{
}

/// Two packets look alike only if they are of the same kind and hold the same.
pub proof fn packets_look_like_what_they_are(first: Packet, second: Packet)
    requires
        first@ == second@,
    ensures
        match (first, second) {
            (Packet::Handshake(a), Packet::Handshake(b)) => a == b,
            (Packet::HandshakeResponse(a), Packet::HandshakeResponse(b)) => a == b,
            (Packet::Video(a), Packet::Video(b)) => crate::buffers::contents(a)
                == crate::buffers::contents(b),
            (Packet::Control(a), Packet::Control(b)) => a@ == b@,
            _ => false,
        },
{
}

} // verus!
