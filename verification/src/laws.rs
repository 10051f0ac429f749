//! What holds of the library as a whole.
//!
//! Here stands how its parts relate. The modules below state what each operation does, over the
//! bytes and fields that go in and come out: `wire` of the formats, `links` of the two links, and
//! `requests` of a browser's request.

use crate::addr::{address_named, IpAddrView};
use crate::be::{
    be_bytes, be_value, lemma_be_bytes_len, lemma_be_bytes_prefix, lemma_be_round_trip,
    lemma_pow_256_4, word_bytes,
};
use crate::browser::{
    closes_link, payload, queue_after, step_of, step_possible, takes_body, BrowserStepView, LinkStep,
};
use crate::http::{
    considered, detect, has_head, head_ends_at, last_proxy, line_feeds, request_fields,
    starts_blank, starts_with, upgrade_request, without_blank,
};
use crate::http::{Detection, PrimaryProtocol};
use crate::packer::{
    body_bytes, control_bytes, control_readable, field_bytes, frame_bytes, length_field, read_body,
    read_control, readable,
};
use crate::packer::{ControlPacketView, PacketView};
use crate::relay::{after_prefix, body_len, length_prefix, prefix_valid, BroadcastView};
use crate::server::{
    acceptable, any_packet, arrived, bodies, body_event, event_of, events_of, leftover, read_events,
    read_known, read_rest, ServerEventView,
};
use crate::websocket::{binary_frame, payload_length_bytes};
use crate::ws_handshake::{
    answer, awaits, refusal_answer, step, upgrade_answer,
};
use crate::ws_handshake::{ActionView, EventView, HandshakeRes, HandshakeView, PhaseView};
use vstd::arithmetic::div_mod::{
    lemma_basic_div, lemma_div_basics, lemma_div_plus_one, lemma_mod_add_multiples_vanish,
    lemma_small_mod,
};
use vstd::arithmetic::power::{lemma_pow0, lemma_pow_adds, pow};
use vstd::prelude::*;
use vstd::utf8::{encode_utf8, is_ascii_chars_encode_utf8};

pub mod links;
pub mod requests;
pub mod wire;

verus! {

/// The addresses in the packet have as many octets as their version has.
pub open spec fn well_formed(packet: PacketView) -> bool {
    match packet {
        PacketView::Control(ControlPacketView::DisconnectIP(ip)) => ip.well_formed(),
        _ => true,
    }
}

/// The packet holds a number: it is a greeting or the answer to one.
pub open spec fn is_numbered(packet: PacketView) -> bool {
    packet is Handshake || packet is HandshakeResponse
}

/// The number that the packet holds.
pub open spec fn number_of(packet: PacketView) -> usize {
    match packet {
        PacketView::Handshake(number) => number,
        PacketView::HandshakeResponse(number) => number,
        _ => 0,
    }
}

/// The same packet with another number.
pub open spec fn with_number(packet: PacketView, number: usize) -> PacketView {
    match packet {
        PacketView::Handshake(_) => PacketView::Handshake(number),
        PacketView::HandshakeResponse(_) => PacketView::HandshakeResponse(number),
        _ => packet,
    }
}

/// The four most significant bytes of a machine word, as a number.
pub open spec fn upper_part(number: usize) -> usize {
    (number as nat / (pow(256, (word_bytes() - 4) as nat) as nat)) as usize
}

/// The bytes of all broadcasts among the steps, in their order.
pub open spec fn broadcast_bytes(steps: Seq<LinkStep>) -> Seq<u8>
    decreases steps.len(),
{
    if steps.len() == 0 {
        Seq::empty()
    } else {
        broadcast_bytes(steps.drop_last()) + match steps.last() {
            LinkStep::Broadcast(BroadcastView::Bytes(bytes)) => bytes,
            _ => Seq::empty(),
        }
    }
}

/// The bytes to be sent after the steps, where `pending` was to be sent before them.
pub open spec fn queue_after_all(pending: Seq<u8>, steps: Seq<LinkStep>) -> Seq<u8>
    decreases steps.len(),
{
    if steps.len() == 0 {
        pending
    } else {
        queue_after(queue_after_all(pending, steps.drop_last()), steps.last())
    }
}

/// The bytes that were sent during the steps, where `pending` was to be sent before them.
pub open spec fn sent_in_all(pending: Seq<u8>, steps: Seq<LinkStep>) -> Seq<u8>
    decreases steps.len(),
{
    if steps.len() == 0 {
        Seq::empty()
    } else {
        sent_in_all(pending, steps.drop_last()) + match steps.last() {
            LinkStep::Sent(n) => queue_after_all(pending, steps.drop_last()).take(n as int),
            _ => Seq::empty(),
        }
    }
}

/// At every step, no more is sent than there is to be sent.
pub open spec fn sends_what_there_is(pending: Seq<u8>, steps: Seq<LinkStep>) -> bool
    decreases steps.len(),
{
    steps.len() > 0 ==> {
        &&& sends_what_there_is(pending, steps.drop_last())
        &&& steps.last() matches LinkStep::Sent(n) ==> n <= queue_after_all(
            pending,
            steps.drop_last(),
        ).len()
    }
}

/// A frame is its length field and then its body.
pub proof fn frame_splits(packet: PacketView)
    ensures
        frame_bytes(packet).take(4) == be_bytes(length_field(packet), 4),
        frame_bytes(packet).skip(4) == body_bytes(packet),
{
    lemma_be_bytes_len(length_field(packet), 4);
    assert(frame_bytes(packet).take(4) =~= be_bytes(length_field(packet), 4));
    assert(frame_bytes(packet).skip(4) =~= body_bytes(packet));
}

/// The length field of a frame says how long the whole frame is. A packet with a number is left
/// out where a machine word is not four bytes long: its field always says nine.
pub proof fn length_field_counts_the_frame(packet: PacketView)
    requires
        field_bytes(packet).len() + 5 <= u32::MAX,
        is_numbered(packet) ==> word_bytes() == 4,
    ensures
        length_prefix(frame_bytes(packet)) == frame_bytes(packet).len(),
{
    frame_splits(packet);
    lemma_be_bytes_len(length_field(packet), 4);
    if is_numbered(packet) {
        lemma_be_bytes_len(number_of(packet) as nat, word_bytes());
    }
    assert(length_field(packet) == frame_bytes(packet).len());
    lemma_pow_256_4();
    lemma_be_round_trip(length_field(packet), 4);
}

/// What is read from the body of a frame is the packet that was framed. Left out are video
/// data of under three bytes and a disconnection of a version 4 address, which are not read
/// back, and packets with a number other than zero, of which only the four most significant
/// bytes are, on a machine with longer words.
pub proof fn body_reads_back(packet: PacketView)
    requires
        well_formed(packet),
        packet matches PacketView::Video(data) ==> data.len() >= 3,
        packet matches PacketView::Control(ControlPacketView::DisconnectIP(ip)) ==> ip is V6,
        is_numbered(packet) ==> word_bytes() == 4 || number_of(packet) == 0,
    ensures
        readable(body_bytes(packet)),
        read_body(body_bytes(packet)) == Some(packet),
{
    let body = body_bytes(packet);
    match packet {
        PacketView::Video(data) => {
            assert(body.skip(1) =~= data);
        },
        PacketView::Control(ControlPacketView::DisconnectIP(ip)) => {
            assert(body.skip(1) =~= field_bytes(packet));
            assert(body.skip(1).subrange(1, 17) =~= ip.octets());
        },
        _ => {
            number_reads_back(packet);
            lemma_upper_part(number_of(packet));
        },
    }
}

/// On a machine with words of four bytes the upper part is all; elsewhere it is the number
/// without its 32 low-order bits.
proof fn lemma_upper_part(number: usize)
    ensures
        word_bytes() == 4 || word_bytes() == 8,
        word_bytes() == 4 ==> upper_part(number) == number,
        word_bytes() == 8 ==> upper_part(number) == number as nat / 0x1_0000_0000,
        upper_part(number) == number as nat / (pow(256, (word_bytes() - 4) as nat) as nat),
        upper_part(number) < 0x1_0000_0000,
{
    lemma_pow_256_4();
    lemma_pow0(256);
    lemma_div_basics(number as int);
}

/// The bytes of a control packet can be read exactly where its address is of version 6, and
/// then they stand for that packet.
pub proof fn control_reads_back(packet: ControlPacketView)
    requires
        packet->DisconnectIP_0.well_formed(),
    ensures
        control_readable(control_bytes(packet)) <==> packet->DisconnectIP_0 is V6,
        packet->DisconnectIP_0 is V6 ==> read_control(control_bytes(packet)) == packet,
{
    let ip = packet->DisconnectIP_0;
    if ip is V6 {
        assert(control_bytes(packet).subrange(1, 17) =~= ip.octets());
    }
}

/// Of the number in a packet, the four most significant bytes are read back.
pub proof fn number_reads_back(packet: PacketView)
    requires
        is_numbered(packet),
    ensures
        readable(body_bytes(packet)),
        read_body(body_bytes(packet)) == Some(
            with_number(packet, upper_part(number_of(packet))),
        ),
{
    let body = body_bytes(packet);
    let number = number_of(packet);
    lemma_upper_part(number);
    lemma_be_bytes_len(number as nat, word_bytes());
    lemma_be_bytes_prefix(number as nat, word_bytes(), (word_bytes() - 4) as nat);
    assert(body.subrange(1, 5) =~= be_bytes(number as nat, word_bytes()).take(4));
    lemma_pow_256_4();
    lemma_be_round_trip(upper_part(number) as nat, 4);
}

/// The body of video data, and of a disconnection of just the right length, is the body of what
/// is read from it.
pub proof fn read_packet_has_its_body(body: Seq<u8>)
    requires
        body.len() >= 4,
        body[0] == 0x02 || (body[0] == 0x03 && body.len() == 18 && readable(body)),
    ensures
        read_body(body) is Some,
        body_bytes(read_body(body)->0) == body,
{
    let packet = read_body(body)->0;
    if body[0] == 0x03 {
        assert(body.skip(1)[0] == 0);
        assert(field_bytes(packet) =~= body.skip(1));
    }
    assert(body_bytes(packet) =~= body);
}

/// Video data of under three bytes is not read back: its body stands for no packet.
pub proof fn short_video_is_not_read(data: Seq<u8>)
    requires
        data.len() < 3,
    ensures
        read_body(body_bytes(PacketView::Video(data))) is None,
{
}

/// The disconnection of a version 4 address can be framed, but its body cannot be read.
pub proof fn disconnection_of_v4_is_not_readable(ip: IpAddrView)
    requires
        ip is V4,
        ip.well_formed(),
    ensures
        !readable(body_bytes(PacketView::Control(ControlPacketView::DisconnectIP(ip)))),
{
    let packet = PacketView::Control(ControlPacketView::DisconnectIP(ip));
    assert(body_bytes(packet).skip(1) =~= field_bytes(packet));
}

/// No two packets have the same frame.
pub proof fn frames_tell_packets_apart(first: PacketView, second: PacketView)
    requires
        well_formed(first),
        well_formed(second),
        frame_bytes(first) == frame_bytes(second),
    ensures
        first == second,
{
    frame_splits(first);
    frame_splits(second);
    let body = body_bytes(first);
    assert(body[0] == body_bytes(second)[0]);
    assert(body.skip(1) =~= field_bytes(first));
    assert(body.skip(1) =~= field_bytes(second));
    if is_numbered(first) {
        lemma_word_reads_back(number_of(first));
        lemma_word_reads_back(number_of(second));
    }
    if first is Control {
        assert(field_bytes(first).skip(1) =~= (first->Control_0)->DisconnectIP_0.octets());
        assert(field_bytes(second).skip(1) =~= (second->Control_0)->DisconnectIP_0.octets());
    }
}

/// All bytes of a machine word stand for the word.
proof fn lemma_word_reads_back(number: usize)
    ensures
        be_value(be_bytes(number as nat, word_bytes())) == number,
{
    lemma_pow_256_4();
    lemma_pow_adds(256, 4, 4);
    assert(0x1_0000_0000 * 0x1_0000_0000 == 0x1_0000_0000_0000_0000) by (nonlinear_arith);
    lemma_be_round_trip(number as nat, word_bytes());
}

/// No byte is lost or made up when bodies are cut off: put together again, the bodies and what
/// is left are the bytes received.
pub proof fn cutting_keeps_all_bytes(received: Seq<u8>, len: nat)
    ensures
        bodies(received, len).flatten() + leftover(received, len) == received,
    decreases received.len(),
{
    if len == 0 || !arrived(received, len) {
        assert(bodies(received, len) =~= Seq::empty());
        assert(bodies(received, len).flatten() =~= Seq::empty());
    } else {
        let rest = received.skip(len as int);
        cutting_keeps_all_bytes(rest, len);
        let all = bodies(received, len);
        assert(all.drop_first() =~= bodies(rest, len));
        assert(all.first() == received.take(len as int));
        assert(all.flatten() == all.first() + all.drop_first().flatten());
        assert(received =~= received.take(len as int) + rest);
    }
}

/// Of under four gibibytes received, as many bodies are cut off as there are, each as long as
/// it should be, and less than one body is left.
pub proof fn all_bodies_are_cut(received: Seq<u8>, len: nat)
    requires
        0 < len,
        received.len() < 0x1_0000_0000,
    ensures
        bodies(received, len).len() == received.len() / len,
        forall|i: int|
            0 <= i < bodies(received, len).len() ==> (#[trigger] bodies(received, len)[i]).len()
                == len,
        leftover(received, len).len() == received.len() % len,
    decreases received.len(),
{
    if arrived(received, len) {
        let rest = received.skip(len as int);
        all_bodies_are_cut(rest, len);
        assert(bodies(received, len).drop_first() =~= bodies(rest, len));
        assert forall|i: int| 0 <= i < bodies(received, len).len() implies (#[trigger] bodies(
            received,
            len,
        )[i]).len() == len by {
            if i > 0 {
                assert(bodies(received, len)[i] == bodies(rest, len)[i - 1]);
            }
        }
        lemma_div_plus_one(rest.len() as int, len as int);
        lemma_mod_add_multiples_vanish(rest.len() as int, len as int);
    } else {
        lemma_small_mod(received.len(), len);
        lemma_basic_div(received.len() as int, len as int);
    }
}

/// A link on which nothing is pending reads back the frame of video data or of a disconnection:
/// it yields what the packet leads to and nothing else, and is as before. Left out is what
/// `body_reads_back` leaves out, a frame longer than its length field can say, and every packet
/// with a number on a machine with longer words, whose frame is longer than its field says.
pub proof fn link_reads_back_a_frame(packet: PacketView)
    requires
        well_formed(packet),
        packet matches PacketView::Video(data) ==> data.len() >= 3,
        packet matches PacketView::Control(ControlPacketView::DisconnectIP(ip)) ==> ip is V6,
        is_numbered(packet) ==> word_bytes() == 4,
        field_bytes(packet).len() + 5 <= u32::MAX,
        field_bytes(packet).len() + 10 <= isize::MAX,
    ensures
        acceptable(frame_bytes(packet), None),
        read_events(frame_bytes(packet), None) == (match event_of(packet) {
            Some(event) => seq![event],
            None => Seq::empty(),
        }),
        read_rest(frame_bytes(packet), None) == Seq::<u8>::empty(),
        read_known(frame_bytes(packet), None) is None,
{
    let frame = frame_bytes(packet);
    let body = body_bytes(packet);
    frame_splits(packet);
    length_field_counts_the_frame(packet);
    body_reads_back(packet);
    lemma_be_bytes_len(length_field(packet), 4);
    let len = body.len();
    assert(frame.len() == len + 4);
    assert(after_prefix(frame, None) == body);
    assert(body_len(frame, None) == Some(len as u32));
    assert(body.take(len as int) =~= body);
    assert(body.skip(len as int) =~= Seq::empty());
    assert(!arrived(Seq::<u8>::empty(), len));
    assert(bodies(Seq::<u8>::empty(), len) =~= Seq::empty());
    assert(bodies(body, len) =~= seq![body]);
    assert(leftover(Seq::<u8>::empty(), len) =~= Seq::empty());
    assert(leftover(body, len) == leftover(body.skip(len as int), len));
    lemma_events_of_one(body);
    assert(seq![body][0] == body);
    assert(any_packet(seq![body]));
}

/// Where words are eight bytes long, a link on which nothing is pending reads a frame with a
/// number as one with the number's upper half, and the lower half stays in the buffer.
pub proof fn link_reads_half_a_number(packet: PacketView)
    requires
        is_numbered(packet),
        word_bytes() == 8,
    ensures
        acceptable(frame_bytes(packet), None),
        read_events(frame_bytes(packet), None) == (match event_of(
            with_number(packet, upper_part(number_of(packet))),
        ) {
            Some(event) => seq![event],
            None => Seq::empty(),
        }),
        read_rest(frame_bytes(packet), None) == be_bytes(number_of(packet) as nat, 8).skip(4),
        read_known(frame_bytes(packet), None) is None,
{
    let frame = frame_bytes(packet);
    let digits = be_bytes(number_of(packet) as nat, 8);
    let body = body_bytes(packet);
    let head = body.take(5);
    frame_splits(packet);
    number_reads_back(packet);
    lemma_be_bytes_len(number_of(packet) as nat, 8);
    lemma_be_bytes_len(9, 4);
    lemma_pow_256_4();
    lemma_be_round_trip(9, 4);
    assert(head.subrange(1, 5) =~= body.subrange(1, 5));
    assert(read_body(head) == read_body(body));
    let rest = body.skip(5);
    assert(rest =~= digits.skip(4));
    assert(bodies(rest, 5) =~= Seq::empty());
    assert(bodies(body, 5) =~= seq![head]);
    assert(leftover(rest, 5) == rest);
    assert(leftover(body, 5) == leftover(rest, 5));
    lemma_events_of_one(head);
    assert(seq![head][0] == head);
    assert(any_packet(seq![head]));
}

/// One body leads to what its packet leads to.
pub(crate) proof fn lemma_events_of_one(body: Seq<u8>)
    ensures
        events_of(seq![body]) == (match body_event(body) {
            Some(event) => seq![event],
            None => Seq::empty(),
        }),
{
    assert(seq![body].drop_last() =~= Seq::empty());
    assert(events_of(Seq::<Seq<u8>>::empty()) =~= Seq::empty());
    assert(forall|event: ServerEventView| #[trigger]
        Seq::empty().push(event) =~= seq![event]);
}

/// As long as no body has arrived, it makes no difference whether bytes come in one read or in
/// two: the first read yields nothing, and the second all that one read would have.
pub proof fn reads_can_be_split(first: Seq<u8>, second: Seq<u8>, known: Option<u32>)
    requires
        prefix_valid(first, known),
        body_len(first, known) matches Some(len) ==> !arrived(
            after_prefix(first, known),
            len as nat,
        ),
    ensures
        acceptable(first, known),
        read_events(first, known) == Seq::<ServerEventView>::empty(),
        acceptable(read_rest(first, known) + second, read_known(first, known)) == acceptable(
            first + second,
            known,
        ),
        read_events(read_rest(first, known) + second, read_known(first, known)) == read_events(
            first + second,
            known,
        ),
        read_rest(read_rest(first, known) + second, read_known(first, known)) == read_rest(
            first + second,
            known,
        ),
        read_known(read_rest(first, known) + second, read_known(first, known)) == read_known(
            first + second,
            known,
        ),
{
    match body_len(first, known) {
        None => {},
        Some(len) => {
            let rest = after_prefix(first, known);
            assert(bodies(rest, len as nat) =~= Seq::empty());
            assert(!any_packet(bodies(rest, len as nat)));
            assert(read_known(first, known) == Some(len));
            assert(read_rest(first, known) == rest);
            if known is None {
                assert((first + second).take(4) =~= first.take(4));
                assert((first + second).skip(4) =~= first.skip(4) + second);
            }
            assert(after_prefix(first + second, known) =~= rest + second);
            assert(body_len(first + second, known) == Some(len));
        },
    }
}

/// What a browser asks to be forwarded always names the browser's own address.
pub proof fn forwarded_address_is_the_browsers(received: Seq<u8>, len: u32, addr: IpAddrView)
    ensures
        step_of(received, len, addr) matches BrowserStepView::Forward(packet) ==> packet
            == PacketView::Control(ControlPacketView::DisconnectIP(addr)),
{
}

/// Of under four gibibytes received from a browser, a body is taken only if it is all that was
/// received.
pub proof fn a_request_is_all_that_was_received(received: Seq<u8>, len: u32)
    requires
        received.len() < 0x1_0000_0000,
        takes_body(received, len),
        step_possible(received, len),
    ensures
        received.len() == len,
        received.skip(len as int) == Seq::<u8>::empty(),
{
    assert(received.skip(len as int) =~= Seq::empty());
}

/// The disconnection of a version 6 address, sent in a frame by the server, closes the link to
/// the browser at that address and to no other.
pub proof fn disconnection_reaches_its_browser(ip: IpAddrView, addr: IpAddrView)
    requires
        ip is V6,
        ip.well_formed(),
    ensures
        ({
            let frame = frame_bytes(
                PacketView::Control(ControlPacketView::DisconnectIP(ip)),
            );
            &&& acceptable(frame, None)
            &&& read_events(frame, None).len() == 1
            &&& read_events(
                frame,
                None,
            )[0] matches ServerEventView::Disconnected(named, data) && named == ip
                && (closes_link(data, addr) <==> addr == ip)
        }),
{
    let packet = PacketView::Control(ControlPacketView::DisconnectIP(ip));
    lemma_be_bytes_len(length_field(packet), 4);
    link_reads_back_a_frame(packet);
}

/// Video data, sent in a frame by the server, is added as one binary message to what is to be
/// sent to each browser, and closes no link. Left out is what `link_reads_back_a_frame` leaves
/// out of video data.
pub proof fn video_reaches_the_browsers(data: Seq<u8>, pending: Seq<u8>, addr: IpAddrView)
    requires
        data.len() >= 3,
        data.len() + 5 <= u32::MAX,
        data.len() + 10 <= isize::MAX,
    ensures
        ({
            let frame = frame_bytes(PacketView::Video(data));
            &&& acceptable(frame, None)
            &&& read_events(frame, None).len() == 1
            &&& read_events(frame, None)[0] matches ServerEventView::Video(len, message) && len
                == data.len() && queue_after(pending, LinkStep::Broadcast(message)) == pending
                + binary_frame(data) && !closes_link(message, addr)
        }),
{
    link_reads_back_a_frame(PacketView::Video(data));
}

/// Whatever is done on a browser's link, in any order: what was sent, and then what is still to
/// be sent, is what was pending and then the bytes of the broadcasts, in order and unaltered. So
/// what the browser got at any moment is a prefix of that.
pub proof fn browsers_get_the_bytes_in_order(pending: Seq<u8>, steps: Seq<LinkStep>)
    requires
        sends_what_there_is(pending, steps),
    ensures
        sent_in_all(pending, steps) + queue_after_all(pending, steps) == pending + broadcast_bytes(
            steps,
        ),
        sent_in_all(pending, steps).is_prefix_of(pending + broadcast_bytes(steps)),
    decreases steps.len(),
{
    if steps.len() > 0 {
        let before = steps.drop_last();
        browsers_get_the_bytes_in_order(pending, before);
        let sent = sent_in_all(pending, before);
        let queue = queue_after_all(pending, before);
        match steps.last() {
            LinkStep::Sent(n) => {
                assert(sent + queue.take(n as int) + queue.skip(n as int) =~= sent + queue);
            },
            LinkStep::Broadcast(data) => {
                assert(sent + (queue + payload(data)) =~= (sent + queue) + payload(data));
            },
            _ => {},
        }
    }
    assert(sent_in_all(pending, steps) + queue_after_all(pending, steps) =~= pending
        + broadcast_bytes(steps));
    let sent = sent_in_all(pending, steps);
    assert((sent + queue_after_all(pending, steps)).subrange(0, sent.len() as int) =~= sent);
}

/// As long as nothing is sent, what is to be sent is what was pending and then the bytes of the
/// broadcasts, in order. What the browser sends makes no difference.
pub proof fn broadcasts_are_queued_in_order(pending: Seq<u8>, steps: Seq<LinkStep>)
    requires
        forall|i: int| 0 <= i < steps.len() ==> steps[i] !is Sent,
    ensures
        queue_after_all(pending, steps) == pending + broadcast_bytes(steps),
    decreases steps.len(),
{
    if steps.len() > 0 {
        assert(steps.last() == steps[steps.len() - 1]);
        broadcasts_are_queued_in_order(pending, steps.drop_last());
    }
    assert(queue_after_all(pending, steps) =~= pending + broadcast_bytes(steps));
}

/// No two payloads have the same frame.
pub proof fn frames_tell_payloads_apart(first: Seq<u8>, second: Seq<u8>)
    requires
        binary_frame(first) == binary_frame(second),
    ensures
        first == second,
{
    lemma_be_bytes_len(first.len(), 2);
    lemma_be_bytes_len(first.len(), 8);
    lemma_be_bytes_len(second.len(), 2);
    lemma_be_bytes_len(second.len(), 8);
    let header = 1 + payload_length_bytes(first.len()).len();
    let other = 1 + payload_length_bytes(second.len()).len();
    assert(binary_frame(first).len() == header + first.len());
    assert(binary_frame(second).len() == other + second.len());
    assert(first.len() == second.len());
    assert(first =~= binary_frame(first).skip(header as int));
    assert(second =~= binary_frame(second).skip(header as int));
}

/// Once the end of a head has come, bytes around it do not undo it.
pub proof fn head_stays(before: Seq<u8>, received: Seq<u8>, more: Seq<u8>)
    requires
        has_head(received),
    ensures
        has_head(before + received + more),
{
    let i = choose|i: int| 0 <= i <= received.len() - 4 && head_ends_at(received, i);
    assert(head_ends_at(before + received + more, before.len() + i));
}

/// A method once recognised stays so, whatever follows.
pub proof fn detection_is_settled(received: Seq<u8>, more: Seq<u8>)
    requires
        detect(received) is Found,
    ensures
        detect(received + more) == detect(received),
        without_blank(received + more) == without_blank(received) + more,
{
    head_stays(Seq::empty(), received, more);
    assert(Seq::<u8>::empty() + received + more =~= received + more);
    assert(without_blank(received + more) =~= without_blank(received) + more);
    let request = without_blank(received);
    lemma_starts_with_settled(request, more, "GET "@);
    lemma_starts_with_settled(request, more, "POST "@);
    lemma_starts_with_settled(request, more, "PUT "@);
    lemma_starts_with_settled(request, more, "CONNECT "@);
    lemma_starts_with_settled(request, more, "OPTIONS "@);
    lemma_method_lengths();
}

/// An empty line before a request is ignored: it leaves the buffer, and all goes on as if it had
/// not come. Of two empty lines, one read drops only the first.
pub proof fn a_blank_start_is_ignored(hs: HandshakeView, n: nat)
    requires
        hs.phase == PhaseView::Reading,
        n > 0,
        has_head(hs.received),
        !starts_blank(hs.received),
    ensures
        detect(seq![13u8, 10u8] + hs.received) == detect(hs.received),
        without_blank(seq![13u8, 10u8] + hs.received) == hs.received,
        step(
            (HandshakeView { received: seq![13u8, 10u8] + hs.received, ..hs }),
            EventView::Read(n),
        ) == step(hs, EventView::Read(n)),
{
    let received = seq![13u8, 10u8] + hs.received;
    head_stays(seq![13u8, 10u8], hs.received, Seq::empty());
    assert(received + Seq::<u8>::empty() =~= received);
    assert(received.skip(2) =~= hs.received);
}

/// No method that is looked for is longer than eight bytes.
proof fn lemma_method_lengths()
    ensures
        encode_utf8("GET "@).len() <= 8,
        encode_utf8("POST "@).len() <= 8,
        encode_utf8("PUT "@).len() <= 8,
        encode_utf8("CONNECT "@).len() <= 8,
        encode_utf8("OPTIONS "@).len() <= 8,
{
    reveal_strlit("GET ");
    reveal_strlit("POST ");
    reveal_strlit("PUT ");
    reveal_strlit("CONNECT ");
    reveal_strlit("OPTIONS ");
    is_ascii_chars_encode_utf8("GET "@);
    is_ascii_chars_encode_utf8("POST "@);
    is_ascii_chars_encode_utf8("PUT "@);
    is_ascii_chars_encode_utf8("CONNECT "@);
    is_ascii_chars_encode_utf8("OPTIONS "@);
}

/// Bytes that are long enough start with a text whatever follows them.
proof fn lemma_starts_with_settled(received: Seq<u8>, more: Seq<u8>, text: Seq<char>)
    ensures
        encode_utf8(text).len() <= received.len() ==> starts_with(received + more, text)
            == starts_with(received, text),
{
    let wanted = encode_utf8(text);
    if wanted.len() <= received.len() {
        assert((received + more).subrange(0, wanted.len() as int) =~= received.subrange(
            0,
            wanted.len() as int,
        ));
    }
}

/// After each action the handshake waits for the events that the action can lead to.
pub proof fn actions_are_awaited(hs: HandshakeView, event: EventView)
    requires
        awaits(hs.phase, event),
    ensures
        ({
            let (next, action) = step(hs, event);
            match action {
                ActionView::Read => next.phase == PhaseView::Reading,
                ActionView::Write(_) => next.phase is Sending,
                ActionView::Done(_) => next.phase == PhaseView::Idle,
            }
        }),
{
}

/// What the connection is gets known only at the good end of a handshake, and every good end
/// makes it known.
pub proof fn result_comes_with_a_good_end(hs: HandshakeView, event: EventView)
    requires
        awaits(hs.phase, event),
    ensures
        ({
            let (next, action) = step(hs, event);
            if action == ActionView::Done(Ok(())) {
                next.hs_result is Some
            } else {
                next.hs_result == hs.hs_result
            }
        }),
{
}

/// Requests are answered alike whatever their method, `OPTIONS` aside.
pub proof fn methods_are_answered_alike(
    hs: HandshakeView,
    first: PrimaryProtocol,
    second: PrimaryProtocol,
    upgrade: Option<(Option<IpAddrView>, Seq<u8>)>,
)
    requires
        first != PrimaryProtocol::HttpOptions,
        second != PrimaryProtocol::HttpOptions,
    ensures
        answer(hs, first, upgrade) == answer(hs, second, upgrade),
{
}

/// A request that is neither an upgrade nor an `OPTIONS` request is refused and the connection
/// closed, whether or not the refusal can be written.
pub proof fn other_requests_are_refused(
    hs: HandshakeView,
    primary: PrimaryProtocol,
    n: nat,
    reason: Seq<char>,
)
    requires
        hs.phase == PhaseView::Reading,
        n > 0,
        detect(hs.received) == Detection::Found(primary),
        primary != PrimaryProtocol::HttpOptions,
        upgrade_request(without_blank(hs.received)) is None,
    ensures
        ({
            let (asked, action) = step(hs, EventView::Read(n));
            let (written, done) = step(asked, EventView::Written);
            let (failed, done_failed) = step(asked, EventView::Failed(reason));
            &&& action == ActionView::Write(refusal_answer(hs.version))
            &&& done == ActionView::Done(Ok(()))
            &&& done_failed == done
            &&& written == (HandshakeView {
                received: without_blank(hs.received),
                ip_header: hs.ip_header,
                hs_result: Some(HandshakeRes::Close),
                version: hs.version,
                phase: PhaseView::Idle,
            })
            &&& failed == written
        }),
{
}

/// An `OPTIONS` request is told what is allowed, whatever else it holds, and the connection
/// closed, whether or not the answer can be written.
pub proof fn options_are_answered(hs: HandshakeView, n: nat, reason: Seq<char>)
    requires
        hs.phase == PhaseView::Reading,
        n > 0,
        detect(hs.received) == Detection::Found(PrimaryProtocol::HttpOptions),
    ensures
        ({
            let (asked, action) = step(hs, EventView::Read(n));
            let (written, done) = step(asked, EventView::Written);
            let (failed, done_failed) = step(asked, EventView::Failed(reason));
            &&& action == ActionView::Write(
                "HTTP/1.1 204 No Content\r\nAllow: GET\r\nCache-Control: max-age=604800\r\nAccess-Control-Allow-Origin: *\r\nAccess-Control-Allow-Methods: GET\r\nAccess-Control-Max-Age: 86400\r\nContent-Length: 0\r\nConnection: close\r\n\r\n"@,
            )
            &&& done == ActionView::Done(Ok(()))
            &&& done_failed == done
            &&& written == (HandshakeView {
                received: without_blank(hs.received),
                ip_header: hs.ip_header,
                hs_result: Some(HandshakeRes::Close),
                version: hs.version,
                phase: PhaseView::Idle,
            })
            &&& failed == written
        }),
{
}

/// An upgrade is accepted with the value for its key, with any other method than `OPTIONS`. A
/// forwarded address is remembered. The connection is a WebSocket once the answer is written; if
/// it cannot be, the handshake fails and nothing is known.
pub proof fn upgrades_are_accepted(
    hs: HandshakeView,
    primary: PrimaryProtocol,
    n: nat,
    ip: Option<IpAddrView>,
    key: Seq<u8>,
    reason: Seq<char>,
)
    requires
        hs.phase == PhaseView::Reading,
        n > 0,
        detect(hs.received) == Detection::Found(primary),
        primary != PrimaryProtocol::HttpOptions,
        upgrade_request(without_blank(hs.received)) == Some((ip, key)),
    ensures
        ({
            let (asked, action) = step(hs, EventView::Read(n));
            let (written, done) = step(asked, EventView::Written);
            let (failed, done_failed) = step(asked, EventView::Failed(reason));
            &&& action == ActionView::Write(upgrade_answer(key))
            &&& asked.ip_header == ip
            &&& done == ActionView::Done(Ok(()))
            &&& written == (HandshakeView {
                received: without_blank(hs.received),
                ip_header: ip,
                hs_result: Some(HandshakeRes::Ws),
                version: hs.version,
                phase: PhaseView::Idle,
            })
            &&& done_failed == ActionView::Done(Err("ws handshake 전송오류 "@ + reason))
            &&& failed == (HandshakeView { hs_result: hs.hs_result, ..written })
        }),
{
}

/// The forwarded address that an upgrade leaves is the one that the text of the last forwarded
/// address among the fields stands for, and none where there is no such text or it stands for
/// none.
pub proof fn forwarded_address_is_what_the_text_names(
    head: Seq<u8>,
    fields: Seq<(Seq<char>, Seq<u8>)>,
)
    requires
        2 < line_feeds(head) < 100,
        request_fields(head, line_feeds(head)) == Some(fields),
        upgrade_request(head) is Some,
    ensures
        (upgrade_request(head)->0).0 == (match last_proxy(considered(fields)) {
            Some(text) => address_named(text),
            None => None,
        }),
{
}

} // verus!
