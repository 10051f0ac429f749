//! The links to the server and to a browser: what each run of bytes leads to.

use crate::addr::IpAddrView;
use crate::be::lemma_be_value_4;
use crate::browser::{
    closes_link, payload, queue_after, step_of, step_possible, takes_body, BrowserStep,
    BrowserStepView, LinkStep,
};
use crate::buffers::contents;
use crate::laws::wire::{bytes_of_a_frame, packet_of_a_body};
use crate::laws::{frame_splits, lemma_events_of_one};
use crate::packer::{body_bytes, frame_bytes, read_body, readable};
use crate::packer::{ControlPacketView, PacketView};
use crate::relay::{after_prefix, body_len, prefix_valid, BroadcastData, BroadcastView};
use crate::server::{
    acceptable, any_packet, arrived, bodies, body_event, body_takable, event_of, event_views,
    events_of, leftover, read_events, read_known, read_rest, ServerEvent, ServerEventView,
};
use crate::websocket::binary_frame;
use vstd::prelude::*;

verus! {

/// What each packet from the server leads to.
pub proof fn what_a_packet_leads_to(number: usize, data: Seq<u8>, ip: IpAddrView)
    ensures
        event_of(PacketView::Handshake(number)) is None,
        event_of(PacketView::HandshakeResponse(number)) == Some(
            ServerEventView::Connected(number),
        ),
        event_of(PacketView::Video(data)) == Some(
            ServerEventView::Video(data.len(), BroadcastView::Bytes(binary_frame(data))),
        ),
        event_of(PacketView::Control(ControlPacketView::DisconnectIP(ip))) == Some(
            ServerEventView::Disconnected(
                ip,
                BroadcastView::Packet(PacketView::Control(ControlPacketView::DisconnectIP(ip))),
            ),
        ),
{
}

/// What a body from the server leads to, byte by byte.
pub proof fn what_a_body_leads_to(body: Seq<u8>)
    ensures
        body.len() < 4 || body[0] > 3 || body[0] == 0 ==> body_event(body) is None,
        body.len() >= 5 && body[0] == 1 ==> body_event(body) == Some(
            ServerEventView::Connected(
                (body[1] * 0x100_0000 + body[2] * 0x1_0000 + body[3] * 0x100 + body[4]) as usize,
            ),
        ),
        body.len() >= 4 && body[0] == 2 ==> body_event(body) == Some(
            ServerEventView::Video(
                (body.len() - 1) as nat,
                BroadcastView::Bytes(binary_frame(body.skip(1))),
            ),
        ),
        body.len() >= 18 && body[0] == 3 && body[1] == 0 ==> {
            let ip = IpAddrView::V6(body.subrange(2, 18));
            body_event(body) == Some(
                ServerEventView::Disconnected(
                    ip,
                    BroadcastView::Packet(
                        PacketView::Control(ControlPacketView::DisconnectIP(ip)),
                    ),
                ),
            )
        },
{
    packet_of_a_body(body);
}

/// What bodies lead to is what the earlier ones lead to and then what the later ones lead to. So
/// each body that leads to something adds just that, whatever the others are.
pub proof fn events_add_up(earlier: Seq<Seq<u8>>, later: Seq<Seq<u8>>)
    ensures
        events_of(earlier + later) == events_of(earlier) + events_of(later),
    decreases later.len(),
{
    if later.len() == 0 {
        assert(earlier + later =~= earlier);
        assert(events_of(later) =~= Seq::empty());
    } else {
        events_add_up(earlier, later.drop_last());
        assert((earlier + later).drop_last() =~= earlier + later.drop_last());
        assert((earlier + later).last() == later.last());
    }
    assert(events_of(earlier + later) =~= events_of(earlier) + events_of(later));
}

/// One body leads to its own event and to nothing else.
pub proof fn events_of_one_body(body: Seq<u8>)
    ensures
        body_event(body) matches Some(event) ==> events_of(seq![body]) == seq![event],
        body_event(body) is None ==> events_of(seq![body]) == Seq::<ServerEventView>::empty(),
{
    lemma_events_of_one(body);
}

/// Where a body has arrived in full, it is read before the rest, and the rest is read as if it
/// had come alone; but the length is forgotten once any body was a packet. Of the number of
/// bytes received, 32 bits are looked at.
pub proof fn a_body_is_read_before_the_rest(body: Seq<u8>, rest: Seq<u8>, len: u32)
    requires
        0 < len,
        body.len() == len,
        (body.len() + rest.len()) % 0x1_0000_0000 >= len,
    ensures
        body_event(body) matches Some(event) ==> read_events(body + rest, Some(len)) == seq![event]
            + read_events(rest, Some(len)),
        body_event(body) is None ==> read_events(body + rest, Some(len)) == read_events(
            rest,
            Some(len),
        ),
        read_rest(body + rest, Some(len)) == read_rest(rest, Some(len)),
        read_body(body) is Some ==> read_known(body + rest, Some(len)) is None,
        read_body(body) is None ==> read_known(body + rest, Some(len)) == read_known(
            rest,
            Some(len),
        ),
        acceptable(body + rest, Some(len)) <==> len + 9 <= isize::MAX && readable(body)
            && acceptable(rest, Some(len)),
{
    let received = body + rest;
    let n = len as nat;
    assert(received.take(len as int) =~= body);
    assert(received.skip(len as int) =~= rest);
    assert(bodies(received, n) == seq![body] + bodies(rest, n));
    events_add_up(seq![body], bodies(rest, n));
    events_of_one_body(body);
    assert(Seq::<ServerEventView>::empty() + events_of(bodies(rest, n)) =~= events_of(
        bodies(rest, n),
    ));
    let all = bodies(received, n);
    assert(all[0] == body);
    assert(forall|i: int| 0 <= i < bodies(rest, n).len() ==> bodies(rest, n)[i] == all[i + 1]);
    assert(forall|i: int| 0 < i < all.len() ==> all[i] == bodies(rest, n)[i - 1]);
    if any_packet(bodies(rest, n)) {
        let i = choose|i: int|
            0 <= i < bodies(rest, n).len() && read_body(#[trigger] bodies(rest, n)[i]) is Some;
        assert(read_body(all[i + 1]) is Some);
    }
    if any_packet(all) && read_body(body) is None {
        let i = choose|i: int| 0 <= i < all.len() && read_body(#[trigger] all[i]) is Some;
        assert(read_body(bodies(rest, n)[i - 1]) is Some);
    }
    if len + 9 <= isize::MAX && readable(body) && acceptable(rest, Some(len)) {
        assert forall|i: int| 0 <= i < all.len() implies readable(#[trigger] all[i]) by {
            if i > 0 {
                assert(arrived(rest, n));
                assert(readable(bodies(rest, n)[i - 1]));
            }
        }
    }
    if acceptable(received, Some(len)) {
        assert(readable(all[0]));
        assert forall|i: int| 0 <= i < bodies(rest, n).len() implies readable(
            #[trigger] bodies(rest, n)[i],
        ) by {
            assert(readable(all[i + 1]));
        }
    }
}

/// As long as the body has not arrived in full, nothing is read and the length stays known.
pub proof fn a_part_of_a_body_waits(received: Seq<u8>, len: u32)
    requires
        received.len() % 0x1_0000_0000 < len,
    ensures
        acceptable(received, Some(len)),
        read_events(received, Some(len)) == Seq::<ServerEventView>::empty(),
        read_rest(received, Some(len)) == received,
        read_known(received, Some(len)) == Some(len),
{
    assert(bodies(received, len as nat) =~= Seq::empty());
    assert(!any_packet(bodies(received, len as nat)));
}

/// Reading bodies of no length would never end, and is not accepted.
pub proof fn an_empty_body_is_not_accepted(received: Seq<u8>)
    ensures
        !acceptable(received, Some(0)),
{
}

/// Where no length is known, the first four bytes are read as one, and what follows them as if
/// that length less four had been known.
pub proof fn the_length_comes_first(a: u8, b: u8, c: u8, d: u8, rest: Seq<u8>)
    ensures
        ({
            let n = a * 0x100_0000 + b * 0x1_0000 + c * 0x100 + d;
            let received = seq![a, b, c, d] + rest;
            &&& n < 4 ==> !acceptable(received, None) && !prefix_valid(received, None)
            &&& n >= 4 ==> {
                let len = (n - 4) as u32;
                &&& prefix_valid(received, None)
                &&& body_len(received, None) == Some(len)
                &&& after_prefix(received, None) == rest
                &&& acceptable(received, None) == acceptable(rest, Some(len))
                &&& read_events(received, None) == read_events(rest, Some(len))
                &&& read_rest(received, None) == read_rest(rest, Some(len))
                &&& read_known(received, None) == read_known(rest, Some(len))
            }
        }),
{
    let received = seq![a, b, c, d] + rest;
    assert(received.take(4) =~= seq![a, b, c, d]);
    lemma_be_value_4(received.take(4));
    assert(received.skip(4) =~= rest);
}

/// Fewer than four bytes are kept until more come, where no length is known; and where one is,
/// no length field is looked for.
pub proof fn a_length_is_waited_for_and_kept(few: Seq<u8>, received: Seq<u8>, len: u32)
    requires
        few.len() < 4,
    ensures
        acceptable(few, None),
        prefix_valid(few, None),
        body_len(few, None) is None,
        after_prefix(few, None) == few,
        read_events(few, None) == Seq::<ServerEventView>::empty(),
        read_rest(few, None) == few,
        read_known(few, None) is None,
        prefix_valid(received, Some(len)),
        body_len(received, Some(len)) == Some(len),
        after_prefix(received, Some(len)) == received,
{
}

/// A body can be taken by itself exactly where it has arrived, a message with it fits in a
/// buffer, and it can be read.
pub proof fn when_a_body_can_be_taken(body: Seq<u8>, rest: Seq<u8>, len: u32)
    requires
        body.len() == len,
    ensures
        body_takable(body + rest, len) <==> (body.len() + rest.len()) % 0x1_0000_0000 >= len && len
            + 9 <= isize::MAX && readable(body),
{
    assert((body + rest).take(len as int) =~= body);
}

/// However many bytes were received: bodies are cut off, each as long as it should be and each
/// where enough is left, until not enough is left.
pub proof fn where_cutting_stops(received: Seq<u8>, len: nat)
    requires
        0 < len,
    ensures
        leftover(received, len).len() % 0x1_0000_0000 < len,
        leftover(received, len).len() == received.len() - bodies(received, len).len() * len,
        forall|i: int|
            0 <= i < bodies(received, len).len() ==> {
                &&& (#[trigger] bodies(received, len)[i]).len() == len
                &&& (received.len() - i * len) % 0x1_0000_0000 >= len
                &&& i * len + len <= received.len()
                &&& bodies(received, len)[i] == received.subrange(i * len, i * len + len)
            },
    decreases received.len(),
{
    if arrived(received, len) {
        let rest = received.skip(len as int);
        let all = bodies(received, len);
        where_cutting_stops(rest, len);
        assert(all == seq![received.take(len as int)] + bodies(rest, len));
        let count = bodies(rest, len).len();
        assert((count + 1) * len == count * len + len) by (nonlinear_arith);
        assert forall|i: int| 0 <= i < all.len() implies {
            &&& (#[trigger] all[i]).len() == len
            &&& (received.len() - i * len) % 0x1_0000_0000 >= len
            &&& i * len + len <= received.len()
            &&& all[i] == received.subrange(i * len, i * len + len)
        } by {
            if i == 0 {
                assert(0 * len == 0);
                assert(all[0] =~= received.subrange(0, len as int));
            } else {
                let j = i - 1;
                assert(i * len == j * len + len) by (nonlinear_arith)
                    requires
                        i == j + 1,
                ;
                assert(all[i] == bodies(rest, len)[j]);
                assert(j * len >= 0) by (nonlinear_arith)
                    requires
                        j >= 0,
                ;
                assert(rest.subrange(j * len, j * len + len) =~= received.subrange(
                    i * len,
                    i * len + len,
                ));
            }
        }
    } else {
        assert(bodies(received, len) =~= Seq::empty());
        assert(0 * len == 0);
    }
}

/// A list of events shows each event, in its place, and all that the event holds.
pub proof fn events_look_like_what_they_are(events: Seq<ServerEvent>, i: int)
    requires
        0 <= i < events.len(),
    ensures
        event_views(events).len() == events.len(),
        match (events[i], event_views(events)[i]) {
            (ServerEvent::Connected(a), ServerEventView::Connected(b)) => a == b,
            (ServerEvent::Video(a, data), ServerEventView::Video(b, shown)) => a == b && data@
                == shown,
            (ServerEvent::Disconnected(ip, data), ServerEventView::Disconnected(named, shown)) =>
                ip@ == named && data@ == shown,
            _ => false,
        },
{
}

/// A broadcast, and what became of a browser's bytes, show all that they hold.
pub proof fn broadcasts_and_steps_look_like_what_they_are(data: BroadcastData, step: BrowserStep)
    ensures
        match (data, data@) {
            (BroadcastData::Bytes(bytes), BroadcastView::Bytes(shown)) => contents(bytes) == shown,
            (BroadcastData::Packet(packet), BroadcastView::Packet(shown)) => packet@ == shown,
            _ => false,
        },
        match (step, step@) {
            (BrowserStep::Wait, BrowserStepView::Wait) => true,
            (BrowserStep::TooLarge(a), BrowserStepView::TooLarge(b)) => a == b,
            (BrowserStep::Forward(packet), BrowserStepView::Forward(shown)) => packet@ == shown,
            (BrowserStep::Skip, BrowserStepView::Skip) => true,
            _ => false,
        },
{
}

/// What becomes of a browser's bytes, byte by byte. Nothing is read while there is more than one
/// body, of which number 32 bits are looked at, or where the body is over 1024 bytes. A request
/// to disconnect, whatever address it names, is forwarded with the browser's own, of either
/// version; any other body is skipped.
pub proof fn what_a_browser_asks_for(received: Seq<u8>, len: u32, addr: IpAddrView)
    ensures
        received.len() % 0x1_0000_0000 > len ==> step_of(received, len, addr)
            == BrowserStepView::Wait,
        received.len() % 0x1_0000_0000 <= len && len > 1024 ==> step_of(received, len, addr)
            == BrowserStepView::TooLarge(len),
        received.len() % 0x1_0000_0000 <= len <= 1024 && len <= received.len() ==> {
            &&& len >= 18 && received[0] == 3 && received[1] == 0 ==> step_of(received, len, addr)
                == BrowserStepView::Forward(
                PacketView::Control(ControlPacketView::DisconnectIP(addr)),
            )
            &&& len < 4 || received[0] != 3 ==> step_of(received, len, addr)
                == BrowserStepView::Skip
        },
        takes_body(received, len) <==> received.len() % 0x1_0000_0000 <= len <= 1024,
        step_possible(received, len) <==> received.len() % 0x1_0000_0000 > len || len > 1024 || (
        len <= received.len() && readable(received.take(len as int))),
{
    if len <= received.len() {
        let body = received.take(len as int);
        packet_of_a_body(body);
    }
}

/// Whether a browser's request is forwarded does not depend on the browser's address.
pub proof fn browsers_are_served_alike(
    received: Seq<u8>,
    len: u32,
    first: IpAddrView,
    second: IpAddrView,
)
    ensures
        step_of(received, len, first) is Forward <==> step_of(received, len, second) is Forward,
        step_of(received, len, first) !is Forward ==> step_of(received, len, first) == step_of(
            received,
            len,
            second,
        ),
{
}

/// The frame of a disconnection of any version 6 address, sent by a browser at any address, is
/// read as one body, and the browser's own address is forwarded.
pub proof fn a_request_to_disconnect_is_forwarded(ip: IpAddrView, addr: IpAddrView)
    requires
        ip is V6,
        ip.octets().len() == 16,
    ensures
        ({
            let packet = PacketView::Control(ControlPacketView::DisconnectIP(ip));
            let frame = frame_bytes(packet);
            let body = body_bytes(packet);
            &&& prefix_valid(frame, None)
            &&& body_len(frame, None) == Some(18u32)
            &&& after_prefix(frame, None) == body
            &&& step_possible(body, 18)
            &&& takes_body(body, 18)
            &&& step_of(body, 18, addr) == BrowserStepView::Forward(
                PacketView::Control(ControlPacketView::DisconnectIP(addr)),
            )
        }),
{
    let packet = PacketView::Control(ControlPacketView::DisconnectIP(ip));
    let frame = frame_bytes(packet);
    let body = body_bytes(packet);
    bytes_of_a_frame(packet);
    frame_splits(packet);
    the_length_comes_first(frame[0], frame[1], frame[2], frame[3], body);
    assert(frame =~= seq![frame[0], frame[1], frame[2], frame[3]] + body);
    assert(body[0] == frame[4] && body[1] == frame[5]);
    what_a_browser_asks_for(body, 18, addr);
    assert(body.take(18) =~= body);
    packet_of_a_body(body);
}

/// Of all broadcasts, only the disconnection of a browser's own address closes its link, whatever
/// the version of the address.
pub proof fn what_closes_a_link(
    bytes: Seq<u8>,
    number: usize,
    ip: IpAddrView,
    addr: IpAddrView,
)
    ensures
        !closes_link(BroadcastView::Bytes(bytes), addr),
        !closes_link(BroadcastView::Packet(PacketView::Handshake(number)), addr),
        !closes_link(BroadcastView::Packet(PacketView::HandshakeResponse(number)), addr),
        !closes_link(BroadcastView::Packet(PacketView::Video(bytes)), addr),
        closes_link(
            BroadcastView::Packet(PacketView::Control(ControlPacketView::DisconnectIP(ip))),
            addr,
        ) <==> ip == addr,
{
}

/// What each step leaves to be sent.
pub proof fn what_is_left_to_be_sent(
    queue: Seq<u8>,
    bytes: Seq<u8>,
    packet: PacketView,
    n: nat,
    len: u32,
)
    requires
        n <= queue.len(),
    ensures
        payload(BroadcastView::Bytes(bytes)) == bytes,
        queue_after(queue, LinkStep::Broadcast(BroadcastView::Bytes(bytes))) == queue + bytes,
        queue_after(queue, LinkStep::Broadcast(BroadcastView::Packet(packet))) == queue,
        queue.take(n as int) + queue_after(queue, LinkStep::Sent(n)) == queue,
        queue_after(queue, LinkStep::Read) == queue,
        queue_after(queue, LinkStep::Request(len)) == queue,
{
    assert(queue + Seq::<u8>::empty() =~= queue);
    assert(queue.take(n as int) + queue.skip(n as int) =~= queue);
}

} // verus!
