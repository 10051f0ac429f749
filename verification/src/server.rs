//! The link to the server.

use crate::addr::{IpAddr, IpAddrView};
use crate::be::{be_u32, low_u32};
use crate::buffers::buffered;
use crate::packer::{read_body, readable, ControlPacket, ControlPacketView, Packer, Packet, PacketView};
use crate::relay::{
    after_prefix, body_len, next_len, prefix_is_valid, prefix_valid, BroadcastData, BroadcastView,
};
use crate::websocket::{binary_frame, binary_message};
use bytes::BytesMut;
use vstd::prelude::*;
use vstd::slice::slice_subrange;

verus! {

/// What a packet from the server leads to.
#[derive(Debug)]
pub enum ServerEvent {
    /// The server took the worker in, under this number.
    Connected(usize),
    /// Video data of this length came, and goes to every browser.
    Video(usize, BroadcastData),
    /// The viewer at this address is to go, and every browser's link is told.
    Disconnected(IpAddr, BroadcastData),
}

/// What an event says.
#[verifier::ext_equal]
pub enum ServerEventView {
    Connected(usize),
    Video(nat, BroadcastView),
    Disconnected(IpAddrView, BroadcastView),
}

impl View for ServerEvent {
    type V = ServerEventView;

    open spec fn view(&self) -> ServerEventView {
        match self {
            ServerEvent::Connected(worker_id) => ServerEventView::Connected(*worker_id),
            ServerEvent::Video(len, data) => ServerEventView::Video(*len as nat, data@),
            ServerEvent::Disconnected(ip, data) => ServerEventView::Disconnected(ip@, data@),
        }
    }
}

/// What the events of a list say.
pub open spec fn event_views(events: Seq<ServerEvent>) -> Seq<ServerEventView> {
    Seq::new(events.len(), |i: int| events[i]@)
}

/// What a packet from the server leads to. A greeting leads to nothing.
pub open spec fn event_of(packet: PacketView) -> Option<ServerEventView> {
    match packet {
        PacketView::Handshake(_) => None,
        PacketView::HandshakeResponse(worker_id) => Some(ServerEventView::Connected(worker_id)),
        PacketView::Video(data) => Some(
            ServerEventView::Video(data.len(), BroadcastView::Bytes(binary_frame(data))),
        ),
        PacketView::Control(ControlPacketView::DisconnectIP(ip)) => Some(
            ServerEventView::Disconnected(ip, BroadcastView::Packet(packet)),
        ),
    }
}

/// A body of `len` bytes has arrived. Of the number of bytes received, 32 bits are looked at.
pub open spec fn arrived(received: Seq<u8>, len: nat) -> bool {
    received.len() % 0x1_0000_0000 >= len
}

/// The bodies of `len` bytes that are cut off the received bytes, one after another.
pub open spec fn bodies(received: Seq<u8>, len: nat) -> Seq<Seq<u8>>
    decreases received.len(),
{
    if len == 0 || !arrived(received, len) {
        Seq::empty()
    } else {
        seq![received.take(len as int)] + bodies(received.skip(len as int), len)
    }
}

/// What is left of the received bytes when `bodies` is cut off.
pub open spec fn leftover(received: Seq<u8>, len: nat) -> Seq<u8>
    decreases received.len(),
{
    if len == 0 || !arrived(received, len) {
        received
    } else {
        leftover(received.skip(len as int), len)
    }
}

/// What a body leads to.
pub open spec fn body_event(body: Seq<u8>) -> Option<ServerEventView> {
    match read_body(body) {
        Some(packet) => event_of(packet),
        None => None,
    }
}

/// What bodies lead to, in their order.
pub open spec fn events_of(list: Seq<Seq<u8>>) -> Seq<ServerEventView>
    decreases list.len(),
{
    if list.len() == 0 {
        Seq::empty()
    } else {
        let earlier = events_of(list.drop_last());
        match body_event(list.last()) {
            Some(event) => earlier.push(event),
            None => earlier,
        }
    }
}

/// The next body of `len` bytes can be taken off the received bytes: it has arrived, it can be
/// read, and a browser's frame for it fits in a buffer.
pub open spec fn body_takable(received: Seq<u8>, len: u32) -> bool {
    &&& arrived(received, len as nat)
    &&& len + 9 <= isize::MAX
    &&& readable(received.take(len as int))
}

/// One of the bodies stands for a packet.
pub open spec fn any_packet(list: Seq<Seq<u8>>) -> bool {
    exists|i: int| 0 <= i < list.len() && read_body(#[trigger] list[i]) is Some
}

/// The received bytes can be cut into bodies of `len` bytes: the length is not zero, every
/// body can be read, and a browser's frame for it fits in a buffer.
pub open spec fn cuttable(received: Seq<u8>, len: nat) -> bool {
    arrived(received, len) ==> {
        &&& len > 0
        &&& len + 9 <= isize::MAX
        &&& forall|i: int| 0 <= i < bodies(received, len).len() ==> readable(#[trigger] bodies(received, len)[i])
    }
}

/// A read from the server can be taken in: the length field that is due is valid, and what
/// follows it can be cut into bodies.
pub open spec fn acceptable(received: Seq<u8>, known: Option<u32>) -> bool {
    &&& prefix_valid(received, known)
    &&& body_len(received, known) matches Some(len) ==> cuttable(
        after_prefix(received, known),
        len as nat,
    )
}

/// What the bytes received so far lead to.
pub open spec fn read_events(received: Seq<u8>, known: Option<u32>) -> Seq<ServerEventView> {
    match body_len(received, known) {
        Some(len) => events_of(bodies(after_prefix(received, known), len as nat)),
        None => Seq::empty(),
    }
}

/// The bytes that stay in the buffer after a read.
pub open spec fn read_rest(received: Seq<u8>, known: Option<u32>) -> Seq<u8> {
    match body_len(received, known) {
        Some(len) => leftover(after_prefix(received, known), len as nat),
        None => received,
    }
}

/// The body length that stays known after a read: none once a packet was read.
pub open spec fn read_known(received: Seq<u8>, known: Option<u32>) -> Option<u32> {
    match body_len(received, known) {
        Some(len) => if any_packet(bodies(after_prefix(received, known), len as nat)) {
            None
        } else {
            Some(len)
        },
        None => None,
    }
}

/// The event that a packet from the server leads to.
pub fn packet_event(packet: Packet) -> (event: Option<ServerEvent>)
    requires
        packet@ matches PacketView::Video(data) ==> data.len() + 10 <= isize::MAX,
    ensures
        event is Some <==> event_of(packet@) is Some,
        event matches Some(e) ==> event_of(packet@) == Some(e@),
{
    match packet {
        Packet::Handshake(_) => None,
        Packet::HandshakeResponse(worker_id) => Some(ServerEvent::Connected(worker_id)),
        Packet::Video(b) => {
            let len = b.len();
            Some(ServerEvent::Video(len, BroadcastData::Bytes(binary_message(b))))
        },
        Packet::Control(ControlPacket::DisconnectIP(ip)) => Some(
            ServerEvent::Disconnected(
                ip,
                BroadcastData::Packet(Packet::Control(ControlPacket::DisconnectIP(ip))),
            ),
        ),
    }
}

/// The worker's side of the link to the server.
pub struct ServerLink {
    /// The bytes received and not yet read.
    pub rx_buf: BytesMut,
    /// The length of the body being received, once its length field was read.
    pub last_len: Option<u32>,
}

impl ServerLink {
    /// A link on which nothing has come in.
    pub fn new() -> (link: Self)
        ensures
            buffered(link.rx_buf) == Seq::<u8>::empty(),
            link.last_len is None,
    {
        ServerLink { rx_buf: BytesMut::with_capacity(16384), last_len: None }
    }

    /// Whether `on_read` can be called.
    pub fn accepts(&self) -> (ok: bool)
        ensures
            ok == acceptable(buffered(self.rx_buf), self.last_len),
    {
        let ghost received = buffered(self.rx_buf);
        if !prefix_is_valid(&self.rx_buf, self.last_len) {
            return false;
        }
        let mut at: usize = 0;
        let len = match self.last_len {
            Some(len) => {
                assert(received.skip(0) =~= received);
                len
            },
            None => {
                if self.rx_buf.len() < 4 {
                    return true;
                }
                assert(received.take(4) =~= seq![
                    received[0],
                    received[1],
                    received[2],
                    received[3],
                ]);
                at = 4;
                be_u32(self.rx_buf[0], self.rx_buf[1], self.rx_buf[2], self.rx_buf[3]) - 4
            },
        };
        let ghost all = after_prefix(received, self.last_len);
        assert(body_len(received, self.last_len) == Some(len));
        assert(all =~= received.skip(at as int));
        if low_u32(self.rx_buf.len() - at) < len {
            return true;
        }
        if len == 0 || len as usize > isize::MAX as usize - 9 {
            return false;
        }
        let ghost cut: Seq<Seq<u8>> = Seq::empty();
        assert(cut + bodies(all, len as nat) =~= bodies(all, len as nat));
        while low_u32(self.rx_buf.len() - at) >= len
            invariant
                received == buffered(self.rx_buf),
                at <= received.len(),
                0 < len,
                len + 9 <= isize::MAX,
                body_len(received, self.last_len) == Some(len),
                all == after_prefix(received, self.last_len),
                prefix_valid(received, self.last_len),
                arrived(all, len as nat),
                bodies(all, len as nat) == cut + bodies(received.skip(at as int), len as nat),
                forall|i: int| 0 <= i < cut.len() ==> readable(#[trigger] cut[i]),
            decreases received.len() - at,
        {
            let ghost before = cut;
            let body = slice_subrange(&self.rx_buf, at, at + len as usize);
            proof {
                cut = before.push(body@);
                assert(body@ =~= received.skip(at as int).take(len as int));
                assert(received.skip(at as int).skip(len as int) =~= received.skip(at + len));
                assert(bodies(all, len as nat)[before.len() as int] == body@);
                assert(cut + bodies(received.skip(at + len), len as nat) =~= bodies(
                    all,
                    len as nat,
                ));
            }
            if !Packer::<Packet>::can_unpack(body) {
                return false;
            }
            at = at + len as usize;
        }
        assert(bodies(all, len as nat) =~= cut);
        true
    }

    /// Whether `take_body` can be called.
    pub fn can_take(&self, len: u32) -> (ok: bool)
        ensures
            ok == body_takable(buffered(self.rx_buf), len),
    {
        if low_u32(self.rx_buf.len()) < len || len as usize > isize::MAX as usize - 9 {
            false
        } else {
            assert(buffered(self.rx_buf).subrange(0, len as int) =~= buffered(self.rx_buf).take(
                len as int,
            ));
            Packer::<Packet>::can_unpack(slice_subrange(&self.rx_buf, 0, len as usize))
        }
    }

    /// Takes the next body of `len` bytes off the buffer, and says what it leads to. The length
    /// is forgotten once a packet was read.
    pub fn take_body(&mut self, len: u32) -> (event: Option<ServerEvent>)
        requires
            body_takable(buffered(old(self).rx_buf), len),
        ensures
            event is Some <==> body_event(buffered(old(self).rx_buf).take(len as int)) is Some,
            event matches Some(e) ==> body_event(buffered(old(self).rx_buf).take(len as int))
                == Some(e@),
            buffered(final(self).rx_buf) == buffered(old(self).rx_buf).skip(len as int),
            final(self).last_len == (if read_body(
                buffered(old(self).rx_buf).take(len as int),
            ) is Some {
                None
            } else {
                old(self).last_len
            }),
    {
        let body = self.rx_buf.split_to(len as usize).freeze();
        match Packer::<Packet>::unpack(body) {
            Some(packet) => {
                self.last_len = None;
                packet_event(packet)
            },
            None => None,
        }
    }

    /// Takes in the bytes that were just added to the buffer, and says what they lead to.
    pub fn on_read(&mut self) -> (events: Vec<ServerEvent>)
        requires
            acceptable(buffered(old(self).rx_buf), old(self).last_len),
        ensures
            event_views(events@) == read_events(buffered(old(self).rx_buf), old(self).last_len),
            buffered(final(self).rx_buf) == read_rest(
                buffered(old(self).rx_buf),
                old(self).last_len,
            ),
            final(self).last_len == read_known(buffered(old(self).rx_buf), old(self).last_len),
    {
        let ghost received = buffered(self.rx_buf);
        let ghost known = self.last_len;
        let mut events: Vec<ServerEvent> = Vec::new();
        let len = match next_len(&mut self.rx_buf, &mut self.last_len) {
            Some(len) => len,
            None => {
                assert(event_views(events@) =~= Seq::empty());
                return events;
            },
        };
        let ghost all = after_prefix(received, known);
        let ghost cut: Seq<Seq<u8>> = Seq::empty();
        assert(event_views(events@) =~= Seq::empty());
        assert(cut + bodies(all, len as nat) =~= bodies(all, len as nat));
        while low_u32(self.rx_buf.len()) >= len
            invariant
                cuttable(all, len as nat),
                arrived(buffered(self.rx_buf), len as nat) ==> arrived(all, len as nat),
                bodies(all, len as nat) == cut + bodies(buffered(self.rx_buf), len as nat),
                leftover(all, len as nat) == leftover(buffered(self.rx_buf), len as nat),
                event_views(events@) == events_of(cut),
                self.last_len == (if any_packet(cut) {
                    None
                } else {
                    Some(len)
                }),
            decreases buffered(self.rx_buf).len(),
        {
            let ghost before = cut;
            let ghost body = buffered(self.rx_buf).take(len as int);
            proof {
                cut = before.push(body);
                assert(bodies(all, len as nat)[before.len() as int] == body);
                assert(cut.drop_last() =~= before);
                assert(cut[before.len() as int] == body);
                assert(forall|i: int| 0 <= i < before.len() ==> before[i] == cut[i]);
            }
            let event = self.take_body(len);
            assert(cut + bodies(buffered(self.rx_buf), len as nat) =~= bodies(all, len as nat));
            if let Some(event) = event {
                let ghost earlier = events@;
                events.push(event);
                assert(event_views(events@) =~= event_views(earlier).push(event@));
            }
        }
        assert(bodies(buffered(self.rx_buf), len as nat) =~= Seq::empty());
        assert(cut =~= bodies(all, len as nat));
        events
    }
}

} // verus!
