//! The link to one browser.

use crate::addr::{IpAddr, IpAddrView};
use crate::be::low_u32;
use crate::buffers::buffered;
use crate::packer::{read_body, readable, ControlPacket, ControlPacketView, Packer, Packet, PacketView};
use crate::relay::{
    after_prefix, body_len, next_len, prefix_is_valid, prefix_valid, BroadcastData, BroadcastView,
};
use bytes::BytesMut;
use vstd::prelude::*;
use vstd::slice::slice_subrange;

verus! {

/// The longest body that a browser may send.
pub const MAX_REQUEST: u32 = 1024;

/// What becomes of a browser's bytes.
#[derive(Debug)]
pub enum BrowserStep {
    /// Nothing is read for now.
    Wait,
    /// The body would be longer than is allowed, and is not read.
    TooLarge(u32),
    /// A body was read that asks for this packet to be sent to the server.
    Forward(Packet),
    /// A body was read that asks for nothing.
    Skip,
}

/// What a step says.
#[verifier::ext_equal]
pub enum BrowserStepView {
    Wait,
    TooLarge(u32),
    Forward(PacketView),
    Skip,
}

impl View for BrowserStep {
    type V = BrowserStepView;

    open spec fn view(&self) -> BrowserStepView {
        match self {
            BrowserStep::Wait => BrowserStepView::Wait,
            BrowserStep::TooLarge(len) => BrowserStepView::TooLarge(*len),
            BrowserStep::Forward(packet) => BrowserStepView::Forward(packet@),
            BrowserStep::Skip => BrowserStepView::Skip,
        }
    }
}

/// A body of `len` bytes is taken off the received bytes: `len` is not under the number of
/// bytes received, of which 32 bits are looked at, and not over the limit.
pub open spec fn takes_body(received: Seq<u8>, len: u32) -> bool {
    received.len() % 0x1_0000_0000 <= len <= MAX_REQUEST
}

/// A step can be made: a body that is taken is there in full and can be read.
pub open spec fn step_possible(received: Seq<u8>, len: u32) -> bool {
    takes_body(received, len) ==> len <= received.len() && readable(received.take(len as int))
}

/// The packet asks for a viewer to be dropped.
pub open spec fn asks_to_disconnect(packet: Option<PacketView>) -> bool {
    packet matches Some(PacketView::Control(ControlPacketView::DisconnectIP(_)))
}

/// What becomes of the received bytes of the browser at `addr`. Whatever address a request to
/// disconnect names, it is the browser's own that is forwarded.
pub open spec fn step_of(received: Seq<u8>, len: u32, addr: IpAddrView) -> BrowserStepView {
    if len < received.len() % 0x1_0000_0000 {
        BrowserStepView::Wait
    } else if len > MAX_REQUEST {
        BrowserStepView::TooLarge(len)
    } else if asks_to_disconnect(read_body(received.take(len as int))) {
        BrowserStepView::Forward(PacketView::Control(ControlPacketView::DisconnectIP(addr)))
    } else {
        BrowserStepView::Skip
    }
}

/// A broadcast closes the link to the browser at `addr`: it disconnects that very address.
pub open spec fn closes_link(data: BroadcastView, addr: IpAddrView) -> bool {
    data == BroadcastView::Packet(PacketView::Control(ControlPacketView::DisconnectIP(addr)))
}

/// What is done on a browser's link.
#[verifier::ext_equal]
pub enum LinkStep {
    /// Bytes were received and taken in.
    Read,
    /// A body of this length was asked for.
    Request(u32),
    /// This broadcast was acted on.
    Broadcast(BroadcastView),
    /// This many bytes were sent.
    Sent(nat),
}

/// The bytes of a broadcast that go to the browser as they are.
pub open spec fn payload(data: BroadcastView) -> Seq<u8> {
    match data {
        BroadcastView::Bytes(bytes) => bytes,
        BroadcastView::Packet(_) => Seq::empty(),
    }
}

/// The bytes to be sent after a step. Those of a broadcast come last, and those that were sent
/// leave from the front. What the browser sends makes no difference.
pub open spec fn queue_after(queue: Seq<u8>, step: LinkStep) -> Seq<u8> {
    match step {
        LinkStep::Read | LinkStep::Request(_) => queue,
        LinkStep::Broadcast(data) => queue + payload(data),
        LinkStep::Sent(n) => queue.skip(n as int),
    }
}

/// The worker's side of the link to one browser.
pub struct BrowserLink {
    /// The browser's address.
    pub addr: IpAddr,
    /// The bytes received and not yet read.
    pub rx_buf: BytesMut,
    /// The bytes to be sent.
    pub tx_buf: BytesMut,
    /// The length of the bodies that the browser sends, once a length field was read.
    pub last_len: Option<u32>,
}

impl BrowserLink {
    /// The link to the browser at `addr`, from which `rx_buf` has been received.
    pub fn new(rx_buf: BytesMut, addr: IpAddr) -> (link: Self)
        ensures
            link.addr == addr,
            link.rx_buf == rx_buf,
            buffered(link.tx_buf) == Seq::<u8>::empty(),
            link.last_len is None,
    {
        BrowserLink { addr, rx_buf, tx_buf: BytesMut::with_capacity(16384), last_len: None }
    }

    /// Whether `on_read` can be called.
    pub fn accepts(&self) -> (ok: bool)
        ensures
            ok == prefix_valid(buffered(self.rx_buf), self.last_len),
    {
        prefix_is_valid(&self.rx_buf, self.last_len)
    }

    /// Takes in the bytes that were just added to the buffer: the length of the bodies that the
    /// browser sends, where it is known. A length stays known once it was read.
    pub fn on_read(&mut self) -> (len: Option<u32>)
        requires
            prefix_valid(buffered(old(self).rx_buf), old(self).last_len),
        ensures
            len == body_len(buffered(old(self).rx_buf), old(self).last_len),
            final(self).last_len == len,
            buffered(final(self).rx_buf) == after_prefix(
                buffered(old(self).rx_buf),
                old(self).last_len,
            ),
            final(self).tx_buf == old(self).tx_buf,
            buffered(final(self).tx_buf) == queue_after(buffered(old(self).tx_buf), LinkStep::Read),
            final(self).addr == old(self).addr,
    {
        next_len(&mut self.rx_buf, &mut self.last_len)
    }

    /// Whether `next_request` can be called.
    pub fn can_step(&self, len: u32) -> (ok: bool)
        ensures
            ok == step_possible(buffered(self.rx_buf), len),
    {
        if len < low_u32(self.rx_buf.len()) || len > MAX_REQUEST {
            true
        } else if len as usize > self.rx_buf.len() {
            false
        } else {
            assert(buffered(self.rx_buf).subrange(0, len as int) =~= buffered(self.rx_buf).take(
                len as int,
            ));
            Packer::<Packet>::can_unpack(slice_subrange(&self.rx_buf, 0, len as usize))
        }
    }

    /// Reads the next body of `len` bytes, if it is to be read.
    pub fn next_request(&mut self, len: u32) -> (step: BrowserStep)
        requires
            step_possible(buffered(old(self).rx_buf), len),
        ensures
            step@ == step_of(buffered(old(self).rx_buf), len, old(self).addr@),
            buffered(final(self).rx_buf) == (if takes_body(buffered(old(self).rx_buf), len) {
                buffered(old(self).rx_buf).skip(len as int)
            } else {
                buffered(old(self).rx_buf)
            }),
            final(self).last_len == old(self).last_len,
            final(self).tx_buf == old(self).tx_buf,
            buffered(final(self).tx_buf) == queue_after(
                buffered(old(self).tx_buf),
                LinkStep::Request(len),
            ),
            final(self).addr == old(self).addr,
    {
        if len < low_u32(self.rx_buf.len()) {
            return BrowserStep::Wait;
        }
        if len > MAX_REQUEST {
            return BrowserStep::TooLarge(len);
        }
        let body = self.rx_buf.split_to(len as usize).freeze();
        match Packer::<Packet>::unpack(body) {
            Some(Packet::Control(ControlPacket::DisconnectIP(_))) => BrowserStep::Forward(
                Packet::Control(ControlPacket::DisconnectIP(self.addr)),
            ),
            _ => BrowserStep::Skip,
        }
    }

    /// Acts on a broadcast, and says whether the link is to be closed: it is where the
    /// broadcast disconnects the browser's own address. Bytes are added to those to be sent.
    pub fn on_broadcast(&mut self, data: BroadcastData) -> (close: bool)
        requires
            data@ matches BroadcastView::Bytes(bytes) ==> buffered(old(self).tx_buf).len()
                + bytes.len() <= isize::MAX,
        ensures
            close == closes_link(data@, old(self).addr@),
            buffered(final(self).tx_buf) == queue_after(
                buffered(old(self).tx_buf),
                LinkStep::Broadcast(data@),
            ),
            final(self).rx_buf == old(self).rx_buf,
            final(self).last_len == old(self).last_len,
            final(self).addr == old(self).addr,
    {
        match data {
            BroadcastData::Bytes(b) => {
                self.tx_buf.extend_from_slice(&b);
                false
            },
            BroadcastData::Packet(Packet::Control(ControlPacket::DisconnectIP(ip))) => {
                ip.same_as(&self.addr)
            },
            _ => false,
        }
    }

    /// Takes the first `n` of the bytes to be sent off the buffer, once they were sent.
    pub fn on_sent(&mut self, n: usize)
        requires
            n <= buffered(old(self).tx_buf).len(),
        ensures
            buffered(final(self).tx_buf) == queue_after(
                buffered(old(self).tx_buf),
                LinkStep::Sent(n as nat),
            ),
            final(self).rx_buf == old(self).rx_buf,
            final(self).last_len == old(self).last_len,
            final(self).addr == old(self).addr,
    {
        let _sent = self.tx_buf.split_to(n);
    }

    /// Whether the periodic flush is to be made: something is to be sent, or something received
    /// was not read.
    pub fn wants_flush(&self) -> (wanted: bool)
        ensures
            wanted == (buffered(self.tx_buf).len() > 0 || buffered(self.rx_buf).len() > 0),
    {
        !self.tx_buf.is_empty() || !self.rx_buf.is_empty()
    }
}

} // verus!
