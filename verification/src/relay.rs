//! What passes between the link to the server and the links to the browsers, and the framing
//! that both links read.

use crate::be::{be_value, lemma_be_value_4};
use crate::buffers::{buffered, contents, get_u32};
use crate::packer::{Packet, PacketView};
use bytes::{Bytes, BytesMut};
use vstd::prelude::*;

verus! {

/// What is handed to every browser's link.
#[derive(Debug)]
pub enum BroadcastData {
    /// Bytes to be sent as they are.
    Bytes(Bytes),
    /// A packet to be acted on.
    Packet(Packet),
}

/// What a broadcast says.
#[verifier::ext_equal]
pub enum BroadcastView {
    Bytes(Seq<u8>),
    Packet(PacketView),
}

impl View for BroadcastData {
    type V = BroadcastView;

    open spec fn view(&self) -> BroadcastView {
        match self {
            BroadcastData::Bytes(bytes) => BroadcastView::Bytes(contents(*bytes)),
            BroadcastData::Packet(packet) => BroadcastView::Packet(packet@),
        }
    }
}

impl Clone for BroadcastData {
    fn clone(&self) -> (copy: Self)
        ensures
            copy@ == self@,
    {
        match self {
            BroadcastData::Bytes(bytes) => BroadcastData::Bytes(bytes.clone()),
            BroadcastData::Packet(packet) => BroadcastData::Packet(packet.clone()),
        }
    }
}

/// The length field at the start of received bytes.
pub open spec fn length_prefix(received: Seq<u8>) -> nat {
    be_value(received.take(4))
}

/// A length field that is due, and has arrived, covers at least itself.
pub open spec fn prefix_valid(received: Seq<u8>, known: Option<u32>) -> bool {
    known is None && received.len() >= 4 ==> length_prefix(received) >= 4
}

/// The length of the body that is being received, where it is known: the length already read,
/// or what the length field that has arrived leaves beside itself.
pub open spec fn body_len(received: Seq<u8>, known: Option<u32>) -> Option<u32> {
    match known {
        Some(len) => Some(len),
        None => if received.len() < 4 {
            None
        } else {
            Some((length_prefix(received) - 4) as u32)
        },
    }
}

/// The received bytes without the length field that `body_len` read.
pub open spec fn after_prefix(received: Seq<u8>, known: Option<u32>) -> Seq<u8> {
    if known is None && received.len() >= 4 {
        received.skip(4)
    } else {
        received
    }
}

/// Whether `next_len` can be called.
pub fn prefix_is_valid(rx_buf: &BytesMut, last_len: Option<u32>) -> (ok: bool)
    ensures
        ok == prefix_valid(buffered(*rx_buf), last_len),
{
    match last_len {
        Some(_) => true,
        None => {
            if rx_buf.len() < 4 {
                true
            } else {
                proof {
                    lemma_be_value_4(buffered(*rx_buf).take(4));
                }
                rx_buf[0] > 0 || rx_buf[1] > 0 || rx_buf[2] > 0 || rx_buf[3] >= 4
            }
        },
    }
}

/// The length of the body that is being received. A length field that is due leaves the
/// buffer, and the length is remembered.
pub fn next_len(rx_buf: &mut BytesMut, last_len: &mut Option<u32>) -> (len: Option<u32>)
    requires
        prefix_valid(buffered(*old(rx_buf)), *old(last_len)),
    ensures
        len == body_len(buffered(*old(rx_buf)), *old(last_len)),
        *final(last_len) == len,
        buffered(*final(rx_buf)) == after_prefix(buffered(*old(rx_buf)), *old(last_len)),
{
    match *last_len {
        Some(len) => Some(len),
        None => {
            if rx_buf.len() < 4 {
                return None;
            }
            let len = get_u32(rx_buf);
            *last_len = Some(len - 4);
            Some(len - 4)
        },
    }
}

} // verus!
