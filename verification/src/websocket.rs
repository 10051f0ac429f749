//! WebSocket messages to a browser.

use crate::be::be_bytes;
use crate::buffers::{buffered, contents};
use bytes::{Bytes, BytesMut};
use tokio_util::codec::Encoder;
use vstd::prelude::*;
use websocket_codec::{Message, MessageCodec};

verus! {

/// The payload length in a frame header: one byte, or a marker and two or eight bytes.
pub open spec fn payload_length_bytes(n: nat) -> Seq<u8> {
    if n <= 125 {
        seq![n as u8]
    } else if n <= 65535 {
        seq![126u8] + be_bytes(n, 2)
    } else {
        seq![127u8] + be_bytes(n, 8)
    }
}

/// A binary message in one unmasked frame.
pub open spec fn binary_frame(payload: Seq<u8>) -> Seq<u8> {
    seq![0x82u8] + payload_length_bytes(payload.len()) + payload
}

/// `Encoder::encode` of `websocket_codec::MessageCodec::server` on `Message::binary`: one
/// final, unmasked frame with the payload is added to the buffer. A server's codec keeps no
/// state between messages that it encodes, and encoding never fails. It panics where the
/// buffer would be longer than a vector can be.
#[verifier::external_body]
fn encode_binary(payload: Bytes, out: &mut BytesMut)
    requires
        buffered(*old(out)).len() + contents(payload).len() + 10 <= isize::MAX,
    ensures
        buffered(*final(out)) == buffered(*old(out)) + binary_frame(contents(payload)),
{
    MessageCodec::server().encode(Message::binary(payload), out).unwrap()
}

/// The frame that carries `payload` to a browser.
pub fn binary_message(payload: Bytes) -> (frame: Bytes)
    requires
        contents(payload).len() + 10 <= isize::MAX,
    ensures
        contents(frame) == binary_frame(contents(payload)),
{
    let mut out = BytesMut::new();
    encode_binary(payload, &mut out);
    assert(buffered(out) =~= binary_frame(contents(payload)));
    out.freeze()
}

} // verus!
