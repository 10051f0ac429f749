//! The key that accepts a WebSocket upgrade.

use vstd::prelude::*;
use vstd::utf8::{encode_utf8, is_ascii_chars, is_ascii_chars_encode_utf8};

verus! {

/// The constant that a server adds to the client's key.
pub const ACCEPT_GUID: &'static str = "258EAFA5-E914-47DA-95CA-C5AB0DC85B11";

/// The length of the constant.
pub const ACCEPT_GUID_LEN: u64 = 36;

/// The most bytes that can be hashed: their number of bits is counted in 64 bits.
pub const MAX_HASHED: u64 = 0x1fff_ffff_ffff_ffff;

/// The SHA-1 digest of `data`.
pub uninterp spec fn sha1(data: Seq<u8>) -> Seq<u8>;

/// `sha1_smol::Sha1` fed with `data`, and its digest as twenty bytes. Nothing is said of the
/// digest but that it is a function of the data. The number of bits hashed is counted in 64
/// bits, and the count panics where it does not fit.
#[verifier::external_body]
fn sha1_digest(data: &[u8]) -> (digest: [u8; 20])
    requires
        data@.len() <= MAX_HASHED,
    ensures
        digest@ == sha1(data@),
{
    let mut hash = sha1_smol::Sha1::new();
    hash.update(data);
    hash.digest().bytes()
}

/// The character for six bits in the standard base64 alphabet.
pub open spec fn base64_char(bits: int) -> char {
    if bits < 26 {
        (65 + bits) as char
    } else if bits < 52 {
        (71 + bits) as char
    } else if bits < 62 {
        (bits - 4) as char
    } else if bits == 62 {
        '+'
    } else {
        '/'
    }
}

/// The standard base64 encoding with padding: four characters for every three bytes, the last
/// group filled up with `=`.
pub open spec fn base64_text(data: Seq<u8>) -> Seq<char>
    decreases data.len(),
{
    if data.len() == 0 {
        Seq::empty()
    } else if data.len() == 1 {
        seq![base64_char(data[0] as int / 4), base64_char(data[0] % 4 * 16), '=', '=']
    } else if data.len() == 2 {
        seq![
            base64_char(data[0] as int / 4),
            base64_char(data[0] % 4 * 16 + data[1] / 16),
            base64_char(data[1] % 16 * 4),
            '=',
        ]
    } else {
        seq![
            base64_char(data[0] as int / 4),
            base64_char(data[0] % 4 * 16 + data[1] / 16),
            base64_char(data[1] % 16 * 4 + data[2] / 64),
            base64_char(data[2] as int % 64),
        ] + base64_text(data.skip(3))
    }
}

/// `base64::encode_config` with `base64::STANDARD`: the standard encoding with padding. It
/// panics where the length of the encoding is beyond what a string can have.
#[verifier::external_body]
fn base64_encode(data: &[u8]) -> (text: String)
    requires
        (data@.len() + 2) / 3 * 4 <= isize::MAX,
    ensures
        text@ == base64_text(data@),
{
    base64::encode_config(data, base64::STANDARD)
}

/// The value that accepts an upgrade asked for with `key`.
pub open spec fn accept_value(key: Seq<u8>) -> Seq<char> {
    base64_text(sha1(key + encode_utf8(ACCEPT_GUID@)))
}

/// The constant is as long as stated.
pub proof fn lemma_guid_len()
    ensures
        encode_utf8(ACCEPT_GUID@).len() == ACCEPT_GUID_LEN,
{
    reveal_strlit("258EAFA5-E914-47DA-95CA-C5AB0DC85B11");
    assert(is_ascii_chars(ACCEPT_GUID@));
    is_ascii_chars_encode_utf8(ACCEPT_GUID@);
}

/// The encoding has four characters for every three bytes, the last group counted in full.
pub proof fn lemma_base64_len(data: Seq<u8>)
    ensures
        base64_text(data).len() == (data.len() + 2) / 3 * 4,
    decreases data.len(),
{
    if data.len() > 2 {
        lemma_base64_len(data.skip(3));
    }
}

/// The value that accepts an upgrade asked for with `key`: always twenty-eight characters.
pub fn accept_key(key: &[u8]) -> (accept: String)
    requires
        key@.len() + ACCEPT_GUID_LEN <= MAX_HASHED,
    ensures
        accept@ == accept_value(key@),
        accept@.len() == 28,
{
    let mut data: Vec<u8> = Vec::new();
    data.extend_from_slice(key);
    data.extend_from_slice(ACCEPT_GUID.as_bytes());
    proof {
        lemma_guid_len();
    }
    assert(data@ =~= key@ + encode_utf8(ACCEPT_GUID@));
    let digest = sha1_digest(&data);
    proof {
        lemma_base64_len(digest@);
    }
    base64_encode(&digest)
}

} // verus!
