//! Byte buffers of the `bytes` crate, described by the bytes that they hold.
//!
//! Nothing in this module is proved: each item says of one function of `bytes` what its
//! source shows. Running out of memory is left aside, here as everywhere.

use crate::be::{be_bytes, be_value};
use bytes::{Buf, BufMut, Bytes, BytesMut};
use vstd::prelude::*;

verus! {

/// `bytes::Bytes`, a shared read-only run of bytes.
#[verifier::external_type_specification]
#[verifier::external_body]
pub struct ExBytes(bytes::Bytes);

/// `bytes::BytesMut`, a growing buffer of bytes.
#[verifier::external_type_specification]
#[verifier::external_body]
pub struct ExBytesMut(bytes::BytesMut);

/// The bytes that `b` holds, in order.
pub uninterp spec fn contents(b: Bytes) -> Seq<u8>;

/// The bytes that `b` holds, in order.
pub uninterp spec fn buffered(b: BytesMut) -> Seq<u8>;

/// `Bytes::len`: how many bytes there are.
pub assume_specification[ bytes::Bytes::len ](b: &bytes::Bytes) -> (n: usize)
    ensures
        n == contents(*b).len(),
;

/// `Bytes` as a slice: the same bytes.
pub assume_specification[ <bytes::Bytes as std::ops::Deref>::deref ](b: &bytes::Bytes) -> (s: &[u8])
    ensures
        s@ == contents(*b),
;

/// `Bytes::clone`: another handle on the same bytes.
pub assume_specification[ <bytes::Bytes as Clone>::clone ](b: &bytes::Bytes) -> (copy: bytes::Bytes)
    ensures
        contents(copy) == contents(*b),
;

/// `Bytes::slice` over `start..`: the bytes from `start` on. It panics where `start` lies
/// beyond the end.
#[verifier::external_body]
pub(crate) fn bytes_from(b: &Bytes, start: usize) -> (rest: Bytes)
    requires
        start <= contents(*b).len(),
    ensures
        contents(rest) == contents(*b).skip(start as int),
{
    b.slice(start..)
}

/// `BytesMut::new`: a buffer that holds nothing.
pub assume_specification[ bytes::BytesMut::new ]() -> (b: bytes::BytesMut)
    ensures
        buffered(b) == Seq::<u8>::empty(),
;

/// `BytesMut::with_capacity`: a buffer that holds nothing. It panics where the capacity is
/// beyond what a vector can have.
pub assume_specification[ bytes::BytesMut::with_capacity ](capacity: usize) -> (b: bytes::BytesMut)
    requires
        capacity <= isize::MAX,
    ensures
        buffered(b) == Seq::<u8>::empty(),
;

/// `BytesMut::len`: how many bytes there are.
pub assume_specification[ bytes::BytesMut::len ](b: &bytes::BytesMut) -> (n: usize)
    ensures
        n == buffered(*b).len(),
;

/// `BytesMut::is_empty`: whether there is no byte.
pub assume_specification[ bytes::BytesMut::is_empty ](b: &bytes::BytesMut) -> (empty: bool)
    ensures
        empty == (buffered(*b).len() == 0),
;

/// `BytesMut` as a slice: the same bytes.
pub assume_specification[ <bytes::BytesMut as std::ops::Deref>::deref ](b: &bytes::BytesMut) -> (s: &[u8])
    ensures
        s@ == buffered(*b),
;

/// `BytesMut::clear`: all bytes go.
pub assume_specification[ bytes::BytesMut::clear ](b: &mut bytes::BytesMut)
    ensures
        buffered(*final(b)) == Seq::<u8>::empty(),
;

/// `BytesMut::extend_from_slice`: the bytes are added at the end. It panics where the buffer
/// would be longer than a vector can be.
pub assume_specification[ bytes::BytesMut::extend_from_slice ](b: &mut bytes::BytesMut, extend: &[u8])
    requires
        buffered(*old(b)).len() + extend@.len() <= isize::MAX,
    ensures
        buffered(*final(b)) == buffered(*old(b)) + extend@,
;

/// `BytesMut::split_to`: the first `at` bytes leave the buffer and are returned. It panics
/// where there are fewer.
pub assume_specification[ bytes::BytesMut::split_to ](b: &mut bytes::BytesMut, at: usize) -> (head: bytes::BytesMut)
    requires
        at <= buffered(*old(b)).len(),
    ensures
        buffered(head) == buffered(*old(b)).take(at as int),
        buffered(*final(b)) == buffered(*old(b)).skip(at as int),
;

/// `BytesMut::freeze`: the same bytes, read-only from here on.
pub assume_specification[ bytes::BytesMut::freeze ](b: bytes::BytesMut) -> (frozen: bytes::Bytes)
    ensures
        contents(frozen) == buffered(b),
;

/// `BufMut::put_u32` on a `BytesMut`: four bytes are added, most significant first.
#[verifier::external_body]
pub(crate) fn put_u32(b: &mut BytesMut, n: u32)
    requires
        buffered(*old(b)).len() + 4 <= isize::MAX,
    ensures
        buffered(*final(b)) == buffered(*old(b)) + be_bytes(n as nat, 4),
{
    b.put_u32(n)
}

/// `Buf::get_u32` on a `BytesMut`: four bytes leave the buffer, and the number that they stand
/// for, most significant first, is returned. It panics where there are fewer.
#[verifier::external_body]
pub(crate) fn get_u32(b: &mut BytesMut) -> (n: u32)
    requires
        buffered(*old(b)).len() >= 4,
    ensures
        n == be_value(buffered(*old(b)).take(4)),
        buffered(*final(b)) == buffered(*old(b)).skip(4),
{
    b.get_u32()
}

} // verus!
