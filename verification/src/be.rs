//! Big-endian numbers as byte sequences.

use vstd::arithmetic::power::{lemma_pow0, lemma_pow1, lemma_pow_adds, lemma_pow_positive, pow};
use vstd::prelude::*;

verus! {

/// The `width` low-order base-256 digits of `value`, most significant first.
pub open spec fn be_bytes(value: nat, width: nat) -> Seq<u8>
    decreases width,
{
    if width == 0 {
        Seq::empty()
    } else {
        be_bytes(value / 256, (width - 1) as nat).push((value % 256) as u8)
    }
}

/// The number whose base-256 digits, most significant first, are `digits`.
pub open spec fn be_value(digits: Seq<u8>) -> nat
    decreases digits.len(),
{
    if digits.len() == 0 {
        0
    } else {
        be_value(digits.drop_last()) * 256 + digits.last() as nat
    }
}

/// How many bytes a `usize` takes on this machine.
pub open spec fn word_bytes() -> nat {
    (usize::BITS / 8) as nat
}

/// `be_bytes` has as many digits as it was asked for.
pub proof fn lemma_be_bytes_len(value: nat, width: nat)
    ensures
        be_bytes(value, width).len() == width,
    decreases width,
{
    if width > 0 {
        lemma_be_bytes_len(value / 256, (width - 1) as nat);
    }
}

/// Reading back the digits of a number that fits in them gives the number.
pub proof fn lemma_be_round_trip(value: nat, width: nat)
    requires
        value < pow(256, width),
    ensures
        be_value(be_bytes(value, width)) == value,
    decreases width,
{
    if width == 0 {
        lemma_pow0(256);
    } else {
        let shorter = (width - 1) as nat;
        lemma_pow1(256);
        lemma_pow_adds(256, shorter, 1);
        assert(pow(256, width) == pow(256, shorter) * 256);
        lemma_be_round_trip(value / 256, shorter);
        assert(be_bytes(value, width).drop_last() =~= be_bytes(value / 256, shorter));
    }
}

/// The leading digits of a number are the digits of the number without its `cut` last ones.
pub proof fn lemma_be_bytes_prefix(value: nat, width: nat, cut: nat)
    requires
        cut <= width,
    ensures
        be_bytes(value, width).take(width - cut) == be_bytes(
            value / (pow(256, cut) as nat),
            (width - cut) as nat,
        ),
    decreases cut,
{
    lemma_be_bytes_len(value, width);
    if cut == 0 {
        lemma_pow0(256);
        assert(be_bytes(value, width).take(width as int) =~= be_bytes(value, width));
    } else {
        let fewer = (cut - 1) as nat;
        lemma_be_bytes_prefix(value / 256, (width - 1) as nat, fewer);
        lemma_be_bytes_len(value / 256, (width - 1) as nat);
        assert(be_bytes(value, width).take(width - cut) =~= be_bytes(
            value / 256,
            (width - 1) as nat,
        ).take(width - cut));
        lemma_pow1(256);
        lemma_pow_adds(256, 1, fewer);
        lemma_pow_positive(256, fewer);
        vstd::arithmetic::div_mod::lemma_div_denominator(value as int, 256, pow(256, fewer));
    }
}

/// `256^4` as a number.
pub proof fn lemma_pow_256_4()
    ensures
        pow(256, 4) == 0x1_0000_0000,
{
    lemma_pow1(256);
    lemma_pow_adds(256, 1, 1);
    assert(pow(256, 2) == 0x1_0000);
    lemma_pow_adds(256, 2, 2);
    assert(0x1_0000 * 0x1_0000 == 0x1_0000_0000) by (nonlinear_arith);
}

/// The number that four big-endian bytes stand for.
pub proof fn lemma_be_value_4(digits: Seq<u8>)
    requires
        digits.len() == 4,
    ensures
        be_value(digits) == digits[0] * 0x100_0000 + digits[1] * 0x1_0000 + digits[2] * 0x100
            + digits[3],
        be_value(digits) <= u32::MAX,
{
    reveal_with_fuel(be_value, 5);
}

/// The digits of `value` in `width` bytes.
fn be_vec(value: usize, width: usize) -> (digits: Vec<u8>)
    ensures
        digits@ == be_bytes(value as nat, width as nat),
    decreases width,
{
    if width == 0 {
        Vec::new()
    } else {
        let mut digits = be_vec(value / 256, width - 1);
        digits.push((value % 256) as u8);
        digits
    }
}

/// All bytes of a machine word, most significant first.
pub fn word_be_bytes(value: usize) -> (digits: Vec<u8>)
    ensures
        digits@ == be_bytes(value as nat, word_bytes()),
{
    be_vec(value, (usize::BITS / 8) as usize)
}

/// The number that four big-endian bytes stand for.
pub fn be_u32(first: u8, second: u8, third: u8, fourth: u8) -> (value: u32)
    ensures
        value == be_value(seq![first, second, third, fourth]),
{
    proof {
        lemma_be_value_4(seq![first, second, third, fourth]);
    }
    first as u32 * 0x100_0000 + second as u32 * 0x1_0000 + third as u32 * 0x100 + fourth as u32
}

/// The low-order 32 bits of a length.
pub fn low_u32(n: usize) -> (low: u32)
    ensures
        low == n as int % 0x1_0000_0000,
{
    (n as u64 % 0x1_0000_0000) as u32
}

} // verus!
