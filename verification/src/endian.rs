//! Big-endian integers as byte sequences.

use byteorder::{BigEndian, ByteOrder};
use vstd::prelude::*;

verus! {

/// The `width` low-order base-256 digits of `n`, most significant first.
pub open spec fn be_bytes(n: nat, width: nat) -> Seq<u8>
    decreases width,
{
    if width == 0 {
        Seq::empty()
    } else {
        be_bytes(n / 256, (width - 1) as nat).push((n % 256) as u8)
    }
}

/// The number whose base-256 digits, most significant first, are `bytes`.
pub open spec fn be_value(bytes: Seq<u8>) -> nat
    decreases bytes.len(),
{
    if bytes.len() == 0 {
        0
    } else {
        be_value(bytes.drop_last()) * 256 + bytes.last() as nat
    }
}

/// 256 to the power `width`.
pub open spec fn radix_pow(width: nat) -> nat
    decreases width,
{
    if width == 0 {
        1
    } else {
        256 * radix_pow((width - 1) as nat)
    }
}

pub proof fn lemma_be_bytes_len(n: nat, width: nat)
    ensures
        be_bytes(n, width).len() == width,
    decreases width,
{
    if width > 0 {
        lemma_be_bytes_len(n / 256, (width - 1) as nat);
    }
}

/// Reading back what was written gives the number, as far as it fits.
pub proof fn lemma_be_value_of_bytes(n: nat, width: nat)
    requires
        n < radix_pow(width),
    ensures
        be_value(be_bytes(n, width)) == n,
    decreases width,
{
    if width > 0 {
        let rest = be_bytes(n / 256, (width - 1) as nat);
        lemma_be_value_of_bytes(n / 256, (width - 1) as nat);
        assert(be_bytes(n, width).drop_last() =~= rest);
    }
}

/// A number of `width` bytes reads back from the front of any input that
/// starts with its digits.
pub proof fn lemma_be_reads_back(n: nat, width: nat, tail: Seq<u8>)
    requires
        n < radix_pow(width),
    ensures
        be_bytes(n, width).len() == width,
        (be_bytes(n, width) + tail).take(width as int) == be_bytes(n, width),
        be_value((be_bytes(n, width) + tail).take(width as int)) == n,
{
    lemma_be_bytes_len(n, width);
    lemma_be_value_of_bytes(n, width);
    assert((be_bytes(n, width) + tail).take(width as int) =~= be_bytes(n, width));
}

/// The ranges of the three widths in use.
pub proof fn lemma_radix_pow_values()
    ensures
        radix_pow(2) == 0x1_0000,
        radix_pow(4) == 0x1_0000_0000,
        radix_pow(8) == 0x1_0000_0000_0000_0000,
{
    reveal_with_fuel(radix_pow, 9);
}

/// `byteorder::BigEndian::read_u16`: the number that the first two bytes of
/// `buf` state, most significant byte first.  It panics on a shorter slice.
#[verifier::external_body]
pub(crate) fn load_u16(buf: &[u8]) -> (n: u16)
    requires
        buf@.len() >= 2,
    ensures
        n == be_value(buf@.subrange(0, 2)),
{
    BigEndian::read_u16(buf)
}

/// `byteorder::BigEndian::read_u32`: the number that the first four bytes of
/// `buf` state, most significant byte first.  It panics on a shorter slice.
#[verifier::external_body]
pub(crate) fn load_u32(buf: &[u8]) -> (n: u32)
    requires
        buf@.len() >= 4,
    ensures
        n == be_value(buf@.subrange(0, 4)),
{
    BigEndian::read_u32(buf)
}

/// `byteorder::BigEndian::read_u64`: the number that the first eight bytes of
/// `buf` state, most significant byte first.  It panics on a shorter slice.
#[verifier::external_body]
pub(crate) fn load_u64(buf: &[u8]) -> (n: u64)
    requires
        buf@.len() >= 8,
    ensures
        n == be_value(buf@.subrange(0, 8)),
{
    BigEndian::read_u64(buf)
}

/// `byteorder::BigEndian::write_u16`, on a buffer of exactly two bytes: the
/// two base-256 digits of `n`, most significant first.
#[verifier::external_body]
pub(crate) fn store_u16(n: u16) -> (bytes: [u8; 2])
    ensures
        bytes@ == be_bytes(n as nat, 2),
{
    let mut bytes = [0u8; 2];
    BigEndian::write_u16(&mut bytes, n);
    bytes
}

/// `byteorder::BigEndian::write_u32`, on a buffer of exactly four bytes: the
/// four base-256 digits of `n`, most significant first.
#[verifier::external_body]
pub(crate) fn store_u32(n: u32) -> (bytes: [u8; 4])
    ensures
        bytes@ == be_bytes(n as nat, 4),
{
    let mut bytes = [0u8; 4];
    BigEndian::write_u32(&mut bytes, n);
    bytes
}

/// `byteorder::BigEndian::write_u64`, on a buffer of exactly eight bytes: the
/// eight base-256 digits of `n`, most significant first.
#[verifier::external_body]
pub(crate) fn store_u64(n: u64) -> (bytes: [u8; 8])
    ensures
        bytes@ == be_bytes(n as nat, 8),
{
    let mut bytes = [0u8; 8];
    BigEndian::write_u64(&mut bytes, n);
    bytes
}

} // verus!
