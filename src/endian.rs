//! Big-endian integers in octets, by way of the `byteorder` crate.
use byteorder::{BigEndian, ByteOrder};
use vstd::prelude::*;

verus! {

/// The value of two octets read as a big-endian integer.
pub open spec fn be16(hi: u8, lo: u8) -> int {
    hi * 256 + lo
}

/// Relies on byteorder's `BigEndian::read_u16`: the first two octets of
/// `buf`, most significant first (it panics on fewer than two).
#[verifier::external_body]
pub(crate) fn read_u16_be(buf: &[u8]) -> (r: u16)
    requires
        buf@.len() >= 2,
    ensures
        r == be16(buf@[0], buf@[1]),
{
    BigEndian::read_u16(buf)
}

/// Relies on byteorder's `BigEndian::write_u16`: `n` as two octets, most
/// significant first.
#[verifier::external_body]
pub(crate) fn write_u16_be(n: u16) -> (r: [u8; 2])
    ensures
        r@ == seq![(n / 256) as u8, (n % 256) as u8],
{
    let mut buf = [0u8; 2];
    BigEndian::write_u16(&mut buf, n);
    buf
}

} // verus!
