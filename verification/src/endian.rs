//! Big-endian (network order) integers on the wire, read and written
//! through `byteorder`.
use byteorder::{BigEndian, ByteOrder};
use vstd::prelude::*;

verus! {

/// The value of two bytes read in network order.
pub open spec fn be_u16(s: Seq<u8>) -> int {
    s[0] * 256 + s[1]
}

/// The value of four bytes read in network order.
pub open spec fn be_u32(s: Seq<u8>) -> int {
    s[0] * 16777216 + s[1] * 65536 + s[2] * 256 + s[3]
}

/// The value of eight bytes read in network order.
pub open spec fn be_u64(s: Seq<u8>) -> int {
    be_u32(s) * 4294967296 + be_u32(s.subrange(4, 8))
}

/// The two bytes of `n` in network order.
pub open spec fn u16_be(n: u16) -> Seq<u8> {
    seq![(n / 256) as u8, (n % 256) as u8]
}

/// The four bytes of `n` in network order.
pub open spec fn u32_be(n: u32) -> Seq<u8> {
    seq![
        (n / 16777216) as u8,
        ((n / 65536) % 256) as u8,
        ((n / 256) % 256) as u8,
        (n % 256) as u8,
    ]
}

/// The eight bytes of `n` in network order.
pub open spec fn u64_be(n: u64) -> Seq<u8> {
    u32_be((n / 4294967296) as u32) + u32_be((n % 4294967296) as u32)
}

/// Writing eight bytes and reading them back gives the same number.
pub proof fn lemma_u64_be_roundtrip(n: u64)
    ensures
        u64_be(n).len() == 8,
        be_u64(u64_be(n)) == n,
{
    let hi = (n / 4294967296) as u32;
    let lo = (n % 4294967296) as u32;
    lemma_u32_be_roundtrip(hi);
    lemma_u32_be_roundtrip(lo);
    let s = u64_be(n);
    assert(s.subrange(4, 8) =~= u32_be(lo));
    assert(be_u32(s) == be_u32(u32_be(hi)));
}

/// Writing four bytes and reading them back gives the same number.
pub proof fn lemma_u32_be_roundtrip(n: u32)
    ensures
        u32_be(n).len() == 4,
        be_u32(u32_be(n)) == n,
{
    let b0 = n / 16777216;
    let b1 = (n / 65536) % 256;
    let b2 = (n / 256) % 256;
    let b3 = n % 256;
    assert(b0 * 16777216 + b1 * 65536 + b2 * 256 + b3 == n) by (nonlinear_arith)
        requires
            b0 == n / 16777216,
            b1 == (n / 65536) % 256,
            b2 == (n / 256) % 256,
            b3 == n % 256,
    ;
}

/// Writing two bytes and reading them back gives the same number.
pub proof fn lemma_u16_be_roundtrip(n: u16)
    ensures
        u16_be(n).len() == 2,
        be_u16(u16_be(n)) == n,
{
}

/// A number read from four bytes fits in a `u32`.
pub proof fn lemma_be_u32_bounds(s: Seq<u8>)
    requires
        s.len() >= 4,
    ensures
        0 <= be_u32(s) <= u32::MAX,
{
    let (a, b, c, d) = (s[0] as int, s[1] as int, s[2] as int, s[3] as int);
    assert(0 <= a * 16777216 + b * 65536 + c * 256 + d <= u32::MAX) by (nonlinear_arith)
        requires
            0 <= a < 256,
            0 <= b < 256,
            0 <= c < 256,
            0 <= d < 256,
    ;
}

/// `BigEndian::read_u16` from `byteorder`: the first two bytes of `buf` in
/// network order. It panics on a buffer shorter than two bytes, which
/// `requires` leaves out.
#[verifier::external_body]
pub(crate) fn read_u16(buf: &[u8]) -> (r: u16)
    requires
        buf@.len() >= 2,
    ensures
        r == be_u16(buf@),
{
    BigEndian::read_u16(buf)
}

/// `BigEndian::read_u32` from `byteorder`: the first four bytes of `buf` in
/// network order. It panics on a buffer shorter than four bytes, which
/// `requires` leaves out.
#[verifier::external_body]
pub(crate) fn read_u32(buf: &[u8]) -> (r: u32)
    requires
        buf@.len() >= 4,
    ensures
        r == be_u32(buf@),
{
    BigEndian::read_u32(buf)
}

/// `BigEndian::read_u64` from `byteorder`: the first eight bytes of `buf` in
/// network order. It panics on a buffer shorter than eight bytes, which
/// `requires` leaves out.
#[verifier::external_body]
pub(crate) fn read_u64(buf: &[u8]) -> (r: u64)
    requires
        buf@.len() >= 8,
    ensures
        r == be_u64(buf@),
{
    BigEndian::read_u64(buf)
}

/// `BigEndian::write_u16` from `byteorder`, into a fresh two-byte array: the
/// bytes of `n` in network order.
#[verifier::external_body]
pub(crate) fn write_u16(n: u16) -> (r: [u8; 2])
    ensures
        r@ == u16_be(n),
{
    let mut buf = [0u8; 2];
    BigEndian::write_u16(&mut buf, n);
    buf
}

/// `BigEndian::write_u32` from `byteorder`, into a fresh four-byte array: the
/// bytes of `n` in network order.
#[verifier::external_body]
pub(crate) fn write_u32(n: u32) -> (r: [u8; 4])
    ensures
        r@ == u32_be(n),
{
    let mut buf = [0u8; 4];
    BigEndian::write_u32(&mut buf, n);
    buf
}

/// `BigEndian::write_u64` from `byteorder`, into a fresh eight-byte array: the
/// bytes of `n` in network order.
#[verifier::external_body]
pub(crate) fn write_u64(n: u64) -> (r: [u8; 8])
    ensures
        r@ == u64_be(n),
{
    let mut buf = [0u8; 8];
    BigEndian::write_u64(&mut buf, n);
    buf
}

/// Appends the network-order bytes of `n` to `out`.
pub fn push_u32(out: &mut Vec<u8>, n: u32)
    ensures
        final(out)@ == old(out)@ + u32_be(n),
{
    let b = write_u32(n);
    out.push(b[0]);
    out.push(b[1]);
    out.push(b[2]);
    out.push(b[3]);
    assert(out@ =~= old(out)@ + u32_be(n));
}

/// Appends the network-order bytes of `n` to `out`.
pub fn push_u64(out: &mut Vec<u8>, n: u64)
    ensures
        final(out)@ == old(out)@ + u64_be(n),
{
    let b = write_u64(n);
    let mut i: usize = 0;
    let ghost start = out@;
    while i < 8
        invariant
            0 <= i <= 8,
            b@ == u64_be(n),
            out@ == start + b@.subrange(0, i as int),
        decreases 8 - i,
    {
        out.push(b[i]);
        assert(b@.subrange(0, i + 1) =~= b@.subrange(0, i as int).push(b@[i as int]));
        i = i + 1;
    }
    assert(b@.subrange(0, 8) =~= b@);
}

/// Appends the network-order bytes of `n` to `out`.
pub fn push_u16(out: &mut Vec<u8>, n: u16)
    ensures
        final(out)@ == old(out)@ + u16_be(n),
{
    let b = write_u16(n);
    out.push(b[0]);
    out.push(b[1]);
    assert(out@ =~= old(out)@ + u16_be(n));
}

} // verus!
