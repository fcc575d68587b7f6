//! Small shared pieces: compact peer addresses and decimal timestamps.
use vstd::prelude::*;

use crate::endian::{be_u16, be_u32, read_u16, read_u32};

verus! {

/// An IPv4 peer address: the address as a number in network order, and the
/// port.
#[derive(Clone, Copy, Debug, PartialEq, Eq, Structural, Hash)]
pub struct PeerAddr {
    pub ip: u32,
    pub port: u16,
}

impl PeerAddr {
    /// The four octets of the address, most significant first.
    pub fn octets(&self) -> (r: [u8; 4])
        ensures
            r@ == crate::endian::u32_be(self.ip),
    {
        crate::endian::write_u32(self.ip)
    }
}

/// The address in a six-byte compact peer entry: four address bytes, then
/// two port bytes, both in network order.
pub fn addr_from_buf(buf: &[u8; 6]) -> (r: PeerAddr)
    ensures
        r.ip == be_u32(buf@),
        r.port == be_u16(buf@.subrange(4, 6)),
{
    let s = buf.as_slice();
    let ip = read_u32(s);
    let port = read_u16(&s[4..6]);
    PeerAddr { ip, port }
}

/// A compact peer entry read back gives the address it was written from:
/// the four address bytes, then the two port bytes, in network order.
pub proof fn lemma_compact_entry_read(a: PeerAddr)
    ensures
        ({
            let entry = crate::endian::u32_be(a.ip) + crate::endian::u16_be(a.port);
            &&& entry.len() == 6
            &&& be_u32(entry) == a.ip
            &&& be_u16(entry.subrange(4, 6)) == a.port
        }),
{
    let entry = crate::endian::u32_be(a.ip) + crate::endian::u16_be(a.port);
    crate::endian::lemma_u32_be_roundtrip(a.ip);
    crate::endian::lemma_u16_be_roundtrip(a.port);
    assert(entry.subrange(4, 6) =~= crate::endian::u16_be(a.port));
}

/// The decimal digits of `n`, as ASCII bytes, most significant first.
pub open spec fn decimal(n: nat) -> Seq<u8>
    decreases n,
{
    if n < 10 {
        seq![(48 + n) as u8]
    } else {
        decimal(n / 10).push((48 + n % 10) as u8)
    }
}

/// The number that decimal ASCII digits spell.
pub open spec fn decimal_value(s: Seq<u8>) -> int
    decreases s.len(),
{
    if s.len() == 0 {
        0
    } else {
        decimal_value(s.drop_last()) * 10 + (s.last() - 48)
    }
}

/// The digits of a number spell that number, and are all ASCII digits.
pub proof fn lemma_decimal_roundtrip(n: nat)
    ensures
        decimal_value(decimal(n)) == n,
        decimal(n).len() >= 1,
        forall|i: int| 0 <= i < decimal(n).len() ==> 48 <= #[trigger] decimal(n)[i] <= 57,
    decreases n,
{
    if n >= 10 {
        lemma_decimal_roundtrip(n / 10);
        assert(decimal(n).drop_last() =~= decimal(n / 10));
        assert(decimal(n).last() == 48 + n % 10);
        assert(n == (n / 10) * 10 + n % 10);
        assert forall|i: int| 0 <= i < decimal(n).len() implies 48 <= #[trigger] decimal(n)[i]
            <= 57 by {
            if i < decimal(n).len() - 1 {
                assert(decimal(n)[i] == decimal(n / 10)[i]);
            }
        }
    } else {
        assert(decimal(n).drop_last() =~= Seq::<u8>::empty());
        assert(decimal_value(Seq::<u8>::empty()) == 0);
    }
}

/// Appends the decimal digits of `n` to `out`.
pub fn push_decimal(out: &mut Vec<u8>, n: u64)
    ensures
        final(out)@ == old(out)@ + decimal(n as nat),
    decreases n,
{
    if n < 10 {
        out.push((48 + n) as u8);
        assert(out@ =~= old(out)@ + decimal(n as nat));
    } else {
        push_decimal(out, n / 10);
        out.push((48 + n % 10) as u8);
        assert(out@ =~= old(out)@ + decimal(n as nat));
    }
}

/// The current time in whole seconds since the Unix epoch, read from
/// `std::time::SystemTime` (`duration_since(UNIX_EPOCH)`); `None` when the
/// clock reads before the epoch. Nothing is promised of the value: it is the
/// clock's.
#[verifier::external_body]
fn unix_time_secs() -> Option<u64> {
    match std::time::SystemTime::now().duration_since(std::time::UNIX_EPOCH) {
        Ok(d) => Some(d.as_secs()),
        Err(_) => None,
    }
}

/// `String::from_utf8` on bytes that are all ASCII: the string of those
/// characters.
#[verifier::external_body]
fn ascii_to_string(bytes: Vec<u8>) -> (r: String)
    requires
        forall|i: int| 0 <= i < bytes@.len() ==> bytes@[i] < 128,
    ensures
        r@ == Seq::new(bytes@.len(), |i: int| bytes@[i] as char),
{
    String::from_utf8(bytes).unwrap()
}

/// The decimal digits of a number of seconds.
pub fn timestamp_of(secs: u64) -> (r: String)
    ensures
        r@ == Seq::new(decimal(secs as nat).len(), |i: int| decimal(secs as nat)[i] as char),
{
    let mut digits: Vec<u8> = Vec::new();
    push_decimal(&mut digits, secs);
    proof {
        lemma_decimal_roundtrip(secs as nat);
        assert(digits@ =~= decimal(secs as nat));
    }
    ascii_to_string(digits)
}

/// The current time as decimal seconds since the Unix epoch; `None` when
/// the clock reads before the epoch.
pub fn get_timestamp() -> (r: Option<String>)
    ensures
        r matches Some(t) ==> exists|secs: u64|
            t@ == Seq::new(decimal(secs as nat).len(), |i: int| decimal(secs as nat)[i] as char),
{
    match unix_time_secs() {
        Some(secs) => Some(timestamp_of(secs)),
        None => None,
    }
}

/// The current time as the ASCII decimal digits of the seconds since the
/// Unix epoch; `None` when the clock reads before the epoch.
pub fn timestamp_bytes() -> (r: Option<Vec<u8>>)
    ensures
        r matches Some(t) ==> exists|secs: u64| t@ == decimal(secs as nat),
{
    match unix_time_secs() {
        Some(secs) => {
            let mut digits: Vec<u8> = Vec::new();
            push_decimal(&mut digits, secs);
            assert(digits@ =~= decimal(secs as nat));
            Some(digits)
        },
        None => None,
    }
}

} // verus!
