//! The UDP tracker protocol (BEP 15): the packets of the connect and
//! announce exchanges.
use rand::Rng;
use vstd::prelude::*;

use crate::endian::{be_u32, be_u64, push_u16, push_u32, push_u64, read_u32, read_u64, u16_be, u32_be, u64_be};
use crate::error::{expect_eq, ClientError};

verus! {

/// The magic number that opens a connect request.
pub const PROTOCOL_ID: u64 = 4497486125440;

pub const ACTION_CONNECT: u32 = 0;

pub const ACTION_ANNOUNCE: u32 = 1;

/// A transaction id drawn with `rand`'s thread-local generator
/// (`Rng::gen::<u32>`). Nothing is promised of the value: it is chance.
#[verifier::external_body]
fn random_tid() -> u32 {
    rand::thread_rng().gen()
}

/// A connect request: the magic number, the connect action, the
/// transaction id.
pub open spec fn connect_packet(tid: u32) -> Seq<u8> {
    u64_be(PROTOCOL_ID) + u32_be(ACTION_CONNECT) + u32_be(tid)
}

/// An announce request for the connection `cid`: action, transaction id,
/// info hash, peer id, downloaded 0, left 100, uploaded 0, event 2, no IP,
/// key 0, as many peers as the tracker likes (-1), and the port.
pub open spec fn announce_packet(cid: u64, tid: u32, info_hash: Seq<u8>, peer_id: Seq<u8>, port: u16) -> Seq<u8> {
    u64_be(cid) + u32_be(ACTION_ANNOUNCE) + u32_be(tid) + info_hash + peer_id + u64_be(0) + u64_be(100)
        + u64_be(0) + u32_be(2) + u32_be(0) + u32_be(0) + u32_be(0xffff_ffff) + u16_be(port)
}

/// The connect request with transaction id `tid`.
pub fn connect_packet_bytes(tid: u32) -> (r: Vec<u8>)
    ensures
        r@ == connect_packet(tid),
        r@.len() == 16,
{
    let mut buf: Vec<u8> = Vec::new();
    push_u64(&mut buf, PROTOCOL_ID);
    push_u32(&mut buf, ACTION_CONNECT);
    push_u32(&mut buf, tid);
    assert(buf@ =~= connect_packet(tid));
    buf
}

/// A fresh transaction id and the connect request that carries it.
pub fn connect_request() -> (r: (u32, Vec<u8>))
    ensures
        r.1@ == connect_packet(r.0),
{
    let tid = random_tid();
    (tid, connect_packet_bytes(tid))
}

/// The announce request with transaction id `tid`; it is 98 bytes long.
pub fn announce_packet_bytes(cid: u64, tid: u32, info_hash: &[u8; 20], peer_id: &[u8; 20], port: u16) -> (r: Vec<u8>)
    ensures
        r@ == announce_packet(cid, tid, info_hash@, peer_id@, port),
        r@.len() == 98,
{
    let mut buf: Vec<u8> = Vec::new();
    push_u64(&mut buf, cid);
    push_u32(&mut buf, ACTION_ANNOUNCE);
    push_u32(&mut buf, tid);
    let ghost head = buf@;
    let mut k: usize = 0;
    while k < 20
        invariant
            0 <= k <= 20,
            buf@ == head + info_hash@.subrange(0, k as int),
        decreases 20 - k,
    {
        buf.push(info_hash[k]);
        assert(info_hash@.subrange(0, k + 1) =~= info_hash@.subrange(0, k as int).push(info_hash@[k as int]));
        k = k + 1;
    }
    let ghost head2 = buf@;
    let mut k: usize = 0;
    while k < 20
        invariant
            0 <= k <= 20,
            buf@ == head2 + peer_id@.subrange(0, k as int),
        decreases 20 - k,
    {
        buf.push(peer_id[k]);
        assert(peer_id@.subrange(0, k + 1) =~= peer_id@.subrange(0, k as int).push(peer_id@[k as int]));
        k = k + 1;
    }
    assert(info_hash@.subrange(0, 20) =~= info_hash@);
    assert(peer_id@.subrange(0, 20) =~= peer_id@);
    push_u64(&mut buf, 0);
    push_u64(&mut buf, 100);
    push_u64(&mut buf, 0);
    push_u32(&mut buf, 2);
    push_u32(&mut buf, 0);
    push_u32(&mut buf, 0);
    push_u32(&mut buf, 0xffff_ffff);
    push_u16(&mut buf, port);
    assert(buf@ =~= announce_packet(cid, tid, info_hash@, peer_id@, port));
    buf
}

/// A fresh transaction id and the announce request that carries it.
pub fn announce_request(cid: u64, info_hash: &[u8; 20], peer_id: &[u8; 20], port: u16) -> (r: (u32, Vec<u8>))
    ensures
        r.1@ == announce_packet(cid, r.0, info_hash@, peer_id@, port),
{
    let tid = random_tid();
    (tid, announce_packet_bytes(cid, tid, info_hash, peer_id, port))
}

/// The action and transaction id of a response agree with what was sent.
pub open spec fn response_matches(res: Seq<u8>, action: u32, tid: u32) -> bool {
    be_u32(res.subrange(0, 4)) == action && be_u32(res.subrange(4, 8)) == tid
}

fn header_fields(res: &[u8]) -> (r: (u32, u32))
    requires
        res@.len() >= 8,
    ensures
        r.0 == be_u32(res@.subrange(0, 4)),
        r.1 == be_u32(res@.subrange(4, 8)),
{
    let action = read_u32(&res[0..4]);
    let tid = read_u32(&res[4..8]);
    (action, tid)
}

/// Whether a response is long enough for what `parse_connect_response`
/// reads of it: its header, and the connection id when the header matches.
pub fn connect_readable(res: &[u8], tid: u32) -> (r: bool)
    ensures
        r == (res@.len() >= 8 && (response_matches(res@, ACTION_CONNECT, tid) ==> res@.len() >= 16)),
{
    if res.len() < 8 {
        return false;
    }
    let (action, received_tid) = header_fields(res);
    !(action == ACTION_CONNECT && received_tid == tid) || res.len() >= 16
}

/// Whether a response is long enough for what `parse_announce_response`
/// reads of it: the action, then the transaction id when the action
/// matches, then the whole 20-byte header when both match.
pub fn announce_readable(res: &[u8], tid: u32) -> (r: bool)
    ensures
        r == (res@.len() >= 4 && (be_u32(res@.subrange(0, 4)) == ACTION_ANNOUNCE ==> res@.len() >= 8) && (
        response_matches(res@, ACTION_ANNOUNCE, tid) ==> res@.len() >= 20)),
{
    if res.len() < 4 {
        return false;
    }
    let action = read_u32(&res[0..4]);
    if action != ACTION_ANNOUNCE {
        return true;
    }
    if res.len() < 8 {
        return false;
    }
    let received_tid = read_u32(&res[4..8]);
    received_tid != tid || res.len() >= 20
}

/// The connection id in a connect response, once its action and transaction
/// id are checked. A response too short for what is read is refused by
/// `requires`.
pub fn parse_connect_response(res: &[u8], tid: u32) -> (r: Result<u64, ClientError>)
    requires
        res@.len() >= 8,
        response_matches(res@, ACTION_CONNECT, tid) ==> res@.len() >= 16,
    ensures
        r is Ok <==> response_matches(res@, ACTION_CONNECT, tid),
        r matches Ok(cid) ==> cid == be_u64(res@.subrange(8, res@.len() as int)),
        r matches Err(e) ==> e matches ClientError::Mismatch { context: c } && (c@ == (
        if be_u32(res@.subrange(0, 4)) != ACTION_CONNECT {
            "connect action"@
        } else {
            "connect tid"@
        })),
{
    let (action, received_tid) = header_fields(res);
    match expect_eq(action, ACTION_CONNECT, "connect action") {
        Ok(()) => {},
        Err(e) => {
            return Err(e);
        },
    }
    match expect_eq(received_tid, tid, "connect tid") {
        Ok(()) => {},
        Err(e) => {
            return Err(e);
        },
    }
    Ok(read_u64(&res[8..res.len()]))
}

/// The compact peer list of an announce response (everything after its
/// 20-byte header), once its action and then its transaction id are
/// checked. A response too short for what is read is refused by `requires`.
pub fn parse_announce_response(res: &[u8], tid: u32) -> (r: Result<Vec<u8>, ClientError>)
    requires
        res@.len() >= 4,
        be_u32(res@.subrange(0, 4)) == ACTION_ANNOUNCE ==> res@.len() >= 8,
        response_matches(res@, ACTION_ANNOUNCE, tid) ==> res@.len() >= 20,
    ensures
        r is Ok <==> response_matches(res@, ACTION_ANNOUNCE, tid),
        r matches Ok(peers) ==> peers@ == res@.subrange(20, res@.len() as int),
        r matches Err(e) ==> e matches ClientError::Mismatch { context: c } && (c@ == (
        if be_u32(res@.subrange(0, 4)) != ACTION_ANNOUNCE {
            "announce action"@
        } else {
            "announce tid"@
        })),
{
    let action = read_u32(&res[0..4]);
    match expect_eq(action, ACTION_ANNOUNCE, "announce action") {
        Ok(()) => {},
        Err(e) => {
            return Err(e);
        },
    }
    let received_tid = read_u32(&res[4..8]);
    match expect_eq(received_tid, tid, "announce tid") {
        Ok(()) => {},
        Err(e) => {
            return Err(e);
        },
    }
    Ok(vstd::slice::slice_to_vec(&res[20..res.len()]))
}

/// A connect response as a tracker writes it: the connect action, the
/// transaction id and the connection id.
pub open spec fn connect_response(tid: u32, cid: u64) -> Seq<u8> {
    u32_be(ACTION_CONNECT) + u32_be(tid) + u64_be(cid)
}

/// A connect response that carries the request's transaction id is
/// accepted, and gives back the connection id it carries.
pub proof fn lemma_connect_response_read(tid: u32, cid: u64)
    ensures
        ({
            let res = connect_response(tid, cid);
            &&& res.len() == 16
            &&& response_matches(res, ACTION_CONNECT, tid)
            &&& be_u64(res.subrange(8, res.len() as int)) == cid
        }),
{
    let res = connect_response(tid, cid);
    crate::endian::lemma_u32_be_roundtrip(ACTION_CONNECT);
    crate::endian::lemma_u32_be_roundtrip(tid);
    crate::endian::lemma_u64_be_roundtrip(cid);
    assert(res.subrange(0, 4) =~= u32_be(ACTION_CONNECT));
    assert(res.subrange(4, 8) =~= u32_be(tid));
    assert(res.subrange(8, 16) =~= u64_be(cid));
}

/// An announce response as a tracker writes it: the announce action, the
/// transaction id, the interval, the leecher and seeder counts, and the
/// compact peer list.
pub open spec fn announce_response(tid: u32, interval: u32, leechers: u32, seeders: u32, peers: Seq<u8>) -> Seq<u8> {
    u32_be(ACTION_ANNOUNCE) + u32_be(tid) + u32_be(interval) + u32_be(leechers) + u32_be(seeders) + peers
}

/// An announce response that carries the request's transaction id is
/// accepted, and gives back the peer list it carries.
pub proof fn lemma_announce_response_read(tid: u32, interval: u32, leechers: u32, seeders: u32, peers: Seq<u8>)
    ensures
        ({
            let res = announce_response(tid, interval, leechers, seeders, peers);
            &&& res.len() == 20 + peers.len()
            &&& response_matches(res, ACTION_ANNOUNCE, tid)
            &&& res.subrange(20, res.len() as int) == peers
        }),
{
    let res = announce_response(tid, interval, leechers, seeders, peers);
    crate::endian::lemma_u32_be_roundtrip(ACTION_ANNOUNCE);
    crate::endian::lemma_u32_be_roundtrip(tid);
    crate::endian::lemma_u32_be_roundtrip(interval);
    crate::endian::lemma_u32_be_roundtrip(leechers);
    crate::endian::lemma_u32_be_roundtrip(seeders);
    assert(res.subrange(0, 4) =~= u32_be(ACTION_ANNOUNCE));
    assert(res.subrange(4, 8) =~= u32_be(tid));
    assert(res.subrange(20, res.len() as int) =~= peers);
}

/// Every field of an announce request sits where BEP 15 puts it and reads
/// back as given: the connection id at 0..8, the announce action at 8..12,
/// the transaction id at 12..16, the info hash at 16..36, the peer id at
/// 36..56, then downloaded 0, left 100, uploaded 0, the started event, no
/// IP, key 0, as many peers as the tracker likes, and the port at 96..98.
pub proof fn lemma_announce_packet_fields(cid: u64, tid: u32, info_hash: Seq<u8>, peer_id: Seq<u8>, port: u16)
    requires
        info_hash.len() == 20,
        peer_id.len() == 20,
    ensures
        ({
            let p = announce_packet(cid, tid, info_hash, peer_id, port);
            &&& p.len() == 98
            &&& be_u64(p.subrange(0, 8)) == cid
            &&& be_u32(p.subrange(8, 12)) == ACTION_ANNOUNCE
            &&& be_u32(p.subrange(12, 16)) == tid
            &&& p.subrange(16, 36) == info_hash
            &&& p.subrange(36, 56) == peer_id
            &&& be_u64(p.subrange(56, 64)) == 0
            &&& be_u64(p.subrange(64, 72)) == 100
            &&& be_u64(p.subrange(72, 80)) == 0
            &&& be_u32(p.subrange(80, 84)) == 2
            &&& be_u32(p.subrange(84, 88)) == 0
            &&& be_u32(p.subrange(88, 92)) == 0
            &&& be_u32(p.subrange(92, 96)) == 0xffff_ffff
            &&& crate::endian::be_u16(p.subrange(96, 98)) == port
        }),
{
    let p = announce_packet(cid, tid, info_hash, peer_id, port);
    crate::endian::lemma_u64_be_roundtrip(cid);
    crate::endian::lemma_u64_be_roundtrip(0);
    crate::endian::lemma_u64_be_roundtrip(100);
    crate::endian::lemma_u32_be_roundtrip(ACTION_ANNOUNCE);
    crate::endian::lemma_u32_be_roundtrip(tid);
    crate::endian::lemma_u32_be_roundtrip(2);
    crate::endian::lemma_u32_be_roundtrip(0);
    crate::endian::lemma_u32_be_roundtrip(0xffff_ffff);
    crate::endian::lemma_u16_be_roundtrip(port);
    assert(p.subrange(0, 8) =~= u64_be(cid));
    assert(p.subrange(8, 12) =~= u32_be(ACTION_ANNOUNCE));
    assert(p.subrange(12, 16) =~= u32_be(tid));
    assert(p.subrange(16, 36) =~= info_hash);
    assert(p.subrange(36, 56) =~= peer_id);
    assert(p.subrange(56, 64) =~= u64_be(0));
    assert(p.subrange(64, 72) =~= u64_be(100));
    assert(p.subrange(72, 80) =~= u64_be(0));
    assert(p.subrange(80, 84) =~= u32_be(2));
    assert(p.subrange(84, 88) =~= u32_be(0));
    assert(p.subrange(88, 92) =~= u32_be(0));
    assert(p.subrange(92, 96) =~= u32_be(0xffff_ffff));
    assert(p.subrange(96, 98) =~= u16_be(port));
}

/// A connect request is the protocol's magic number, the connect action and
/// the transaction id, each reading back as given.
pub proof fn lemma_connect_packet_fields(tid: u32)
    ensures
        ({
            let p = connect_packet(tid);
            &&& p.len() == 16
            &&& be_u64(p.subrange(0, 8)) == PROTOCOL_ID
            &&& be_u32(p.subrange(8, 12)) == ACTION_CONNECT
            &&& be_u32(p.subrange(12, 16)) == tid
        }),
{
    let p = connect_packet(tid);
    crate::endian::lemma_u64_be_roundtrip(PROTOCOL_ID);
    crate::endian::lemma_u32_be_roundtrip(ACTION_CONNECT);
    crate::endian::lemma_u32_be_roundtrip(tid);
    assert(p.subrange(0, 8) =~= u64_be(PROTOCOL_ID));
    assert(p.subrange(8, 12) =~= u32_be(ACTION_CONNECT));
    assert(p.subrange(12, 16) =~= u32_be(tid));
}

} // verus!
