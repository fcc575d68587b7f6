//! The peer wire protocol: handshakes, messages, pieces and requests.
pub mod msg;
pub mod peer;
pub mod piece;

use vstd::prelude::*;

use crate::error::{expect_eq, ClientError};
use vstd::std_specs::cmp::PartialEqSpec;

verus! {

/// The handshake fields are compared by value: equal vectors of bytes are
/// equal sequences.
proof fn lemma_vec_eq_spec(a: Vec<u8>, b: Vec<u8>)
    ensures
        a.eq_spec(&b) <==> a@ == b@,
{
    if a@ =~= b@ {
    }
}

/// The outcome of checking a received handshake against the one sent: the
/// protocol names (bytes 0..20) must agree, then the info hashes (bytes
/// 28..48); the peer's id is the last twenty bytes received.
pub open spec fn handshake_check(received: Seq<u8>, sent: Seq<u8>) -> Result<Seq<u8>, Seq<char>> {
    if received.subrange(0, 20) != sent.subrange(0, 20) {
        Err("verify_handshake protocol name"@)
    } else if received.subrange(28, 48) != sent.subrange(28, 48) {
        Err("verify_handshake info hash"@)
    } else {
        Ok(received.subrange(received.len() - 20, received.len() as int))
    }
}

/// Checks a received handshake against the one sent and returns the peer's
/// id: the protocol names must agree, then the info hashes. Both must be at
/// least 48 bytes long.
pub fn verify_handshake(received: &[u8], sent: &[u8]) -> (r: Result<[u8; 20], ClientError>)
    requires
        received@.len() >= 48,
        sent@.len() >= 48,
    ensures
        r is Ok <==> handshake_check(received@, sent@) is Ok,
        r matches Ok(id) ==> handshake_check(received@, sent@) == Ok::<Seq<u8>, Seq<char>>(id@),
        r matches Err(e) ==> e matches ClientError::Mismatch { context: c } && handshake_check(
            received@,
            sent@,
        ) == Err::<Seq<u8>, Seq<char>>(c@),
{
    let rp = vstd::slice::slice_to_vec(&received[0..20]);
    let sp = vstd::slice::slice_to_vec(&sent[0..20]);
    proof {
        lemma_vec_eq_spec(rp, sp);
    }
    match expect_eq(rp, sp, "verify_handshake protocol name") {
        Ok(()) => {},
        Err(e) => {
            return Err(e);
        },
    }
    let rh = vstd::slice::slice_to_vec(&received[28..48]);
    let sh = vstd::slice::slice_to_vec(&sent[28..48]);
    proof {
        lemma_vec_eq_spec(rh, sh);
    }
    match expect_eq(rh, sh, "verify_handshake info hash") {
        Ok(()) => {},
        Err(e) => {
            return Err(e);
        },
    }
    let n = received.len();
    let mut id = [0u8; 20];
    let mut k: usize = 0;
    while k < 20
        invariant
            0 <= k <= 20,
            n == received@.len(),
            n >= 48,
            forall|m: int| 0 <= m < k ==> id@[m] == received@[n - 20 + m],
        decreases 20 - k,
    {
        id[k] = received[n - 20 + k];
        k = k + 1;
    }
    assert(id@ =~= received@.subrange(n - 20, n as int));
    Ok(id)
}

/// A received handshake is accepted exactly when its protocol name and its
/// info hash are those sent, whatever its reserved bytes and peer id, and
/// then the peer's id is its last twenty bytes; a wrong name is reported
/// before a wrong info hash.
pub proof fn lemma_handshake_check_law(received: Seq<u8>, sent: Seq<u8>)
    requires
        received.len() >= 48,
        sent.len() >= 48,
    ensures
        handshake_check(received, sent) is Ok <==> (received.subrange(0, 20) == sent.subrange(0, 20)
            && received.subrange(28, 48) == sent.subrange(28, 48)),
        handshake_check(received, sent) is Ok ==> handshake_check(received, sent) == Ok::<Seq<u8>, Seq<char>>(
            received.subrange(received.len() - 20, received.len() as int),
        ),
        received.subrange(0, 20) != sent.subrange(0, 20) ==> handshake_check(received, sent) == Err::<
            Seq<u8>,
            Seq<char>,
        >("verify_handshake protocol name"@),
        received.subrange(0, 20) == sent.subrange(0, 20) && received.subrange(28, 48) != sent.subrange(28, 48)
            ==> handshake_check(received, sent) == Err::<Seq<u8>, Seq<char>>("verify_handshake info hash"@),
        forall|other: Seq<u8>|
            other.len() == received.len() && #[trigger] other.subrange(0, 20) == received.subrange(0, 20)
                && other.subrange(28, 48) == received.subrange(28, 48) ==> (handshake_check(other, sent) is Ok
                <==> handshake_check(received, sent) is Ok),
{
}

} // verus!
pub mod requests;
pub mod bitfield;
pub mod fops;
