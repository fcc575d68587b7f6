//! Peers: their 20-byte ids, addresses and connection state.
use rand::Rng;
use std::sync::Arc;
use vstd::prelude::*;

use crate::common::{decimal, timestamp_bytes, PeerAddr};
use crate::constants::{CLIENT_PREFIX, CLIENT_VERSION};
use vstd::std_specs::cmp::{PartialEqSpec, PartialEqSpecImpl};
use vstd::string::StringSliceAdditionalSpecFns;

verus! {

/// An ASCII letter or digit.
pub open spec fn is_alphanumeric(b: u8) -> bool {
    (48 <= b <= 57) || (65 <= b <= 90) || (97 <= b <= 122)
}

/// The client's tag: its prefix and version, `-pB0.1.0`.
pub open spec fn client_tag() -> Seq<u8> {
    seq![45u8, 112, 66, 48, 46, 49, 46, 48]
}

/// How many filler characters a peer id gets beside a timestamp of
/// `ts_len` digits: enough to make twenty bytes, or one when the tag and
/// timestamp already leave no room.
pub open spec fn filler_len(ts_len: nat) -> nat {
    if client_tag().len() + ts_len >= 19 {
        0
    } else {
        (19 - (client_tag().len() + ts_len)) as nat
    }
}

/// The id text before it is cut to twenty bytes: tag, `-`, filler,
/// timestamp.
pub open spec fn peer_id_text(filler: Seq<u8>, timestamp: Seq<u8>) -> Seq<u8> {
    client_tag() + seq![45u8] + filler + timestamp
}

/// `n` characters drawn from `rand`'s `Alphanumeric` distribution with the
/// thread-local generator. What is promised: `n` of them, each an ASCII
/// letter or digit; which ones is chance.
#[verifier::external_body]
fn random_alphanumeric(n: usize) -> (r: Vec<u8>)
    ensures
        r@.len() == n,
        forall|i: int| 0 <= i < n ==> is_alphanumeric(#[trigger] r@[i]),
{
    rand::thread_rng().sample_iter(&rand::distributions::Alphanumeric).take(n).collect()
}

/// A peer's 20-byte id.
#[derive(Eq, Hash, Debug)]
pub struct PeerId {
    inner: [u8; 20],
}

impl PartialEq for PeerId {
    fn eq(&self, other: &Self) -> (r: bool) {
        let mut k: usize = 0;
        while k < 20
            invariant
                0 <= k <= 20,
                forall|m: int| 0 <= m < k ==> self.inner@[m] == other.inner@[m],
            decreases 20 - k,
        {
            if self.inner[k] != other.inner[k] {
                return false;
            }
            k = k + 1;
        }
        assert(self.inner@ =~= other.inner@);
        true
    }
}

impl PartialEqSpecImpl for PeerId {
    open spec fn obeys_eq_spec() -> bool {
        true
    }

    open spec fn eq_spec(&self, other: &Self) -> bool {
        self@ == other@
    }
}

impl View for PeerId {
    type V = Seq<u8>;

    closed spec fn view(&self) -> Seq<u8> {
        self.inner@
    }
}

fn tag_bytes() -> (r: Vec<u8>)
    ensures
        r@ == client_tag(),
{
    proof {
        reveal_strlit("-pB");
        reveal_strlit("0.1.0");
        vstd::string::is_ascii_spec_bytes(CLIENT_PREFIX);
        vstd::string::is_ascii_spec_bytes(CLIENT_VERSION);
    }
    let mut r = vstd::slice::slice_to_vec(CLIENT_PREFIX.as_bytes());
    let v = CLIENT_VERSION.as_bytes();
    let mut i: usize = 0;
    let n = v.len();
    while i < n
        invariant
            n == v@.len(),
            0 <= i <= n,
            r@ == CLIENT_PREFIX.spec_bytes() + v@.subrange(0, i as int),
        decreases n - i,
    {
        r.push(v[i]);
        assert(v@.subrange(0, i + 1) =~= v@.subrange(0, i as int).push(v@[i as int]));
        i = i + 1;
    }
    assert(v@.subrange(0, n as int) =~= v@);
    assert(r@ =~= client_tag());
    r
}

impl PeerId {
    /// The id of this client: its tag, `-`, random letters and digits, and
    /// the current time in decimal seconds, cut to twenty bytes; `None` when
    /// the clock reads before the Unix epoch.
    pub fn new() -> (r: Option<Self>)
        ensures
            r matches Some(id) ==> exists|filler: Seq<u8>, secs: u64|
                {
                    &&& filler.len() == filler_len(decimal(secs as nat).len())
                    &&& forall|i: int| 0 <= i < filler.len() ==> is_alphanumeric(#[trigger] filler[i])
                    &&& id@ == peer_id_text(filler, decimal(secs as nat)).take(20)
                },
    {
        let timestamp = match timestamp_bytes() {
            Some(t) => t,
            None => {
                return None;
            },
        };
        let tag_len: usize = 8;
        let cur_len: usize = if timestamp.len() >= 19 - tag_len {
            19
        } else {
            tag_len + timestamp.len()
        };
        let filler = random_alphanumeric(19 - cur_len);
        let r = Self::from_parts(filler.as_slice(), timestamp.as_slice());
        proof {
            let secs = choose|secs: u64| timestamp@ == decimal(secs as nat);
            assert(filler@.len() == filler_len(decimal(secs as nat).len()));
        }
        Some(r)
    }

    /// The id made of the client tag, `-`, `filler` and `timestamp`, cut to
    /// twenty bytes; `filler` must make the text at least twenty bytes long.
    pub fn from_parts(filler: &[u8], timestamp: &[u8]) -> (r: Self)
        requires
            filler@.len() == filler_len(timestamp@.len()),
        ensures
            r@ == peer_id_text(filler@, timestamp@).take(20),
    {
        let mut text = tag_bytes();
        text.push(45u8);
        let mut i: usize = 0;
        let ghost base = text@;
        while i < filler.len()
            invariant
                0 <= i <= filler@.len(),
                text@ == base + filler@.subrange(0, i as int),
                base.len() == 9,
            decreases filler@.len() - i,
        {
            text.push(filler[i]);
            assert(filler@.subrange(0, i + 1) =~= filler@.subrange(0, i as int).push(filler@[i as int]));
            i = i + 1;
        }
        let ghost base2 = text@;
        assert(base2.len() == 9 + filler@.len());
        let mut j: usize = 0;
        while j < timestamp.len() && text.len() < 20
            invariant
                0 <= j <= timestamp@.len(),
                text@ == base2 + timestamp@.subrange(0, j as int),
                base2.len() == 9 + filler@.len(),
                filler@.len() == filler_len(timestamp@.len()),
                text@.len() <= 20,
            decreases timestamp@.len() - j,
        {
            text.push(timestamp[j]);
            assert(timestamp@.subrange(0, j + 1) =~= timestamp@.subrange(0, j as int).push(timestamp@[j as int]));
            j = j + 1;
        }
        assert(filler@.subrange(0, filler@.len() as int) =~= filler@);
        let ghost full = peer_id_text(filler@, timestamp@);
        assert(text@.len() == 20);
        assert(text@ =~= full.take(20));
        let mut inner = [0u8; 20];
        let mut k: usize = 0;
        while k < 20
            invariant
                0 <= k <= 20,
                text@.len() == 20,
                forall|m: int| 0 <= m < k ==> inner@[m] == text@[m],
            decreases 20 - k,
        {
            inner[k] = text[k];
            k = k + 1;
        }
        assert(inner@ =~= full.take(20));
        Self { inner }
    }

    /// The id's bytes.
    pub fn as_bytes(&self) -> (r: &[u8; 20])
        ensures
            r@ == self@,
    {
        &self.inner
    }

    /// The id with the given bytes.
    pub fn from(slice: &[u8; 20]) -> (r: Self)
        ensures
            r@ == slice@,
    {
        Self { inner: *slice }
    }
}

/// Two ids are equal exactly when their bytes are, and `==` on ids compares
/// the bytes.
pub proof fn lemma_peer_id_eq(a: PeerId, b: PeerId)
    ensures
        a == b <==> a@ == b@,
        PartialEqSpec::eq_spec(&a, &b) <==> a@ == b@,
{
    broadcast use vstd::array::group_array_axioms;

    if a@ == b@ {
        assert forall|i: int| 0 <= i < 20 implies a.inner[i] == b.inner[i] by {
            assert(a.inner@[i] == b.inner@[i]);
        }
        assert(a.inner =~= b.inner);
    }
}

/// A peer: where it is, and its id once the handshake told it.
#[derive(Debug, PartialEq)]
pub struct Peer {
    pub addr: PeerAddr,
    pub id: Option<Arc<PeerId>>,
}

impl Peer {
    /// A peer at `addr` whose id is not known yet.
    pub fn from(addr: PeerAddr) -> (r: Self)
        ensures
            r.addr == addr,
            r.id is None,
    {
        Self { addr, id: None }
    }
}

/// Who chokes whom and who is interested, seen from this client.
pub struct State {
    pub am_choked: bool,
    pub am_interested: bool,
    pub peer_choked: bool,
    pub peer_interested: bool,
}

impl State {
    /// The state of a fresh connection: both sides choked, neither
    /// interested.
    pub fn new() -> (r: Self)
        ensures
            r.am_choked && !r.am_interested && r.peer_choked && !r.peer_interested,
    {
        Self { am_choked: true, am_interested: false, peer_choked: true, peer_interested: false }
    }
}

/// The same four flags under the names a client-centred view uses.
#[derive(Debug, PartialEq, Eq, Structural)]
pub struct ConnectionState {
    pub client_choked: bool,
    pub client_interested: bool,
    pub peer_choked: bool,
    pub peer_interested: bool,
}

impl ConnectionState {
    /// Both sides choked, neither interested.
    pub fn new() -> (r: Self)
        ensures
            r.client_choked && !r.client_interested && r.peer_choked && !r.peer_interested,
    {
        Self {
            client_choked: true,
            client_interested: false,
            peer_choked: true,
            peer_interested: false,
        }
    }
}

} // verus!
