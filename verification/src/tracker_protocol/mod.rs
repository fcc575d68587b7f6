//! Finding peers through trackers: tracker URLs, compact peer lists.
pub mod http;
pub mod metadata;
pub mod pattern;
pub mod udp;

use vstd::prelude::*;

use std::collections::HashSet;

use crate::common::{addr_from_buf, PeerAddr};
use crate::error::ClientError;
use metadata::Metadata;
use pattern::{first_capture, regex_compiles, regex_first_group};

verus! {

broadcast use vstd::std_specs::hash::group_hash_axioms;

/// How a tracker is spoken to.
#[derive(Debug, PartialEq, Eq, Structural)]
pub enum Protocol {
    UDP,
    HTTP,
}

/// The six-byte entries of a compact peer list.
pub open spec fn chunks6(buf: Seq<u8>) -> Seq<Seq<u8>> {
    Seq::new((buf.len() / 6) as nat, |k: int| buf.subrange(6 * k, 6 * k + 6))
}

/// Splits a compact peer list into its six-byte entries. A list whose length
/// is not a multiple of six is refused by `requires`.
pub fn parse_peers(buf: &[u8]) -> (r: Vec<[u8; 6]>)
    requires
        buf@.len() % 6 == 0,
    ensures
        r@.len() == buf@.len() / 6,
        forall|k: int| 0 <= k < r@.len() ==> #[trigger] r@[k]@ == chunks6(buf@)[k],
{
    let blen = buf.len();
    let n = blen / 6;
    let mut out: Vec<[u8; 6]> = Vec::new();
    let mut k: usize = 0;
    while k < n
        invariant
            n == buf@.len() / 6,
            blen == buf@.len(),
            0 <= k <= n,
            out@.len() == k,
            forall|j: int| 0 <= j < k ==> #[trigger] out@[j]@ == buf@.subrange(6 * j, 6 * j + 6),
        decreases n - k,
    {
        let mut chunk = [0u8; 6];
        let mut m: usize = 0;
        assert(6 * k + 6 <= buf@.len()) by (nonlinear_arith)
            requires
                k < n,
                n == buf@.len() / 6,
        ;
        while m < 6
            invariant
                0 <= m <= 6,
                k < n,
                n == buf@.len() / 6,
                6 * k + 6 <= buf@.len(),
                blen == buf@.len(),
                forall|i: int| 0 <= i < m ==> chunk@[i] == buf@[6 * k + i],
            decreases 6 - m,
        {
            chunk[m] = buf[6 * k + m];
            m = m + 1;
        }
        assert(chunk@ =~= buf@.subrange(6 * k as int, 6 * k + 6));
        out.push(chunk);
        k = k + 1;
    }
    out
}

/// The addresses in a compact peer list.
pub fn peer_addrs(buf: &[u8]) -> (r: Vec<PeerAddr>)
    requires
        buf@.len() % 6 == 0,
    ensures
        r@.len() == buf@.len() / 6,
        forall|k: int|
            0 <= k < r@.len() ==> #[trigger] r@[k].ip == crate::endian::be_u32(chunks6(buf@)[k])
                && r@[k].port == crate::endian::be_u16(chunks6(buf@)[k].subrange(4, 6)),
{
    let chunks = parse_peers(buf);
    let mut out: Vec<PeerAddr> = Vec::new();
    let n = chunks.len();
    let mut k: usize = 0;
    while k < n
        invariant
            n == chunks@.len(),
            chunks@.len() == buf@.len() / 6,
            forall|j: int| 0 <= j < chunks@.len() ==> #[trigger] chunks@[j]@ == chunks6(buf@)[j],
            0 <= k <= n,
            out@.len() == k,
            forall|j: int|
                0 <= j < k ==> #[trigger] out@[j].ip == crate::endian::be_u32(chunks6(buf@)[j])
                    && out@[j].port == crate::endian::be_u16(chunks6(buf@)[j].subrange(4, 6)),
        decreases n - k,
    {
        let a = addr_from_buf(&chunks[k]);
        out.push(a);
        assert(chunks@[k as int]@ == chunks6(buf@)[k as int]);
        k = k + 1;
    }
    out
}

/// The pattern that picks `host:port` out of a `udp://` tracker URL.
pub const UDP_AUTHORITY_PATTERN: &'static str = "//(.+:[0-9]+)";

/// `str::starts_with` from std: whether `s` begins with `prefix`.
#[verifier::external_body]
fn starts_with(s: &str, prefix: &str) -> (r: bool)
    ensures
        r == (prefix@.len() <= s@.len() && s@.subrange(0, prefix@.len() as int) == prefix@),
{
    s.starts_with(prefix)
}

/// Whether `s` begins with `prefix`.
pub open spec fn has_prefix(s: Seq<char>, prefix: Seq<char>) -> bool {
    prefix.len() <= s.len() && s.subrange(0, prefix.len() as int) == prefix
}

/// What a tracker URL names: for `udp://` the protocol and the `host:port`
/// that the pattern's group matches (nothing when it does not match), for
/// `http://` and `https://` the URL whole, for anything else nothing.
pub open spec fn url_target(url: Seq<char>) -> Option<(Protocol, Seq<char>)> {
    if has_prefix(url, "udp://"@) {
        match regex_first_group(UDP_AUTHORITY_PATTERN@, url) {
            Some(a) => Some((Protocol::UDP, a)),
            None => None,
        }
    } else if has_prefix(url, "http://"@) || has_prefix(url, "https://"@) {
        Some((Protocol::HTTP, url))
    } else {
        None
    }
}

/// A `udp://` URL that has no answer: the pattern does not compile, or it
/// finds no `host:port` in the URL.
pub open spec fn udp_unreadable(url: Seq<char>) -> bool {
    &&& has_prefix(url, "udp://"@)
    &&& (!regex_compiles(UDP_AUTHORITY_PATTERN@) || regex_first_group(UDP_AUTHORITY_PATTERN@, url) is None)
}

/// `r` is what parsing `url` gives: its target, the pattern's compile error
/// for a `udp://` URL when the pattern does not compile, or the error for an
/// unknown scheme.
pub open spec fn parsed_as(r: Result<(Protocol, String), ClientError>, url: Seq<char>) -> bool {
    &&& match r {
        Ok((p, a)) => url_target(url) == Some((p, a@)),
        Err(ClientError::BadPattern) => has_prefix(url, "udp://"@) && !regex_compiles(UDP_AUTHORITY_PATTERN@),
        Err(ClientError::UnknownTrackerUrl { url: u }) => u@ == url && url_target(url) is None
            && !has_prefix(url, "udp://"@),
        Err(_) => false,
    }
    &&& !has_prefix(url, "udp://"@) ==> (r is Ok <==> url_target(url) is Some)
    &&& has_prefix(url, "udp://"@) && regex_compiles(UDP_AUTHORITY_PATTERN@) ==> r is Ok
}

/// Which protocol a tracker URL names, and what to contact: the `host:port`
/// of a `udp://` URL (what the pattern's group matches), or an `http://` or
/// `https://` URL whole. A `udp://` URL the pattern does not match is refused
/// by `requires`.
pub fn parse_tracker_url(url: &str) -> (r: Result<(Protocol, String), ClientError>)
    requires
        has_prefix(url@, "udp://"@) ==> regex_first_group(UDP_AUTHORITY_PATTERN@, url@) is Some,
    ensures
        parsed_as(r, url@),
{
    if starts_with(url, "udp://") {
        let addr = match first_capture(UDP_AUTHORITY_PATTERN, url) {
            Ok(c) => c.unwrap(),
            Err(_) => {
                return Err(ClientError::BadPattern);
            },
        };
        return Ok((Protocol::UDP, addr));
    } else if starts_with(url, "http://") || starts_with(url, "https://") {
        return Ok((Protocol::HTTP, url.to_owned()));
    }
    Err(ClientError::UnknownTrackerUrl { url: url.to_owned() })
}

/// Like `parse_tracker_url`, but `None` for a `udp://` URL that has no
/// answer (the pattern does not compile or finds no `host:port`).
pub fn try_parse_tracker_url(url: &str) -> (r: Option<Result<(Protocol, String), ClientError>>)
    ensures
        r is None <==> udp_unreadable(url@),
        r matches Some(res) ==> parsed_as(res, url@),
{
    if starts_with(url, "udp://") {
        match first_capture(UDP_AUTHORITY_PATTERN, url) {
            Ok(Some(_)) => {},
            _ => {
                return None;
            },
        }
    }
    Some(parse_tracker_url(url))
}

/// Every tracker URL of a torrent: the announce list flattened, then the
/// main announce URL.
pub open spec fn announce_urls(list: Option<Vec<Vec<String>>>, announce: Option<String>) -> Seq<Seq<char>> {
    let tiers: Seq<Seq<Seq<char>>> = match list {
        Some(l) => l@.map_values(|t: Vec<String>| t@.map_values(|s: String| s@)),
        None => Seq::empty(),
    };
    tiers.flatten() + match announce {
        Some(a) => seq![a@],
        None => Seq::empty(),
    }
}

/// All tracker URLs of a torrent: the announce list's tiers in order, then
/// the main announce URL.
pub fn full_announce_list(metadata: &Metadata) -> (r: Vec<String>)
    ensures
        r@.map_values(|s: String| s@) == announce_urls(metadata.announce_list, metadata.announce),
{
    let mut flattened: Vec<String> = Vec::new();
    let ghost tiers: Seq<Seq<Seq<char>>> = match metadata.announce_list {
        Some(ref l) => l@.map_values(|t: Vec<String>| t@.map_values(|s: String| s@)),
        None => Seq::empty(),
    };
    match &metadata.announce_list {
        Some(list) => {
            for i in 0..list.len()
                invariant
                    tiers == list@.map_values(|t: Vec<String>| t@.map_values(|s: String| s@)),
                    flattened@.map_values(|s: String| s@) == tiers.take(i as int).flatten(),
            {
                let tier = &list[i];
                let ghost before = flattened@.map_values(|s: String| s@);
                for j in 0..tier.len()
                    invariant
                        tier@ == list@[i as int]@,
                        flattened@.map_values(|s: String| s@) == before + tier@.take(j as int).map_values(|s: String| s@),
                {
                    let ghost prev = flattened@;
                    let c = tier[j].clone();
                    flattened.push(c);
                    assert(flattened@ =~= prev.push(c));
                    assert(flattened@.map_values(|s: String| s@) =~= prev.map_values(|s: String| s@).push(c@));
                    assert(tier@.take(j + 1) =~= tier@.take(j as int).push(tier@[j as int]));
                    assert(tier@.take(j + 1).map_values(|s: String| s@) =~= tier@.take(j as int).map_values(|s: String| s@).push(tier@[j as int]@));
                    assert(flattened@.map_values(|s: String| s@) =~= before + tier@.take(j + 1).map_values(|s: String| s@));
                }
                assert(tier@.take(tier@.len() as int) =~= tier@);
                assert(tiers.take(i + 1).drop_last() =~= tiers.take(i as int));
                assert(tiers.take(i + 1) =~= tiers.take(i as int).push(tiers[i as int]));
                proof {
                    tiers.take(i as int).lemma_flatten_push(tiers[i as int]);
                }
                assert(tiers[i as int] == tier@.map_values(|s: String| s@));
            }
            assert(tiers.take(list@.len() as int) =~= tiers);
        },
        None => {
            assert(flattened@.map_values(|s: String| s@) =~= tiers.flatten());
        },
    }
    let ghost mid = flattened@.map_values(|s: String| s@);
    if let Some(x) = &metadata.announce {
        flattened.push(x.clone());
        assert(flattened@.map_values(|s: String| s@) =~= mid.push(x@));
    }
    assert(flattened@.map_values(|s: String| s@) =~= announce_urls(metadata.announce_list, metadata.announce));
    flattened
}

/// The trackers that a list of URLs names, in order: the target of each URL
/// that has one; URLs of an unknown scheme are left out.
pub open spec fn targets(urls: Seq<Seq<char>>) -> Seq<(Protocol, Seq<char>)>
    decreases urls.len(),
{
    if urls.len() == 0 {
        Seq::empty()
    } else {
        targets(urls.drop_last()) + match url_target(urls.last()) {
            Some(t) => seq![t],
            None => Seq::empty(),
        }
    }
}

/// The protocol and target of each tracker URL in `urls`, in order, with
/// URLs of an unknown scheme left out. `None` exactly when a `udp://` URL has
/// no answer (the pattern does not compile or finds no `host:port` in it).
pub fn tracker_targets(urls: &Vec<String>) -> (r: Option<Vec<(Protocol, String)>>)
    ensures
        r matches Some(v) ==> v@.map_values(|t: (Protocol, String)| (t.0, t.1@)) == targets(
            urls@.map_values(|s: String| s@),
        ),
        r is None <==> exists|k: int| 0 <= k < urls@.len() && udp_unreadable(#[trigger] urls@[k]@),
{
    let ghost views = urls@.map_values(|s: String| s@);
    let mut out: Vec<(Protocol, String)> = Vec::new();
    let mut i: usize = 0;
    while i < urls.len()
        invariant
            0 <= i <= urls@.len(),
            views == urls@.map_values(|s: String| s@),
            out@.map_values(|t: (Protocol, String)| (t.0, t.1@)) == targets(views.take(i as int)),
            forall|k: int| 0 <= k < i ==> !udp_unreadable(#[trigger] urls@[k]@),
        decreases urls@.len() - i,
    {
        let ghost before = out@.map_values(|t: (Protocol, String)| (t.0, t.1@));
        assert(views.take(i + 1).drop_last() =~= views.take(i as int));
        assert(views.take(i + 1).last() == urls@[i as int]@);
        match try_parse_tracker_url(urls[i].as_str()) {
            None => {
                return None;
            },
            Some(Ok(t)) => {
                let ghost tv = (t.0, t.1@);
                let ghost prev = out@;
                out.push(t);
                assert(out@ =~= prev.push(t));
                assert(out@.map_values(|t: (Protocol, String)| (t.0, t.1@)) =~= before.push(tv));
                assert(seq![tv] + Seq::<(Protocol, Seq<char>)>::empty() =~= seq![tv]);
                assert(before + seq![tv] =~= before.push(tv));
            },
            Some(Err(_)) => {
                assert(before + Seq::<(Protocol, Seq<char>)>::empty() =~= before);
            },
        }
        i = i + 1;
    }
    assert(views.take(urls@.len() as int) =~= views);
    Some(out)
}

/// The number that stands for a peer address in a set: the address, then
/// the port below it.
pub open spec fn addr_key(a: PeerAddr) -> u64 {
    (a.ip as u64 * 65536 + a.port as u64) as u64
}

/// Distinct addresses have distinct keys, so no address is taken for
/// another.
pub proof fn lemma_addr_key_injective(a: PeerAddr, b: PeerAddr)
    ensures
        addr_key(a) == addr_key(b) ==> a == b,
{
    assert(a.ip as u64 * 65536 + a.port as u64 <= u64::MAX) by (nonlinear_arith);
    assert(b.ip as u64 * 65536 + b.port as u64 <= u64::MAX) by (nonlinear_arith);
    if addr_key(a) == addr_key(b) {
        assert(a.ip as int * 65536 + a.port as int == b.ip as int * 65536 + b.port as int);
        assert(a.ip == b.ip && a.port == b.port) by (nonlinear_arith)
            requires
                a.ip as int * 65536 + a.port as int == b.ip as int * 65536 + b.port as int,
                a.port < 65536,
                b.port < 65536,
        ;
    }
}

/// The peer addresses that trackers have already handed out.
pub struct SeenAddrs {
    keys: HashSet<u64>,
}

impl View for SeenAddrs {
    type V = Set<u64>;

    closed spec fn view(&self) -> Set<u64> {
        self.keys@
    }
}

impl SeenAddrs {
    /// No address seen yet.
    pub fn new() -> (r: Self)
        ensures
            r@ == Set::<u64>::empty(),
    {
        Self { keys: HashSet::new() }
    }

    /// Records `addr` as seen; `true` when it had not been seen before, so
    /// that each address is handed on to the client once.
    pub fn record(&mut self, addr: PeerAddr) -> (r: bool)
        ensures
            r == !old(self)@.contains(addr_key(addr)),
            final(self)@ == old(self)@.insert(addr_key(addr)),
    {
        assert(addr.ip as u64 * 65536 + addr.port as u64 <= u64::MAX) by (nonlinear_arith);
        let key: u64 = addr.ip as u64 * 65536 + addr.port as u64;
        self.keys.insert(key)
    }
}

/// Recording an address twice: the second time it is reported as seen and
/// nothing changes; another address is still reported as new if it was.
pub proof fn lemma_record_twice(seen: Set<u64>, a: PeerAddr, b: PeerAddr)
    ensures
        seen.insert(addr_key(a)).contains(addr_key(a)),
        seen.insert(addr_key(a)).insert(addr_key(a)) == seen.insert(addr_key(a)),
        a != b ==> (seen.insert(addr_key(a)).contains(addr_key(b)) == seen.contains(addr_key(b))),
{
    lemma_addr_key_injective(a, b);
    assert(seen.insert(addr_key(a)).insert(addr_key(a)) =~= seen.insert(addr_key(a)));
}

/// The main announce URL, when there is one, is the last URL of the list,
/// after every URL of the announce list's tiers; without an announce list
/// the list is that URL alone, or empty.
pub proof fn lemma_announce_urls_law(list: Option<Vec<Vec<String>>>, announce: Option<String>)
    ensures
        announce matches Some(a) ==> announce_urls(list, announce).len() > 0 && announce_urls(
            list,
            announce,
        ).last() == a@,
        announce matches Some(a) ==> announce_urls(list, announce).drop_last() == announce_urls(list, None),
        announce is None ==> announce_urls(list, announce) == announce_urls(list, None),
        list is None ==> announce_urls(list, announce) == match announce {
            Some(a) => seq![a@],
            None => Seq::<Seq<char>>::empty(),
        },
        list matches Some(l) ==> forall|t: int, k: int|
            0 <= t < l@.len() && 0 <= k < l@[t]@.len() ==> announce_urls(list, announce).contains(
                #[trigger] l@[t]@[k]@,
            ),
{
    let tiers: Seq<Seq<Seq<char>>> = match list {
        Some(l) => l@.map_values(|t: Vec<String>| t@.map_values(|s: String| s@)),
        None => Seq::empty(),
    };
    assert(tiers.flatten() + Seq::<Seq<char>>::empty() =~= tiers.flatten());
    if let Some(a) = announce {
        assert((tiers.flatten() + seq![a@]).drop_last() =~= tiers.flatten());
    }
    if list is None {
        assert(tiers =~= Seq::<Seq<Seq<char>>>::empty());
        assert(tiers.flatten() =~= Seq::<Seq<char>>::empty());
    }
    if let Some(l) = list {
        assert forall|t: int, k: int|
            0 <= t < l@.len() && 0 <= k < l@[t]@.len() implies announce_urls(list, announce).contains(
                #[trigger] l@[t]@[k]@,
            ) by {
            lemma_flatten_contains(tiers, t, k);
            assert(tiers[t][k] == l@[t]@[k]@);
            let f = tiers.flatten();
            let i = choose|i: int| 0 <= i < f.len() && f[i] == tiers[t][k];
            let whole = announce_urls(list, announce);
            assert(whole[i] == f[i]);
        }
    }
}

/// Every element of every inner sequence is in the flattened sequence.
proof fn lemma_flatten_contains(tiers: Seq<Seq<Seq<char>>>, t: int, k: int)
    requires
        0 <= t < tiers.len(),
        0 <= k < tiers[t].len(),
    ensures
        exists|i: int| 0 <= i < tiers.flatten().len() && tiers.flatten()[i] == tiers[t][k],
    decreases tiers.len(),
{
    let init = tiers.drop_last();
    assert(tiers =~= init.push(tiers.last()));
    init.lemma_flatten_push(tiers.last());
    if t < tiers.len() - 1 {
        assert(init[t] == tiers[t]);
        lemma_flatten_contains(init, t, k);
        let i = choose|i: int| 0 <= i < init.flatten().len() && init.flatten()[i] == init[t][k];
        assert(tiers.flatten()[i] == init.flatten()[i]);
    } else {
        let i = init.flatten().len() + k;
        assert(tiers.flatten()[i] == tiers.last()[k]);
    }
}

} // verus!
