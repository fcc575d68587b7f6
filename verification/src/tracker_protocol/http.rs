//! The HTTP tracker protocol: the announce URL.
use vstd::prelude::*;
use vstd::string::StringExecFns;

verus! {

/// The `event` of an announce.
#[derive(Debug, PartialEq, Eq, Structural)]
pub enum Event {
    Started,
    Stopped,
    Completed,
}

/// Bytes left as they are in a URL: letters, digits, `-`, `.`, `_`, `~`.
pub open spec fn is_unreserved(b: u8) -> bool {
    (48 <= b <= 57) || (65 <= b <= 90) || (97 <= b <= 122) || b == 45 || b == 46 || b == 95 || b
        == 126
}

/// An upper-case hex digit.
pub open spec fn hex_digit(d: int) -> char {
    if d < 10 {
        (48 + d) as char
    } else {
        (55 + d) as char
    }
}

/// Percent-encoding of bytes: unreserved bytes as themselves, every other
/// byte as `%` and two upper-case hex digits.
pub open spec fn url_encoded(data: Seq<u8>) -> Seq<char>
    decreases data.len(),
{
    if data.len() == 0 {
        Seq::empty()
    } else {
        let b = data.last();
        url_encoded(data.drop_last()) + if is_unreserved(b) {
            seq![b as char]
        } else {
            seq!['%', hex_digit(b as int / 16), hex_digit(b as int % 16)]
        }
    }
}

/// `urlencoding::encode_binary`: percent-encodes every byte but letters,
/// digits, `-`, `.`, `_` and `~`, with upper-case hex digits.
#[verifier::external_body]
fn encode_binary(data: &[u8]) -> (r: String)
    ensures
        r@ == url_encoded(data@),
{
    urlencoding::encode_binary(data).into_owned()
}

/// The query fields of an announce, besides the info hash and peer id.
#[derive(Debug)]
pub struct Request {
    pub port: u16,
    pub uploaded: u64,
    pub downloaded: u64,
    pub left: u64,
    pub compact: u8,
    pub no_peer_id: u8,
    pub event: Option<Event>,
    /// The client's IPv4 address as a number in network order.
    pub ip: Option<u32>,
    pub numwant: Option<u32>,
    pub key: Option<String>,
    pub tracker_id: Option<String>,
}

impl Request {
    /// The announce a client sends on start: nothing up or down yet, 100
    /// bytes left, a compact peer list without peer ids, the `started`
    /// event, and the rest left to the tracker.
    pub fn started(port: u16) -> (r: Self)
        ensures
            r.port == port,
            r.uploaded == 0,
            r.downloaded == 0,
            r.left == 100,
            r.compact == 1,
            r.no_peer_id == 1,
            r.event == Some(Event::Started),
            r.ip is None,
            r.numwant is None,
            r.key is None,
            r.tracker_id is None,
    {
        Request {
            port,
            downloaded: 0,
            left: 100,
            uploaded: 0,
            event: Some(Event::Started),
            compact: 1,
            no_peer_id: 1,
            ip: None,
            numwant: None,
            key: None,
            tracker_id: None,
        }
    }
}

/// A tracker's answer to an announce.
#[derive(Debug)]
pub struct Response {
    pub failure_response: Option<String>,
    pub warning_message: Option<String>,
    pub min_interval: Option<u32>,
    pub tracker_id: Option<String>,
    pub interval: u32,
    pub complete: u32,
    pub incomplete: u32,
    /// The compact peer list.
    pub peers: Vec<u8>,
}

impl Response {
    /// The six-byte entries of the answer's compact peer list. A list whose
    /// length is not a multiple of six is refused by `requires`.
    pub fn peer_entries(&self) -> (r: Vec<[u8; 6]>)
        requires
            self.peers@.len() % 6 == 0,
        ensures
            r@.len() == self.peers@.len() / 6,
            forall|k: int| 0 <= k < r@.len() ==> #[trigger] r@[k]@ == super::chunks6(self.peers@)[k],
    {
        super::parse_peers(self.peers.as_slice())
    }
}

/// An HTTP tracker, by its announce URL.
#[derive(Debug)]
pub struct HttpTracker {
    pub url: String,
}

impl HttpTracker {
    /// The tracker announced at `url`.
    pub fn new(url: &str) -> (r: Self)
        ensures
            r.url@ == url@,
    {
        Self { url: url.to_owned() }
    }

    /// The announce URL: the tracker URL, then the percent-encoded info hash
    /// and peer id, then the rest of the query.
    pub fn announce_url(&self, info_hash: &[u8; 20], peer_id: &[u8; 20], query: &str) -> (r: String)
        ensures
            r@ == self.url@ + "?info_hash="@ + url_encoded(info_hash@) + "&peer_id="@ + url_encoded(
                peer_id@,
            ) + "&"@ + query@,
    {
        let mut url = self.url.clone();
        url.append("?info_hash=");
        let h = encode_binary(info_hash.as_slice());
        url.append(h.as_str());
        url.append("&peer_id=");
        let p = encode_binary(peer_id.as_slice());
        url.append(p.as_str());
        url.append("&");
        url.append(query);
        url
    }
}

} // verus!
