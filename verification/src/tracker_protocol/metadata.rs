//! The contents of a torrent file.
use vstd::prelude::*;

use crate::digest::{sha1, sha1_digest};

verus! {

/// One file of a multi-file torrent: its path below the torrent's directory
/// and its length.
pub struct File {
    pub path: Vec<String>,
    pub length: u64,
    pub md5sum: Option<String>,
}

/// The `info` dictionary of a torrent.
pub struct Info {
    pub name: String,
    pub pieces: Vec<u8>,
    pub piece_length: u32,
    pub md5sum: Option<String>,
    pub length: Option<u64>,
    pub files: Option<Vec<File>>,
    pub private: Option<u8>,
    pub path: Option<Vec<String>>,
    pub root_hash: Option<String>,
}

impl Info {
    /// The nominal piece length.
    pub fn piece_len(&self) -> (r: u32)
        ensures
            r == self.piece_length,
    {
        self.piece_length
    }

    /// The length of a single-file torrent, which must have one.
    pub fn len(&self) -> (r: u64)
        requires
            self.length is Some,
        ensures
            r == self.length.unwrap(),
    {
        self.length.unwrap()
    }

    /// The torrent's name.
    pub fn filename(&self) -> (r: &String)
        ensures
            r@ == self.name@,
    {
        &self.name
    }

    /// The concatenated 20-byte piece hashes.
    pub fn piece_hashes(&self) -> (r: Vec<u8>)
        ensures
            r@ == self.pieces@,
    {
        self.pieces.clone()
    }
}

/// The info hash of a torrent: the SHA-1 digest of its bencoded `info`
/// dictionary.
pub fn info_hash(bencoded_info: &[u8]) -> (r: [u8; 20])
    ensures
        r@ == sha1(bencoded_info@),
{
    sha1_digest(bencoded_info)
}

/// A torrent file: its `info` dictionary and its trackers.
pub struct Metadata {
    pub info: Info,
    pub announce: Option<String>,
    pub announce_list: Option<Vec<Vec<String>>>,
}

impl Metadata {
    /// The main tracker URL, if the torrent names one.
    pub fn get_tracker_url(&self) -> (r: Option<String>)
        ensures
            r is Some <==> self.announce is Some,
            r matches Some(u) ==> u@ == self.announce.unwrap()@,
    {
        match &self.announce {
            Some(a) => Some(a.clone()),
            None => None,
        }
    }
}

} // verus!
