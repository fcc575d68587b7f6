use pikabit::common::PeerAddr;
use pikabit::error::ClientError;
use pikabit::peer_protocol::fops::{
    file_entries, file_location, file_segments, get_length_to_add, get_relative_offset, total_len, Segment,
};
use pikabit::tracker_protocol::http::{Event, HttpTracker, Request, Response};
use pikabit::tracker_protocol::metadata::{info_hash, File, Info, Metadata};
use pikabit::tracker_protocol::udp::{
    announce_packet_bytes, announce_request, connect_packet_bytes, connect_request, parse_announce_response,
    parse_connect_response,
};
use pikabit::tracker_protocol::{
    full_announce_list, parse_peers, parse_tracker_url, peer_addrs, tracker_targets, try_parse_tracker_url, Protocol,
    SeenAddrs,
};

#[test]
fn compact_peer_list() {
    let buf = [10u8, 123, 0, 47, 26, 225, 192, 168, 1, 2, 0, 80];
    assert_eq!(parse_peers(&buf), vec![[10, 123, 0, 47, 26, 225], [192, 168, 1, 2, 0, 80]]);
    let addrs = peer_addrs(&buf);
    assert_eq!(addrs[0], PeerAddr { ip: 0x0a7b_002f, port: 6881 });
    assert_eq!(addrs[1], PeerAddr { ip: 0xc0a8_0102, port: 80 });
    assert!(parse_peers(&[]).is_empty());
}

#[test]
fn udp_tracker_url() {
    match parse_tracker_url("udp://tracker.opentrackr.org:1337/announce") {
        Ok((Protocol::UDP, addr)) => assert_eq!(addr, "tracker.opentrackr.org:1337"),
        _ => panic!("expected a udp tracker"),
    }
}

#[test]
fn http_tracker_url() {
    match parse_tracker_url("https://tracker.example.org/announce") {
        Ok((Protocol::HTTP, url)) => assert_eq!(url, "https://tracker.example.org/announce"),
        _ => panic!("expected an http tracker"),
    }
    match parse_tracker_url("http://t.example:6969/announce") {
        Ok((Protocol::HTTP, url)) => assert_eq!(url, "http://t.example:6969/announce"),
        _ => panic!("expected an http tracker"),
    }
}

#[test]
fn unknown_tracker_url() {
    match parse_tracker_url("wss://tracker.example.org") {
        Err(ClientError::UnknownTrackerUrl { url }) => assert_eq!(url, "wss://tracker.example.org"),
        _ => panic!("expected an unknown tracker url"),
    }
}

#[test]
fn udp_url_without_port_has_no_answer() {
    assert!(try_parse_tracker_url("udp://nohost/announce").is_none());
    assert!(matches!(try_parse_tracker_url("udp://a.b:80"), Some(Ok((Protocol::UDP, _)))));
    assert!(matches!(try_parse_tracker_url("ftp://a.b"), Some(Err(ClientError::UnknownTrackerUrl { .. }))));
}

fn info(files: Option<Vec<File>>, length: Option<u64>) -> Info {
    Info {
        name: "movie".to_string(),
        pieces: vec![7u8; 40],
        piece_length: 32768,
        md5sum: None,
        length,
        files,
        private: None,
        path: None,
        root_hash: None,
    }
}

#[test]
fn announce_list_then_announce() {
    let m = Metadata {
        info: info(None, Some(5)),
        announce: Some("udp://c:3".to_string()),
        announce_list: Some(vec![
            vec!["udp://a:1".to_string(), "http://b/ann".to_string()],
            vec!["wss://x".to_string()],
        ]),
    };
    let urls = full_announce_list(&m);
    assert_eq!(urls, vec!["udp://a:1", "http://b/ann", "wss://x", "udp://c:3"]);
    let targets = tracker_targets(&urls).unwrap();
    assert_eq!(targets.len(), 3);
    assert!(targets[0].0 == Protocol::UDP && targets[0].1 == "a:1");
    assert!(targets[1].0 == Protocol::HTTP && targets[1].1 == "http://b/ann");
    assert!(targets[2].0 == Protocol::UDP && targets[2].1 == "c:3");
    assert_eq!(m.get_tracker_url(), Some("udp://c:3".to_string()));
    let bare = Metadata { info: info(None, Some(5)), announce: None, announce_list: None };
    assert!(full_announce_list(&bare).is_empty());
    assert_eq!(bare.get_tracker_url(), None);
    assert!(tracker_targets(&vec!["udp://nohost".to_string()]).is_none());
}

#[test]
fn seen_addresses_are_handed_on_once() {
    let mut seen = SeenAddrs::new();
    let a = PeerAddr { ip: 1, port: 2 };
    let b = PeerAddr { ip: 1, port: 3 };
    assert!(seen.record(a));
    assert!(seen.record(b));
    assert!(!seen.record(a));
    assert!(seen.record(PeerAddr { ip: 0, port: 65535 }));
}

#[test]
fn connect_packet_layout() {
    let p = connect_packet_bytes(0x0102_0304);
    assert_eq!(p, vec![0, 0, 0x04, 0x17, 0x27, 0x10, 0x19, 0x80, 0, 0, 0, 0, 1, 2, 3, 4]);
    let (tid, p) = connect_request();
    assert_eq!(p, connect_packet_bytes(tid));
}

#[test]
fn announce_packet_layout() {
    let p = announce_packet_bytes(0x1122_3344_5566_7788, 9, &[0xaa; 20], &[0xbb; 20], 6881);
    assert_eq!(p.len(), 98);
    assert_eq!(&p[0..8], &[0x11, 0x22, 0x33, 0x44, 0x55, 0x66, 0x77, 0x88]);
    assert_eq!(&p[8..12], &[0, 0, 0, 1]);
    assert_eq!(&p[12..16], &[0, 0, 0, 9]);
    assert_eq!(&p[16..36], &[0xaa; 20]);
    assert_eq!(&p[36..56], &[0xbb; 20]);
    assert_eq!(&p[56..64], &[0; 8]);
    assert_eq!(&p[64..72], &[0, 0, 0, 0, 0, 0, 0, 100]);
    assert_eq!(&p[72..80], &[0; 8]);
    assert_eq!(&p[80..84], &[0, 0, 0, 2]);
    assert_eq!(&p[84..92], &[0; 8]);
    assert_eq!(&p[92..96], &[0xff; 4]);
    assert_eq!(&p[96..98], &[0x1a, 0xe1]);
    let (tid, q) = announce_request(5, &[0xaa; 20], &[0xbb; 20], 6881);
    assert_eq!(q, announce_packet_bytes(5, tid, &[0xaa; 20], &[0xbb; 20], 6881));
}

#[test]
fn connect_response_gives_the_connection_id() {
    let res = [0u8, 0, 0, 0, 0, 0, 0, 7, 1, 2, 3, 4, 5, 6, 7, 8];
    assert_eq!(parse_connect_response(&res, 7).unwrap(), 0x0102_0304_0506_0708);
    match parse_connect_response(&res, 8) {
        Err(ClientError::Mismatch { context }) => assert_eq!(context, "connect tid"),
        _ => panic!("expected a tid mismatch"),
    }
    let wrong = [0u8, 0, 0, 1, 0, 0, 0, 7];
    match parse_connect_response(&wrong, 7) {
        Err(ClientError::Mismatch { context }) => assert_eq!(context, "connect action"),
        _ => panic!("expected an action mismatch"),
    }
}

#[test]
fn announce_response_gives_the_peers() {
    let mut res = vec![0u8, 0, 0, 1, 0, 0, 0, 9];
    res.extend_from_slice(&[0; 12]);
    res.extend_from_slice(&[10, 0, 0, 1, 0, 80]);
    assert_eq!(parse_announce_response(&res, 9).unwrap(), vec![10, 0, 0, 1, 0, 80]);
    match parse_announce_response(&res, 3) {
        Err(ClientError::Mismatch { context }) => assert_eq!(context, "announce tid"),
        _ => panic!("expected a tid mismatch"),
    }
    match parse_announce_response(&[0, 0, 0, 3, 0], 9) {
        Err(ClientError::Mismatch { context }) => assert_eq!(context, "announce action"),
        _ => panic!("expected an action mismatch"),
    }
}

#[test]
fn announce_url_percent_encodes() {
    let t = HttpTracker::new("http://t.example/announce");
    let mut h = [b'A'; 20];
    h[0] = 0xff;
    h[1] = b' ';
    h[2] = b'~';
    let url = t.announce_url(&h, &[b'-'; 20], "port=6881");
    let expected = format!(
        "http://t.example/announce?info_hash=%FF%20~{}&peer_id={}&port=6881",
        "A".repeat(17),
        "-".repeat(20)
    );
    assert_eq!(url, expected);
}

#[test]
fn started_request() {
    let r = Request::started(6881);
    assert_eq!(r.port, 6881);
    assert_eq!((r.uploaded, r.downloaded, r.left), (0, 0, 100));
    assert_eq!((r.compact, r.no_peer_id), (1, 1));
    assert_eq!(r.event, Some(Event::Started));
    assert!(r.ip.is_none() && r.numwant.is_none() && r.key.is_none() && r.tracker_id.is_none());
}

#[test]
fn response_peer_entries() {
    let res = Response {
        failure_response: None,
        warning_message: None,
        min_interval: None,
        tracker_id: None,
        interval: 1800,
        complete: 1,
        incomplete: 2,
        peers: vec![1, 2, 3, 4, 0, 5, 6, 7, 8, 9, 1, 0],
    };
    assert_eq!(res.peer_entries(), vec![[1, 2, 3, 4, 0, 5], [6, 7, 8, 9, 1, 0]]);
}

#[test]
fn info_hash_is_sha1() {
    let h = info_hash(b"abc");
    assert_eq!(
        h,
        [
            0xa9, 0x99, 0x3e, 0x36, 0x47, 0x06, 0x81, 0x6a, 0xba, 0x3e, 0x25, 0x71, 0x78, 0x50, 0xc2, 0x6c, 0x9c, 0xd0,
            0xd8, 0x9d
        ]
    );
}

#[test]
fn info_accessors() {
    let i = info(None, Some(1234));
    assert_eq!(i.piece_len(), 32768);
    assert_eq!(i.len(), 1234);
    assert_eq!(i.filename(), "movie");
    assert_eq!(i.piece_hashes(), vec![7u8; 40]);
}

#[test]
fn file_offsets() {
    let lengths = vec![10u64, 20, 30];
    assert_eq!(total_len(&lengths), 60);
    assert_eq!(get_relative_offset(&lengths, 0), (0, 0));
    assert_eq!(get_relative_offset(&lengths, 15), (1, 5));
    assert_eq!(get_relative_offset(&lengths, 30), (2, 0));
    assert_eq!(get_relative_offset(&lengths, 70), (2, 40));
    assert_eq!(get_length_to_add(&lengths, 1, 5, 100), 15);
    assert_eq!(get_length_to_add(&lengths, 1, 5, 7), 7);
}

#[test]
fn span_splits_over_files() {
    let lengths = vec![10u64, 20, 30];
    assert_eq!(
        file_segments(&lengths, 5, 30),
        vec![
            Segment { file_index: 0, offset: 5, start: 0, end: 5 },
            Segment { file_index: 1, offset: 0, start: 5, end: 25 },
            Segment { file_index: 2, offset: 0, start: 25, end: 30 },
        ]
    );
    assert_eq!(file_segments(&lengths, 12, 3), vec![Segment { file_index: 1, offset: 2, start: 0, end: 3 }]);
    assert!(file_segments(&lengths, 12, 0).is_empty());
}

#[test]
fn file_paths() {
    let (dir, full) = file_location("t", &vec!["a".to_string(), "b".to_string(), "c.txt".to_string()]);
    assert_eq!(dir, "resources/t/a/b/");
    assert_eq!(full, "resources/t/a/b/c.txt");
    let (dir, full) = file_location(".", &vec!["x".to_string()]);
    assert_eq!(dir, "resources/./");
    assert_eq!(full, "resources/./x");
}

#[test]
fn file_entries_of_torrents() {
    let single = file_entries(&info(None, Some(99)));
    assert_eq!(single, vec![(".".to_string(), vec!["movie".to_string()], 99)]);
    let multi = info(
        Some(vec![
            File { path: vec!["a".to_string(), "b".to_string()], length: 3, md5sum: None },
            File { path: vec!["c".to_string()], length: 4, md5sum: None },
        ]),
        None,
    );
    assert_eq!(
        file_entries(&multi),
        vec![
            ("movie".to_string(), vec!["a".to_string(), "b".to_string()], 3),
            ("movie".to_string(), vec!["c".to_string()], 4),
        ]
    );
}
