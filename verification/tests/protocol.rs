use pikabit::bitfield::{Bitfield, BitfieldOwned};
use pikabit::client::{admit_peer, handle_message, handshake_payload, PeerComAction, SeenPeers};
use pikabit::common::{addr_from_buf, get_timestamp, timestamp_of, PeerAddr};
use pikabit::conc::IntoResult;
use pikabit::error::{expect_eq, ClientError};
use pikabit::peer_protocol::msg::{frame_length, Message};
use pikabit::peer_protocol::peer::{ConnectionState, Peer, PeerId, State};
use pikabit::peer_protocol::piece::{PieceBuffer, PieceTracker};
use pikabit::peer_protocol::verify_handshake;

#[test]
fn peer_peer_from_slice() {
    let slice: [u8; 6] = [10, 123, 0, 47, 26, 225];
    let peer = Peer::from(addr_from_buf(&slice));
    assert_eq!(
        peer,
        Peer {
            addr: PeerAddr { ip: u32::from_be_bytes([10, 123, 0, 47]), port: 6881 },
            id: None,
        }
    );
}

#[test]
fn peer_protocol_peer_from_slice() {
    let slice: [u8; 6] = [10, 123, 0, 47, 26, 225];
    let peer = Peer::from(addr_from_buf(&slice));
    assert_eq!(peer.addr.octets(), [10, 123, 0, 47]);
    assert_eq!(peer.addr.port, 6881);
    assert!(peer.id.is_none());
}

#[test]
fn serialize_request_and_interest() {
    assert_eq!(
        Message::Request(1, 2, 3).serialize().unwrap(),
        vec![0, 0, 0, 13, 6, 0, 0, 0, 1, 0, 0, 0, 2, 0, 0, 0, 3]
    );
    assert_eq!(Message::Interested.serialize().unwrap(), vec![0, 0, 0, 1, 2]);
    assert_eq!(Message::KeepAlive.serialize().unwrap(), vec![0, 0, 0, 0]);
    assert_eq!(Message::Have(5).serialize().unwrap(), vec![0, 0, 0, 0]);
}

#[test]
fn deserialize_by_id() {
    assert_eq!(Message::deserialize(&[0, 0, 0, 1, 0]).unwrap(), Message::Choke);
    assert_eq!(Message::deserialize(&[0, 0, 0, 1, 1]).unwrap(), Message::Unchoke);
    assert_eq!(Message::deserialize(&[0, 0, 0, 5, 4, 0, 0, 1, 7]).unwrap(), Message::Have(263));
    assert_eq!(
        Message::deserialize(&[0, 0, 0, 3, 5, 0xf0, 0x01]).unwrap(),
        Message::Bitfield(vec![0xf0, 0x01])
    );
    assert_eq!(
        Message::deserialize(&[0, 0, 0, 11, 7, 0, 0, 0, 2, 0, 0, 64, 0, 9, 8]).unwrap(),
        Message::Piece(2, 16384, vec![9, 8])
    );
    assert_eq!(
        Message::deserialize(&[0, 0, 0, 13, 8, 0, 0, 0, 1, 0, 0, 0, 2, 0, 0, 0, 3]).unwrap(),
        Message::Cancel(1, 2, 3)
    );
    // a request is not read back: its id is not among those read
    let frame = Message::Request(1, 2, 3).serialize().unwrap();
    assert_eq!(Message::deserialize(&frame).unwrap(), Message::KeepAlive);
}

#[test]
fn frame_length_reads_the_prefix() {
    assert_eq!(frame_length(&[0, 0, 1, 0]), 256);
    assert_eq!(frame_length(&[0, 0, 0, 13, 6]), 13);
}

fn hash() -> [u8; 20] {
    let mut h = [0u8; 20];
    for (i, b) in h.iter_mut().enumerate() {
        *b = i as u8 * 7;
    }
    h
}

#[test]
fn handshake_layout() {
    let id = PeerId::from(&[b'x'; 20]);
    let p = handshake_payload(&hash(), &id);
    assert_eq!(p[0], 19);
    assert_eq!(&p[1..20], b"BitTorrent protocol");
    assert_eq!(&p[20..28], &[0u8; 8]);
    assert_eq!(&p[28..48], &hash());
    assert_eq!(&p[48..], &[b'x'; 20]);
}

#[test]
fn handshake_of_same_torrent_gives_peer_id() {
    let mine = handshake_payload(&hash(), &PeerId::from(&[b'm'; 20]));
    let theirs = handshake_payload(&hash(), &PeerId::from(&[b'p'; 20]));
    assert_eq!(verify_handshake(&theirs, &mine).unwrap(), [b'p'; 20]);
}

#[test]
fn handshake_of_other_torrent_is_refused() {
    let mine = handshake_payload(&hash(), &PeerId::from(&[b'm'; 20]));
    let theirs = handshake_payload(&[1u8; 20], &PeerId::from(&[b'p'; 20]));
    match verify_handshake(&theirs, &mine) {
        Err(ClientError::Mismatch { context }) => assert_eq!(context, "verify_handshake info hash"),
        _ => panic!("expected an info hash mismatch"),
    }
    let mut wrong_name = theirs;
    wrong_name[1] = b'b';
    match verify_handshake(&wrong_name, &mine) {
        Err(ClientError::Mismatch { context }) => assert_eq!(context, "verify_handshake protocol name"),
        _ => panic!("expected a protocol name mismatch"),
    }
}

#[test]
fn peer_id_from_parts() {
    let id = PeerId::from_parts(b"x", b"1700000000");
    assert_eq!(id.as_bytes(), b"-pB0.1.0-x1700000000");
    let long = PeerId::from_parts(b"", b"123456789012345");
    assert_eq!(long.as_bytes(), b"-pB0.1.0-12345678901");
}

#[test]
fn peer_id_new_has_tag_and_letters() {
    let id = PeerId::new().unwrap();
    let b = id.as_bytes();
    assert_eq!(&b[..9], b"-pB0.1.0-");
    assert!(b.iter().skip(9).all(|c| c.is_ascii_alphanumeric()));
}

#[test]
fn timestamps_are_decimal() {
    assert_eq!(timestamp_of(0), "0");
    assert_eq!(timestamp_of(1234), "1234");
    let t = get_timestamp().unwrap();
    assert!(!t.is_empty() && t.chars().all(|c| c.is_ascii_digit()));
}

#[test]
fn expect_eq_names_the_step() {
    assert!(expect_eq(3u32, 3u32, "x").is_ok());
    match expect_eq(3u32, 4u32, "connect tid") {
        Err(ClientError::Mismatch { context }) => assert_eq!(context, "connect tid"),
        _ => panic!("expected a mismatch"),
    }
}

#[test]
fn into_res_of_option_and_result() {
    assert!(matches!(Some(3u8).into_res(), Ok(3)));
    assert!(matches!(None::<u8>.into_res(), Err(ClientError::NoneValue)));
    let r: Result<u8, ClientError> = Err(ClientError::BadPattern);
    assert!(matches!(r.into_res(), Err(ClientError::BadPattern)));
}

#[test]
fn states_start_choked() {
    let s = State::new();
    assert!(s.am_choked && !s.am_interested && s.peer_choked && !s.peer_interested);
    let c = ConnectionState::new();
    assert_eq!(
        c,
        ConnectionState { client_choked: true, client_interested: false, peer_choked: true, peer_interested: false }
    );
}

#[test]
fn seen_peers_are_recorded_once() {
    let mut seen = SeenPeers::new();
    assert!(seen.record(&PeerId::from(&[1u8; 20])));
    assert!(seen.record(&PeerId::from(&[2u8; 20])));
    assert!(!seen.record(&PeerId::from(&[1u8; 20])));
}

fn tracker() -> PieceTracker {
    PieceTracker::new(100_000, 32768, vec![0u8; 80])
}

#[test]
fn have_while_choked_only_marks_the_peer() {
    let mut pc = tracker();
    let mut pbuf = PieceBuffer::new();
    let mut state = State::new();
    state.am_interested = true;
    let mut have = BitfieldOwned::new(4);
    let r = handle_message(&mut pc, &mut pbuf, &mut state, &mut have, Message::Have(2));
    assert!(matches!(r, PeerComAction::Nothing));
    assert_eq!(have.get(2), Some(true));
    assert!(pc.needed.is_empty());
    let r = handle_message(&mut pc, &mut pbuf, &mut state, &mut have, Message::Have(9));
    assert!(matches!(r, PeerComAction::Refused));
}

#[test]
fn unchoke_adds_permits_and_needed_pieces() {
    let mut pc = tracker();
    let mut pbuf = PieceBuffer::new();
    let mut state = State::new();
    state.am_interested = true;
    let mut have = BitfieldOwned::new(4);
    let r = handle_message(&mut pc, &mut pbuf, &mut state, &mut have, Message::Bitfield(vec![0b0000_0110]));
    assert!(matches!(r, PeerComAction::Nothing));
    assert_eq!(have.cnt_marked(), 2);
    assert!(pc.needed.is_empty());
    let r = handle_message(&mut pc, &mut pbuf, &mut state, &mut have, Message::Unchoke);
    assert!(matches!(r, PeerComAction::AddPermits(5)));
    assert!(!state.am_choked);
    assert!(pc.needed.contains(&1) && pc.needed.contains(&2) && pc.needed.len() == 2);
    let r = handle_message(&mut pc, &mut pbuf, &mut state, &mut have, Message::Unchoke);
    assert!(matches!(r, PeerComAction::Nothing));
    let r = handle_message(&mut pc, &mut pbuf, &mut state, &mut have, Message::Have(3));
    assert!(matches!(r, PeerComAction::Nothing));
    assert!(pc.needed.contains(&3));
}

#[test]
fn short_bitfield_is_refused() {
    let mut pc = PieceTracker::new(1_000_000, 1000, vec![]);
    let mut pbuf = PieceBuffer::new();
    let mut state = State::new();
    let mut have = BitfieldOwned::new(1000);
    let r = handle_message(&mut pc, &mut pbuf, &mut state, &mut have, Message::Bitfield(vec![0xff]));
    assert!(matches!(r, PeerComAction::Refused));
    assert_eq!(have.cnt_marked(), 0);
}

#[test]
fn request_asks_for_a_block_to_send() {
    let mut pc = tracker();
    let mut pbuf = PieceBuffer::new();
    let mut state = State::new();
    let mut have = BitfieldOwned::new(4);
    let r = handle_message(&mut pc, &mut pbuf, &mut state, &mut have, Message::Request(2, 100, 50));
    assert!(matches!(r, PeerComAction::SendBlock { index: 2, begin: 100, offset: 65636, length: 50 }));
}

#[test]
fn interest_choke_and_cancel() {
    let mut pc = tracker();
    let mut pbuf = PieceBuffer::new();
    let mut state = State::new();
    let mut have = BitfieldOwned::new(4);
    assert!(matches!(handle_message(&mut pc, &mut pbuf, &mut state, &mut have, Message::Interested), PeerComAction::Nothing));
    assert!(state.peer_interested);
    assert!(matches!(handle_message(&mut pc, &mut pbuf, &mut state, &mut have, Message::NotInterested), PeerComAction::Nothing));
    assert!(!state.peer_interested);
    state.am_choked = false;
    assert!(matches!(handle_message(&mut pc, &mut pbuf, &mut state, &mut have, Message::Choke), PeerComAction::Nothing));
    assert!(state.am_choked);
    assert!(matches!(
        handle_message(&mut pc, &mut pbuf, &mut state, &mut have, Message::Cancel(1, 2, 3)),
        PeerComAction::Cancel(1, 2, 3)
    ));
}

#[test]
fn peer_ids_equal_by_bytes() {
    let x = [3u8; 20];
    let mut y = [3u8; 20];
    assert!(PeerId::from(&x) == PeerId::from(&y));
    y[19] = 4;
    assert!(PeerId::from(&x) != PeerId::from(&y));
    assert_eq!(PeerId::from(&y).as_bytes(), &y);
}

#[test]
fn a_peer_id_is_admitted_once() {
    let mut seen = SeenPeers::new();
    let a = admit_peer(&mut seen, &PeerId::from(&[9u8; 20]), 10).unwrap();
    assert!(a.state.am_choked && a.state.am_interested && a.state.peer_choked && !a.state.peer_interested);
    assert_eq!(a.have.len(), 10);
    assert_eq!(a.have.cnt_marked(), 0);
    assert_eq!(a.greeting, Message::Interested);
    assert!(admit_peer(&mut seen, &PeerId::from(&[9u8; 20]), 10).is_none());
    assert!(admit_peer(&mut seen, &PeerId::from(&[8u8; 20]), 10).is_some());
}
