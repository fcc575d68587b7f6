use pikabit::bitfield::{Bitfield, BitfieldOwned};
use pikabit::client::{handle_message, on_piece_completed, settle_piece, Completion, PeerComAction};
use pikabit::peer_protocol::msg::Message;
use pikabit::peer_protocol::peer::State;
use pikabit::peer_protocol::piece::{blocks_ready, BlockInfo, PieceBuffer, PieceTracker};
use pikabit::peer_protocol::requests::{delayed_check, next_piece, request_piece, request_timeout};
use sha1::{Digest, Sha1};

fn sample(n: usize) -> Vec<u8> {
    (0..n).map(|i| (i % 251) as u8).collect()
}

#[test]
fn metadata_geometry() {
    let pc = PieceTracker::new(100_000, 32768, vec![0u8; 80]);
    let m = pc.metadata();
    assert_eq!(m.num_pieces(), 4);
    assert_eq!(m.piece_len(0), 32768);
    assert_eq!(m.piece_len(2), 32768);
    assert_eq!(m.piece_len(3), 100_000 - 3 * 32768);
    assert_eq!(m.block_size(), 16384);
    assert_eq!(m.piece_offset(2), 65536);
    assert_eq!(m.hashes_len(), 80);
    assert_eq!(pc.rem(), 4);
}

#[test]
fn pieces_add_up_to_the_total() {
    for (total, piece_len) in [(100_000u64, 32768u32), (65536, 32768), (1, 16384), (50_001, 1000)] {
        let pc = PieceTracker::new(total, piece_len, vec![]);
        let m = pc.metadata();
        let mut sum: u64 = 0;
        for i in 0..m.num_pieces() {
            assert_eq!(m.piece_offset(i), sum);
            sum += m.piece_len(i) as u64;
        }
        assert_eq!(sum, total);
    }
}

#[test]
fn piece_hash_slices_the_hashes() {
    let hashes: Vec<u8> = (0..60).collect();
    let pc = PieceTracker::new(3000, 1000, hashes.clone());
    assert_eq!(pc.metadata().piece_hash(1), &hashes[20..40]);
    let mut h = [0u8; 20];
    h.copy_from_slice(&hashes[40..60]);
    assert!(pc.verify_piece_hash(2, &h));
    assert!(!pc.verify_piece_hash(1, &h));
}

#[test]
fn update_single_and_multiple() {
    let mut pc = PieceTracker::new(100_000, 32768, vec![0u8; 80]);
    assert!(pc.is_empty());
    pc.update_single(1);
    assert!(pc.needed.contains(&1));
    pc.update_single(7);
    assert!(!pc.needed.contains(&7));
    pc.update_multiple(&[0b0000_0101]);
    assert_eq!(pc.needed.len(), 3);
    assert!(pc.needed.contains(&0) && pc.needed.contains(&2));
    assert!(!pc.is_empty());
    assert_eq!(pc.has_piece(3), Some(false));
    assert_eq!(pc.has_piece(4), None);
    assert_eq!(pc.is_reserved(4), None);
}

#[test]
fn reservation_bits() {
    let mut pc = PieceTracker::new(100_000, 32768, vec![0u8; 80]);
    assert_eq!(pc.is_reserved(0), Some(false));
    pc.unreserve_piece(0);
    assert_eq!(pc.is_reserved(0), Some(true));
    pc.update_single(0);
    assert!(pc.needed.is_empty());
    pc.reserve_piece(0);
    assert_eq!(pc.is_reserved(0), Some(false));
    pc.update_single(0);
    assert!(pc.needed.contains(&0));
}

#[test]
fn requests_cover_each_piece() {
    let mut pc = PieceTracker::new(100_000, 32768, vec![0u8; 80]);
    pc.update_multiple(&[0b0000_1001]);
    let msgs = request_piece(&mut pc, 0);
    assert_eq!(msgs, vec![Message::Request(0, 0, 16384), Message::Request(0, 16384, 16384)]);
    assert!(!pc.needed.contains(&0));
    assert!(pc.needed.contains(&3));
    let msgs = request_piece(&mut pc, 3);
    assert_eq!(msgs, vec![Message::Request(3, 0, 1696)]);
    assert!(pc.is_empty());
}

#[test]
fn next_piece_picks_what_the_peer_has() {
    let mut pc = PieceTracker::new(100_000, 32768, vec![0u8; 80]);
    pc.update_single(2);
    let mut have = BitfieldOwned::new(4);
    assert_eq!(next_piece(&pc, &have), None);
    have.set(1, true);
    assert_eq!(next_piece(&pc, &have), None);
    have.set(2, true);
    assert_eq!(next_piece(&pc, &have), Some(2));
}

#[test]
fn request_timeout_counts_permits_in_use() {
    assert_eq!(request_timeout(5, 2), 30);
    assert_eq!(request_timeout(5, 5), 0);
}

#[test]
fn delayed_check_marks_the_bit_again() {
    let mut pc = PieceTracker::new(100_000, 32768, vec![0u8; 80]);
    assert!(!delayed_check(&mut pc, 1));
    pc.unreserve_piece(1);
    assert!(delayed_check(&mut pc, 1));
    assert_eq!(pc.is_reserved(1), Some(true));
    assert!(pc.needed.is_empty());
    assert!(!delayed_check(&mut pc, 9));
}

#[test]
fn piece_buffer_appends_in_arrival_order() {
    let mut pbuf = PieceBuffer::new();
    assert_eq!(pbuf.append(3, &[1, 2, 3]), 0);
    assert_eq!(pbuf.append(3, &[4, 5]), 3);
    assert_eq!(pbuf.append(1, &[9]), 0);
    assert_eq!(pbuf.get(3), &vec![1, 2, 3, 4, 5]);
    assert_eq!(pbuf.get(1), &vec![9]);
}

#[test]
fn block_range() {
    let b = BlockInfo { offset_in_buffer: 100, offset_in_piece: 16384, size: 50 };
    assert_eq!(b.get_range(), (100, 150));
}

#[test]
fn blocks_ready_needs_every_block_in_order() {
    let blocks = vec![
        Some(BlockInfo { offset_in_buffer: 3, offset_in_piece: 0, size: 2 }),
        Some(BlockInfo { offset_in_buffer: 0, offset_in_piece: 2, size: 3 }),
    ];
    assert!(blocks_ready(&blocks, 5));
    assert!(!blocks_ready(&blocks, 4));
    let gap = vec![Some(BlockInfo { offset_in_buffer: 0, offset_in_piece: 1, size: 2 })];
    assert!(!blocks_ready(&gap, 5));
    let missing = vec![Some(BlockInfo { offset_in_buffer: 0, offset_in_piece: 0, size: 2 }), None];
    assert!(!blocks_ready(&missing, 5));
}

fn hash_of(data: &[u8]) -> Vec<u8> {
    Sha1::digest(data).to_vec()
}

#[test]
fn blocks_out_of_order_make_a_saved_piece() {
    let data = sample(20000);
    let mut pc = PieceTracker::new(20000, 20000, hash_of(&data));
    let mut pbuf = PieceBuffer::new();
    let mut state = State::new();
    let mut have = BitfieldOwned::new(1);
    let r = handle_message(&mut pc, &mut pbuf, &mut state, &mut have, Message::Piece(0, 16384, data[16384..].to_vec()));
    assert!(matches!(r, PeerComAction::Buffered { rem: 1 }));
    let r = handle_message(&mut pc, &mut pbuf, &mut state, &mut have, Message::Piece(0, 0, data[..16384].to_vec()));
    assert!(matches!(r, PeerComAction::LastBlock { piece_index: 0 }));
    assert_eq!(pc.ordered_piece(0, &pbuf), data);
    match on_piece_completed(&mut pc, &pbuf, 0) {
        Completion::Saved { offset, piece, length } => {
            assert_eq!(offset, 0);
            assert_eq!(piece, data);
            assert_eq!(length, 20000);
        },
        _ => panic!("piece not saved"),
    }
    assert_eq!(pc.has_piece(0), Some(true));
    assert_eq!(pc.rem(), 0);
    assert_eq!(pc.is_reserved(0), Some(true));
    let r = handle_message(&mut pc, &mut pbuf, &mut state, &mut have, Message::Piece(0, 0, vec![1]));
    assert!(matches!(r, PeerComAction::Nothing));
}

#[test]
fn wrong_hash_is_a_mismatch() {
    let data = sample(100);
    let mut pc = PieceTracker::new(100, 100, vec![0u8; 20]);
    let mut pbuf = PieceBuffer::new();
    let mut state = State::new();
    let mut have = BitfieldOwned::new(1);
    let r = handle_message(&mut pc, &mut pbuf, &mut state, &mut have, Message::Piece(0, 0, data));
    assert!(matches!(r, PeerComAction::LastBlock { piece_index: 0 }));
    assert!(matches!(on_piece_completed(&mut pc, &pbuf, 0), Completion::HashMismatch));
    assert_eq!(pc.has_piece(0), Some(false));
    assert_eq!(pc.rem(), 1);
}

#[test]
fn missing_block_is_refused() {
    let data = sample(20000);
    let mut pc = PieceTracker::new(20000, 20000, hash_of(&data));
    let mut pbuf = PieceBuffer::new();
    let mut state = State::new();
    let mut have = BitfieldOwned::new(1);
    let r = handle_message(&mut pc, &mut pbuf, &mut state, &mut have, Message::Piece(0, 0, data[..16384].to_vec()));
    assert!(matches!(r, PeerComAction::Buffered { rem: 1 }));
    assert!(matches!(on_piece_completed(&mut pc, &pbuf, 0), Completion::Refused));
    assert_eq!(pc.has_piece(0), Some(false));
}

#[test]
fn block_off_the_grid_is_refused() {
    let mut pc = PieceTracker::new(20000, 20000, vec![0u8; 20]);
    let mut pbuf = PieceBuffer::new();
    let mut state = State::new();
    let mut have = BitfieldOwned::new(1);
    let r = handle_message(&mut pc, &mut pbuf, &mut state, &mut have, Message::Piece(0, 100, vec![1, 2]));
    assert!(matches!(r, PeerComAction::Refused));
}

#[test]
fn settle_piece_by_its_digest() {
    let hashes: Vec<u8> = (0..40).collect();
    let mut pc = PieceTracker::new(2000, 1000, hashes.clone());
    let mut good = [0u8; 20];
    good.copy_from_slice(&hashes[20..40]);
    match settle_piece(&mut pc, 1, vec![5u8; 1000], &good) {
        Completion::Saved { offset, piece, length } => {
            assert_eq!(offset, 1000);
            assert_eq!(piece, vec![5u8; 1000]);
            assert_eq!(length, 1000);
        },
        _ => panic!("piece not saved"),
    }
    assert_eq!(pc.has_piece(1), Some(true));
    assert!(matches!(settle_piece(&mut pc, 0, vec![5u8; 1000], &good), Completion::HashMismatch));
    assert_eq!(pc.has_piece(0), Some(false));
    assert!(pc.needed.contains(&0));
}

#[test]
fn block_counts_missing_slots() {
    let mut t = PieceTracker::new(32768, 32768, vec![0u8; 20]);
    assert_eq!(t.on_block_buffered(0, 0, 16384, 16384), 1);
    assert_eq!(t.on_block_buffered(0, 0, 16384, 16384), 1);
    assert_eq!(t.on_block_buffered(0, 16384, 0, 16384), 0);
    assert_eq!(t.rem(), 1);
}

#[test]
fn appends_concatenate_per_piece() {
    let mut pbuf = PieceBuffer::new();
    pbuf.append(2, &[1]);
    pbuf.append(5, &[7, 7]);
    pbuf.append(2, &[2, 3]);
    pbuf.append(2, &[]);
    assert_eq!(pbuf.get(2), &vec![1, 2, 3]);
    assert_eq!(pbuf.get(5), &vec![7, 7]);
}
