use pikabit::bitfield::{Bitfield, BitfieldOwned, BitfieldRef};
use pikabit::peer_protocol::bitfield::{count_ones, Bitfield as PieceBitfield};

#[test]
fn bitfield_ref_counts_marked_bits() {
    let buf: [u8; 2] = [0b1010_0001, 0xff];
    let bf = BitfieldRef::new(&buf, 12);
    assert_eq!(bf.len(), 12);
    assert_eq!(bf.cnt_marked(), 7);
    assert_eq!(bf.rem(), 5);
    assert_eq!(bf.get(0), Some(true));
    assert_eq!(bf.get(1), Some(false));
    assert_eq!(bf.get(5), Some(true));
    assert_eq!(bf.get(11), Some(true));
    assert_eq!(bf.get(12), None);
    assert_eq!(bf.bytes(), &buf[..]);
}

#[test]
fn bitfield_bit_index_and_offset() {
    assert_eq!(BitfieldOwned::bit_index(19), (2, 3));
    assert_eq!(BitfieldOwned::bit_index(7), (0, 7));
    assert!(BitfieldOwned::check_offset(0b0000_1000, 3));
    assert!(!BitfieldOwned::check_offset(0b0000_1000, 2));
}

#[test]
fn bitfield_owned_new_is_empty() {
    let bf = BitfieldOwned::new(10);
    assert_eq!(bf.len(), 10);
    assert_eq!(bf.cnt_marked(), 0);
    assert_eq!(bf.rem(), 10);
    assert_eq!(bf.bytes(), &[0u8, 0u8][..]);
    let bf = BitfieldOwned::new(16);
    assert_eq!(bf.bytes().len(), 3);
}

#[test]
fn bitfield_owned_set_then_get() {
    let mut bf = BitfieldOwned::new(10);
    assert_eq!(bf.set(3, true), 9);
    assert_eq!(bf.get(3), Some(true));
    assert_eq!(bf.get(2), Some(false));
    assert_eq!(bf.get(4), Some(false));
    assert_eq!(bf.bytes(), &[0b0000_1000u8, 0][..]);
    assert_eq!(bf.set(3, true), 9);
    assert_eq!(bf.set(9, true), 8);
    assert_eq!(bf.bytes(), &[0b0000_1000u8, 0b0000_0010][..]);
    assert_eq!(bf.set(3, false), 9);
    assert_eq!(bf.get(3), Some(false));
    assert_eq!(bf.set(3, false), 9);
    assert_eq!(bf.cnt_marked(), 1);
}

#[test]
fn bitfield_owned_from_ref() {
    let buf: [u8; 1] = [0xff];
    let owned = BitfieldOwned::from(BitfieldRef::new(&buf, 8));
    assert_eq!(owned.len(), 8);
    assert_eq!(owned.cnt_marked(), 8);
    assert_eq!(owned.rem(), 0);
    assert_eq!(owned.bytes(), &buf[..]);
}

#[test]
fn count_ones_of_bytes() {
    assert_eq!(count_ones(0), 0);
    assert_eq!(count_ones(0b1011_0001), 4);
    assert_eq!(count_ones(0xff), 8);
}

#[test]
fn piece_bitfield_new() {
    let bf = PieceBitfield::new(10);
    assert_eq!(bf.len(), 10);
    assert_eq!(bf.rem(), 10);
    assert!(!bf.get(0));
    assert!(!bf.get(9));
}

#[test]
fn piece_bitfield_from_counts_every_bit() {
    let buf: [u8; 2] = [0b0000_0011, 0x80];
    let bf = PieceBitfield::from(&buf, 16);
    assert_eq!(bf.len(), 16);
    assert_eq!(bf.rem(), 13);
    assert!(bf.get(0));
    assert!(!bf.get(1));
    assert!(!bf.get(15));
}

#[test]
fn piece_bitfield_set_counts_a_mark() {
    let mut bf = PieceBitfield::new(16);
    bf.set(0);
    assert_eq!(bf.rem(), 15);
    bf.set(9);
    assert_eq!(bf.rem(), 14);
    // the bit test compares the masked byte with 1, so a zero byte stays
    // unmarked after masking
    assert!(!bf.get(0));
}
