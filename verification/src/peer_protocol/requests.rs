//! Choosing what to ask a peer for, and in which blocks.
use vstd::prelude::*;

use crate::bitfield::{bit_at, bitfield_wf, with_bit, Bitfield, BitfieldOwned};
use crate::peer_protocol::msg::{Message, MessageView};
use crate::peer_protocol::piece::PieceTracker;

verus! {

/// The block requests for piece `index` of `piece_len` bytes from offset
/// `offset` on: blocks of `block_size` bytes, the last one short.
pub open spec fn requests_from(index: u32, piece_len: int, block_size: int, offset: int) -> Seq<
    MessageView,
>
    decreases piece_len - offset,
{
    if offset >= piece_len || block_size <= 0 {
        Seq::empty()
    } else {
        let len = if block_size < piece_len - offset {
            block_size
        } else {
            piece_len - offset
        };
        seq![MessageView::Request(index, offset as u32, len as u32)] + requests_from(
            index,
            piece_len,
            block_size,
            offset + len,
        )
    }
}

/// The messages' views.
pub open spec fn views(msgs: Seq<Message>) -> Seq<MessageView> {
    msgs.map_values(|m: Message| m@)
}

/// A needed piece that the peer has, if there is one.
pub fn next_piece(pc: &PieceTracker, have: &BitfieldOwned) -> (r: Option<u32>)
    requires
        bitfield_wf(have),
    ensures
        r matches Some(i) ==> pc.needed_spec().contains(i) && i < have.len_view() && bit_at(
            have.byte_view(),
            i as int,
        ),
        r is None ==> forall|i: u32| #[trigger]
            pc.needed_spec().contains(i) ==> !(i < have.len_view() && bit_at(
                have.byte_view(),
                i as int,
            )),
{
    pc.find_needed(have)
}

/// Takes piece `piece_index` out of the needed pieces, clears its
/// reservation bit, and returns the requests for all its blocks in order.
pub fn request_piece(pc: &mut PieceTracker, piece_index: u32) -> (r: Vec<Message>)
    requires
        old(pc).wf(),
        piece_index < old(pc).meta().num_pieces_spec(),
    ensures
        final(pc).wf(),
        final(pc).needed_spec() == old(pc).needed_spec().remove(piece_index),
        final(pc).requested_spec() == with_bit(old(pc).requested_spec(), piece_index as int, false),
        final(pc).meta() == old(pc).meta(),
        final(pc).have_spec() == old(pc).have_spec(),
        final(pc).had_count() == old(pc).had_count(),
        final(pc).buffered_spec() == old(pc).buffered_spec(),
        views(r@) == requests_from(
            piece_index,
            old(pc).meta().piece_len_spec(piece_index as int),
            old(pc).meta().block_size_spec(),
            0,
        ),
{
    let mut cur_offset: u32 = 0;
    proof {
        old(pc).lemma_wf();
    }
    pc.reserve_piece(piece_index);
    pc.unneed(piece_index);
    let piece_length = pc.metadata().piece_len(piece_index);
    let block_size = pc.metadata().block_size();
    let ghost full = requests_from(piece_index, piece_length as int, block_size as int, 0);
    let mut out: Vec<Message> = Vec::new();
    while cur_offset != piece_length
        invariant
            cur_offset <= piece_length,
            block_size > 0,
            views(out@) + requests_from(piece_index, piece_length as int, block_size as int, cur_offset as int) == full,
        decreases piece_length - cur_offset,
    {
        let length = if block_size < piece_length - cur_offset {
            block_size
        } else {
            piece_length - cur_offset
        };
        let ghost before = views(out@);
        out.push(Message::Request(piece_index, cur_offset, length));
        assert(views(out@) =~= before.push(MessageView::Request(piece_index, cur_offset, length)));
        assert(views(out@) + requests_from(piece_index, piece_length as int, block_size as int, cur_offset + length)
            =~= before + requests_from(piece_index, piece_length as int, block_size as int, cur_offset as int));
        cur_offset = cur_offset + length;
    }
    assert(views(out@) =~= full);
    out
}

/// The request lengths are positive and at most one block, their offsets
/// follow on each other from `offset`, and together they reach the end of
/// the piece.
pub proof fn lemma_requests_tile(index: u32, piece_len: int, block_size: int, offset: int)
    requires
        0 < block_size,
        0 <= offset <= piece_len <= u32::MAX,
    ensures
        ({
            let rs = requests_from(index, piece_len, block_size, offset);
            &&& forall|k: int|
                0 <= k < rs.len() ==> {
                    &&& #[trigger] rs[k] matches MessageView::Request(i, o, l)
                    &&& i == index
                    &&& 0 < l <= block_size
                    &&& o == offset + k * block_size
                }
            &&& rs.len() == (piece_len - offset + block_size - 1) / block_size
            &&& rs.len() > 0 ==> (rs.last() matches MessageView::Request(_, o, l) && o + l == piece_len)
        }),
    decreases piece_len - offset,
{
    let rs = requests_from(index, piece_len, block_size, offset);
    if offset < piece_len {
        let len = if block_size < piece_len - offset {
            block_size
        } else {
            piece_len - offset
        };
        lemma_requests_tile(index, piece_len, block_size, offset + len);
        let rest = requests_from(index, piece_len, block_size, offset + len);
        assert forall|k: int| 0 <= k < rs.len() implies {
            &&& #[trigger] rs[k] matches MessageView::Request(i, o, l)
            &&& i == index
            &&& 0 < l <= block_size
            &&& o == offset + k * block_size
        } by {
            if k > 0 {
                assert(rs[k] == rest[k - 1]);
                if len < block_size {
                    assert(offset + len == piece_len);
                    assert(rest.len() == 0);
                }
                assert(len == block_size);
                assert(offset + len + (k - 1) * block_size == offset + k * block_size) by (nonlinear_arith)
                    requires
                        len == block_size,
                ;
            }
        }
        if len == block_size {
            assert((piece_len - offset + block_size - 1) / block_size == 1 + (piece_len - (offset
                + len) + block_size - 1) / block_size) by (nonlinear_arith)
                requires
                    len == block_size,
                    block_size > 0,
            ;
        } else {
            assert((piece_len - offset + block_size - 1) / block_size == 1) by (nonlinear_arith)
                requires
                    len == piece_len - offset,
                    0 < len < block_size,
            ;
            assert(rest.len() == 0) by (nonlinear_arith)
                requires
                    rest.len() == (piece_len - (offset + len) + block_size - 1) / block_size,
                    offset + len == piece_len,
                    block_size > 0,
            ;
        }
        if offset + len < piece_len {
            assert(rest.len() >= 1);
            assert(rs.last() == rest.last());
        } else {
            assert(rest.len() == 0);
        }
    } else {
        assert((piece_len - offset + block_size - 1) / block_size == 0) by (nonlinear_arith)
            requires
                offset == piece_len,
                block_size > 0,
        ;
    }
}

/// The seconds to wait before checking that a request was answered: ten
/// for each permit in use.
pub fn request_timeout(cap: u32, available_permits: usize) -> (r: u64)
    requires
        (#[verifier::truncate] (available_permits as u32)) <= cap,
    ensures
        r == (cap - #[verifier::truncate] (available_permits as u32)) * 10,
{
    let f = (cap - #[verifier::truncate] (available_permits as u32)) as u64;
    f * 10
}

/// The check made some time after piece `piece_index` was requested: when
/// its reservation bit is marked and it is still not had, the bit is marked
/// again and the piece offered to `update_single` (which, with the bit
/// marked, leaves the needed pieces as they are); returns whether that
/// happened.
pub fn delayed_check(pc: &mut PieceTracker, piece_index: u32) -> (r: bool)
    requires
        old(pc).wf(),
    ensures
        final(pc).wf(),
        r == (piece_index < old(pc).meta().num_pieces_spec() && old(pc).reserved_spec(piece_index as int)
            && !old(pc).has_spec(piece_index as int)),
        r ==> final(pc).requested_spec() == with_bit(old(pc).requested_spec(), piece_index as int, true),
        !r ==> final(pc).requested_spec() == old(pc).requested_spec(),
        final(pc).needed_spec() == old(pc).needed_spec(),
        final(pc).meta() == old(pc).meta(),
        final(pc).have_spec() == old(pc).have_spec(),
        final(pc).had_count() == old(pc).had_count(),
        final(pc).buffered_spec() == old(pc).buffered_spec(),
{
    proof {
        old(pc).lemma_wf();
    }
    let reserved = match pc.is_reserved(piece_index) {
        Some(b) => b,
        None => false,
    };
    let had = match pc.has_piece(piece_index) {
        Some(b) => b,
        None => true,
    };
    if reserved && !had {
        pc.unreserve_piece(piece_index);
        proof {
            crate::bitfield::lemma_with_bit(old(pc).requested_spec(), piece_index as int, true);
        }
        pc.update_single(piece_index);
        true
    } else {
        false
    }
}

} // verus!
