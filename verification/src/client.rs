//! The client's decisions on what peers send: the handshake it offers, and
//! for each message what changes in the download state and what the
//! surrounding task must do.
use vstd::prelude::*;

use crate::bitfield::{bit_at, bitfield_wf, with_bit, Bitfield, BitfieldOwned, BitfieldRef};
use crate::constants::REQUESTS_CAPACITY;
use crate::digest::{sha1, sha1_digest};
use crate::peer_protocol::msg::{Message, MessageView};
use crate::peer_protocol::handshake_check;
use crate::peer_protocol::peer::{PeerId, State};
use crate::peer_protocol::piece::{
    assembled,
    blocks_in_order,
    blocks_ready,
    buffer_of,
    fresh_pieces,
    missing_blocks,
    BlockInfo,
    PieceBuffer,
    PieceTracker,
};
use vstd::string::StringSliceAdditionalSpecFns;

verus! {

/// The protocol name, `BitTorrent protocol`, as bytes.
pub open spec fn protocol_name() -> Seq<u8> {
    seq![66u8, 105, 116, 84, 111, 114, 114, 101, 110, 116, 32, 112, 114, 111, 116, 111, 99, 111, 108]
}

/// The handshake a client sends: the name's length, the name, eight zero
/// bytes, the info hash and the client's id.
pub open spec fn handshake_bytes(info_hash: Seq<u8>, peer_id: Seq<u8>) -> Seq<u8> {
    seq![19u8] + protocol_name() + Seq::new(8, |i: int| 0u8) + info_hash + peer_id
}

/// The 68-byte handshake for the torrent with `info_hash`, from the client
/// with `peer_id`.
pub fn handshake_payload(info_hash: &[u8; 20], peer_id: &PeerId) -> (r: [u8; 68])
    ensures
        r@ == handshake_bytes(info_hash@, peer_id@),
{
    proof {
        reveal_strlit("BitTorrent protocol");
        vstd::string::is_ascii_spec_bytes("BitTorrent protocol");
    }
    let name = "BitTorrent protocol".as_bytes();
    assert(name@ =~= protocol_name());
    let id = peer_id.as_bytes();
    let mut payload = [0u8; 68];
    payload[0] = 19;
    let mut k: usize = 0;
    while k < 19
        invariant
            0 <= k <= 19,
            name@ == protocol_name(),
            payload@.len() == 68,
            payload@[0] == 19,
            forall|m: int| 0 <= m < k ==> payload@[1 + m] == name@[m],
            forall|m: int| 20 <= m < 68 ==> payload@[m] == 0,
        decreases 19 - k,
    {
        payload[1 + k] = name[k];
        k = k + 1;
    }
    let mut k: usize = 0;
    while k < 20
        invariant
            0 <= k <= 20,
            payload@.len() == 68,
            payload@[0] == 19,
            forall|m: int| 0 <= m < 19 ==> payload@[1 + m] == protocol_name()[m],
            forall|m: int| 20 <= m < 28 ==> payload@[m] == 0,
            forall|m: int| 0 <= m < k ==> payload@[28 + m] == info_hash@[m],
            forall|m: int| 0 <= m < k ==> payload@[48 + m] == id@[m],
        decreases 20 - k,
    {
        payload[28 + k] = info_hash[k];
        payload[48 + k] = id[k];
        k = k + 1;
    }
    assert(payload@ =~= handshake_bytes(info_hash@, peer_id@));
    payload
}

/// A peer that answers with the handshake of the same torrent is accepted,
/// and its id is read from its handshake.
pub proof fn lemma_handshake_accepted(info_hash: Seq<u8>, peer_id: Seq<u8>, my_id: Seq<u8>)
    requires
        info_hash.len() == 20,
        peer_id.len() == 20,
        my_id.len() == 20,
    ensures
        handshake_bytes(info_hash, peer_id).len() == 68,
        handshake_check(handshake_bytes(info_hash, peer_id), handshake_bytes(info_hash, my_id))
            == Ok::<Seq<u8>, Seq<char>>(peer_id),
{
    let received = handshake_bytes(info_hash, peer_id);
    let sent = handshake_bytes(info_hash, my_id);
    assert(received.subrange(0, 20) =~= sent.subrange(0, 20));
    assert(received.subrange(28, 48) =~= info_hash);
    assert(sent.subrange(28, 48) =~= info_hash);
    assert(received.subrange(48, 68) =~= peer_id);
}

/// A peer that answers with the handshake of another torrent is refused at
/// the info hash.
pub proof fn lemma_handshake_other_torrent(info_hash: Seq<u8>, other_hash: Seq<u8>, peer_id: Seq<u8>, my_id: Seq<u8>)
    requires
        info_hash.len() == 20,
        other_hash.len() == 20,
        peer_id.len() == 20,
        my_id.len() == 20,
        other_hash != info_hash,
    ensures
        handshake_check(handshake_bytes(other_hash, peer_id), handshake_bytes(info_hash, my_id))
            == Err::<Seq<u8>, Seq<char>>("verify_handshake info hash"@),
{
    let received = handshake_bytes(other_hash, peer_id);
    let sent = handshake_bytes(info_hash, my_id);
    assert(received.subrange(0, 20) =~= sent.subrange(0, 20));
    assert(received.subrange(28, 48) =~= other_hash);
    assert(sent.subrange(28, 48) =~= info_hash);
}

/// What becomes of a piece whose last block arrived.
pub enum Completion {
    /// The hash of the assembled piece differs from the recorded one; the
    /// piece was offered to `update_single` again.
    HashMismatch,
    /// The piece is verified and marked had: write `piece` at byte
    /// `offset` of the torrent and count `length` more bytes downloaded.
    Saved { offset: u64, piece: Vec<u8>, length: u32 },
    /// The blocks do not make up the piece (a missing block, a block outside
    /// its buffer, a gap or overlap), or the piece has no recorded hash.
    Refused,
}

/// The recorded hash of piece `i`.
pub open spec fn recorded_hash(pc: &PieceTracker, i: int) -> Seq<u8> {
    pc.meta().hashes_spec().subrange(i * 20, i * 20 + 20)
}

/// Settles a piece whose bytes `piece` are assembled and whose digest is
/// `hash`: when the digest is the recorded one, the piece is marked had,
/// its blocks dropped, and it is handed back to be written; otherwise it is
/// offered to `update_single` again.
pub fn settle_piece(pc: &mut PieceTracker, piece_index: u32, piece: Vec<u8>, hash: &[u8; 20]) -> (r: Completion)
    requires
        old(pc).wf(),
        piece_index < old(pc).meta().num_pieces_spec(),
        piece_index * 20 <= u32::MAX,
        piece_index * 20 + 20 <= old(pc).meta().hashes_spec().len(),
    ensures
        final(pc).wf(),
        final(pc).meta() == old(pc).meta(),
        final(pc).requested_spec() == old(pc).requested_spec(),
        r !is Refused,
        (r is Saved) <==> hash@ == recorded_hash(old(pc), piece_index as int),
        r is HashMismatch ==> {
            &&& final(pc).have_spec() == old(pc).have_spec()
            &&& final(pc).buffered_spec() == old(pc).buffered_spec()
            &&& final(pc).needed_spec() == needed_after_single(old(pc), piece_index)
        },
        r matches Completion::Saved { offset, piece: saved, length } ==> {
            &&& saved == piece
            &&& offset == old(pc).meta().piece_offset_spec(piece_index as int)
            &&& length == old(pc).meta().piece_len_spec(piece_index as int)
            &&& final(pc).have_spec() == with_bit(old(pc).have_spec(), piece_index as int, true)
            &&& final(pc).buffered_spec() == old(pc).buffered_spec().remove(piece_index)
            &&& final(pc).needed_spec() == old(pc).needed_spec()
        },
{
    proof {
        old(pc).lemma_wf();
    }
    if !pc.verify_piece_hash(piece_index, hash) {
        pc.update_single(piece_index);
        Completion::HashMismatch
    } else {
        let offset = pc.metadata().piece_offset(piece_index);
        let length = pc.metadata().piece_len(piece_index);
        pc.on_piece_saved(piece_index);
        Completion::Saved { offset, piece, length }
    }
}

/// Finishes a piece whose blocks have all arrived: clears its reservation
/// bit, assembles it from its receive buffer, and settles it by its SHA-1
/// digest with `settle_piece`.
pub fn on_piece_completed(pc: &mut PieceTracker, pbuf: &PieceBuffer, piece_index: u32) -> (r: Completion)
    requires
        old(pc).wf(),
        piece_index < old(pc).meta().num_pieces_spec(),
        old(pc).buffered_spec().contains_key(piece_index),
        pbuf@.contains_key(piece_index),
    ensures
        final(pc).wf(),
        final(pc).meta() == old(pc).meta(),
        ({
            let blocks = old(pc).buffered_spec()[piece_index].blocks_spec();
            let buf = pbuf@[piece_index];
            let piece = assembled(buf, blocks);
            let unreserved = with_bit(old(pc).requested_spec(), piece_index as int, true);
            match r {
                Completion::Refused => !blocks_in_order(buf.len() as int, blocks) || piece_index * 20
                    > u32::MAX || piece_index * 20 + 20 > old(pc).meta().hashes_spec().len(),
                Completion::HashMismatch => {
                    &&& blocks_in_order(buf.len() as int, blocks)
                    &&& piece_index * 20 <= u32::MAX
                    &&& piece_index * 20 + 20 <= old(pc).meta().hashes_spec().len()
                    &&& sha1(piece) != recorded_hash(old(pc), piece_index as int)
                    &&& final(pc).requested_spec() == unreserved
                    &&& final(pc).have_spec() == old(pc).have_spec()
                    &&& final(pc).buffered_spec() == old(pc).buffered_spec()
                    &&& final(pc).needed_spec() == (if !old(pc).has_spec(piece_index as int) && !bit_at(
                        unreserved,
                        piece_index as int,
                    ) {
                        old(pc).needed_spec().insert(piece_index)
                    } else {
                        old(pc).needed_spec()
                    })
                },
                Completion::Saved { offset, piece: saved, length } => {
                    &&& blocks_in_order(buf.len() as int, blocks)
                    &&& piece_index * 20 <= u32::MAX
                    &&& piece_index * 20 + 20 <= old(pc).meta().hashes_spec().len()
                    &&& sha1(piece) == recorded_hash(old(pc), piece_index as int)
                    &&& saved@ == piece
                    &&& offset == old(pc).meta().piece_offset_spec(piece_index as int)
                    &&& length == old(pc).meta().piece_len_spec(piece_index as int)
                    &&& final(pc).requested_spec() == unreserved
                    &&& final(pc).have_spec() == with_bit(old(pc).have_spec(), piece_index as int, true)
                    &&& final(pc).buffered_spec() == old(pc).buffered_spec().remove(piece_index)
                    &&& final(pc).needed_spec() == old(pc).needed_spec()
                },
            }
        }),
{
    proof {
        old(pc).lemma_wf();
    }
    pc.unreserve_piece(piece_index);
    let ready = blocks_ready(pc.piece_ordering(piece_index), pbuf.get(piece_index).len());
    let hash_len = pc.metadata().hashes_len();
    if !ready || piece_index > 214748364 {
        return Completion::Refused;
    }
    let start = (piece_index * 20) as usize;
    if start > hash_len || hash_len - start < 20 {
        return Completion::Refused;
    }
    let piece = pc.ordered_piece(piece_index, pbuf);
    let piece_hash = sha1_digest(piece.as_slice());
    proof {
        crate::bitfield::lemma_with_bit(old(pc).requested_spec(), piece_index as int, true);
    }
    settle_piece(pc, piece_index, piece, &piece_hash)
}

/// What the task that reads a peer's messages must do after one of them.
pub enum PeerComAction {
    /// Nothing.
    Nothing,
    /// A block was stored; `rem` blocks of its piece are still missing.
    Buffered { rem: u32 },
    /// The last block of piece `piece_index` arrived: release one request
    /// permit of the peer and finish the piece with `on_piece_completed`.
    LastBlock { piece_index: u32 },
    /// The peer asked for a block: read `length` bytes at byte `offset` of
    /// the torrent and send them back as block `begin` of piece `index`.
    SendBlock { index: u32, begin: u32, offset: u64, length: u32 },
    /// The peer unchoked the client: release `n` request permits.
    AddPermits(u32),
    /// The peer cancelled a request; only noted.
    Cancel(u32, u32, u32),
    /// A message the download state cannot take: a block off the piece's
    /// block grid, or a piece index or bitfield that does not fit the torrent.
    Refused,
}

/// The needed pieces after `update_single(i)`.
pub open spec fn needed_after_single(pc: &PieceTracker, i: u32) -> Set<u32> {
    if i < pc.meta().num_pieces_spec() && !pc.has_spec(i as int) && !pc.reserved_spec(i as int) {
        pc.needed_spec().insert(i)
    } else {
        pc.needed_spec()
    }
}

/// The needed pieces after `update_multiple(buf)`.
pub open spec fn needed_after_multiple(pc: &PieceTracker, buf: Seq<u8>) -> Set<u32> {
    pc.needed_spec().union(
        fresh_pieces(buf, pc.have_spec(), pc.requested_spec(), pc.meta().num_pieces_spec()),
    )
}

/// Whether a block starting at `offset` in piece `i` falls on the piece's
/// block grid.
pub open spec fn block_fits(pc: &PieceTracker, i: u32, offset: u32) -> bool {
    &&& pc.meta().piece_len_spec(i as int) + pc.meta().block_size_spec() <= u32::MAX
    &&& offset as int % pc.meta().block_size_spec() == 0
    &&& offset as int / pc.meta().block_size_spec() < pc.meta().num_blocks_spec(i as int)
}

/// The blocks of piece `i` once a block of `size` bytes starting at
/// `offset` in the piece is recorded at `in_buffer` in its buffer.
pub open spec fn blocks_after(pc: &PieceTracker, i: u32, in_buffer: u32, offset: u32, size: usize) -> Seq<Option<BlockInfo>> {
    (if pc.buffered_spec().contains_key(i) {
        pc.buffered_spec()[i].blocks_spec()
    } else {
        Seq::new(pc.meta().num_blocks_spec(i as int) as nat, |k: int| None::<BlockInfo>)
    }).update(
        offset as int / pc.meta().block_size_spec(),
        Some(BlockInfo { offset_in_buffer: in_buffer, offset_in_piece: offset, size }),
    )
}

/// Whether the tracker's state other than its needed pieces is as before.
pub open spec fn same_pieces(a: &PieceTracker, b: &PieceTracker) -> bool {
    &&& a.meta() == b.meta()
    &&& a.have_spec() == b.have_spec()
    &&& a.had_count() == b.had_count()
    &&& a.requested_spec() == b.requested_spec()
    &&& a.buffered_spec() == b.buffered_spec()
}

/// Takes one message from a peer. A block of a piece the client lacks is
/// appended to the piece's receive buffer and recorded; any other message
/// updates the peer's state and bitfield (`state`, `have`) and the needed
/// pieces, or asks the task for an action.
pub fn handle_message(
    pc: &mut PieceTracker,
    pbuf: &mut PieceBuffer,
    state: &mut State,
    have: &mut BitfieldOwned,
    msg: Message,
) -> (r: PeerComAction)
    requires
        old(pc).wf(),
        bitfield_wf(old(have)),
        old(have).len_view() == old(pc).meta().num_pieces_spec(),
    ensures
        final(pc).wf(),
        bitfield_wf(final(have)),
        final(have).len_view() == old(pc).meta().num_pieces_spec(),
        final(pc).meta() == old(pc).meta(),
        r is Refused ==> final(pc).needed_spec() == old(pc).needed_spec() && same_pieces(final(pc), old(pc))
            && final(pbuf)@ == old(pbuf)@ && *final(have) == *old(have),
        match msg@ {
            MessageView::Piece(i, offset, block) => if i < old(pc).meta().num_pieces_spec() && !old(pc).has_spec(i as int) {
                if !block_fits(old(pc), i, offset) {
                    r is Refused
                } else {
                    let in_buffer = #[verifier::truncate] (buffer_of(old(pbuf)@, i).len() as u32);
                    &&& final(pbuf)@ == old(pbuf)@.insert(i, buffer_of(old(pbuf)@, i) + block)
                    &&& final(pc).buffered_spec().contains_key(i)
                    &&& final(pc).buffered_spec()[i].blocks_spec() == blocks_after(old(pc), i, in_buffer, offset, block.len() as usize)
                    &&& forall|k: u32| k != i && #[trigger] old(pc).buffered_spec().contains_key(k)
                        ==> final(pc).buffered_spec()[k] == old(pc).buffered_spec()[k]
                    &&& final(pc).needed_spec() == old(pc).needed_spec()
                    &&& final(pc).have_spec() == old(pc).have_spec()
                    &&& final(pc).requested_spec() == old(pc).requested_spec()
                    &&& *final(have) == *old(have)
                    &&& (r matches PeerComAction::Buffered { rem } && rem != 0
                        && rem == missing_blocks(final(pc).buffered_spec()[i].blocks_spec())
                        || r == PeerComAction::LastBlock { piece_index: i } && missing_blocks(
                        final(pc).buffered_spec()[i].blocks_spec(),
                    ) == 0)
                }
            } else {
                r is Nothing && final(pc).needed_spec() == old(pc).needed_spec() && same_pieces(final(pc), old(pc))
                    && final(pbuf)@ == old(pbuf)@ && *final(have) == *old(have)
            },
            MessageView::Have(i) => if i >= old(pc).meta().num_pieces_spec() {
                r is Refused
            } else {
                &&& r is Nothing
                &&& final(pc).needed_spec() == (if !old(state).am_choked && old(state).am_interested {
                    needed_after_single(old(pc), i)
                } else {
                    old(pc).needed_spec()
                })
                &&& same_pieces(final(pc), old(pc))
                &&& final(have).byte_view() == with_bit(old(have).byte_view(), i as int, true)
                &&& final(pbuf)@ == old(pbuf)@
            },
            MessageView::Bitfield(buf) => if old(pc).meta().num_pieces_spec() > buf.len() * 8 {
                r is Refused
            } else {
                &&& r is Nothing
                &&& final(pc).needed_spec() == (if !old(state).am_choked && old(state).am_interested {
                    needed_after_multiple(old(pc), buf)
                } else {
                    old(pc).needed_spec()
                })
                &&& same_pieces(final(pc), old(pc))
                &&& final(have).byte_view() == buf
                &&& final(pbuf)@ == old(pbuf)@
            },
            MessageView::Request(index, begin, length) => {
                &&& r == PeerComAction::SendBlock {
                    index,
                    begin,
                    offset: (old(pc).meta().piece_offset_spec(index as int) + begin) as u64,
                    length,
                }
                &&& final(pc).needed_spec() == old(pc).needed_spec()
                &&& same_pieces(final(pc), old(pc))
                &&& *final(have) == *old(have)
                &&& final(pbuf)@ == old(pbuf)@
            },
            MessageView::Unchoke => {
                &&& final(pbuf)@ == old(pbuf)@
                &&& *final(have) == *old(have)
                &&& same_pieces(final(pc), old(pc))
                &&& !final(state).am_choked
                &&& if old(state).am_choked {
                    &&& r == PeerComAction::AddPermits(REQUESTS_CAPACITY)
                    &&& final(pc).needed_spec() == (if old(have).cnt_view() > 0 && old(state).am_interested {
                        needed_after_multiple(old(pc), old(have).byte_view())
                    } else {
                        old(pc).needed_spec()
                    })
                } else {
                    r is Nothing && final(pc).needed_spec() == old(pc).needed_spec()
                }
            },
            _ => {
                &&& final(pc).needed_spec() == old(pc).needed_spec()
                &&& same_pieces(final(pc), old(pc))
                &&& *final(have) == *old(have)
                &&& final(pbuf)@ == old(pbuf)@
                &&& (msg@ is Choke ==> r is Nothing && *final(state) == (State { am_choked: true, ..*old(state) }))
                &&& (msg@ is Interested ==> r is Nothing && *final(state) == (State { peer_interested: true, ..*old(state) }))
                &&& (msg@ is NotInterested ==> r is Nothing && *final(state) == (State { peer_interested: false, ..*old(state) }))
                &&& (msg@ matches MessageView::Cancel(a, b, c) ==> r == PeerComAction::Cancel(a, b, c))
                &&& (msg@ is KeepAlive ==> r is Nothing)
            },
        },
{
    proof {
        old(pc).lemma_wf();
        crate::bitfield::lemma_wf_cnt_le(old(have));
    }
    if let Message::Piece(piece_index, offset_in_piece, buf) = &msg {
        let lacking = match pc.has_piece(*piece_index) {
            Some(b) => !b,
            None => false,
        };
        if lacking {
            let meta = pc.metadata();
            let piece_len = meta.piece_len(*piece_index);
            let block_size = meta.block_size();
            if piece_len > u32::MAX - block_size {
                return PeerComAction::Refused;
            }
            let num_blocks = (piece_len + block_size - 1) / block_size;
            if *offset_in_piece % block_size != 0 || *offset_in_piece / block_size >= num_blocks {
                return PeerComAction::Refused;
            }
            let offset_in_buffer = pbuf.append(*piece_index, buf.as_slice());
            let rem = pc.on_block_buffered(*piece_index, offset_in_buffer, *offset_in_piece, buf.len());
            if rem == 0 {
                return PeerComAction::LastBlock { piece_index: *piece_index };
            }
            return PeerComAction::Buffered { rem };
        }
    }
    match msg {
        Message::Have(piece_index) => {
            if piece_index >= have.len() {
                return PeerComAction::Refused;
            }
            if !state.am_choked && state.am_interested {
                pc.update_single(piece_index);
            }
            have.set(piece_index, true);
            PeerComAction::Nothing
        },
        Message::Bitfield(buf) => {
            let num = pc.metadata().num_pieces();
            let need: u64 = (num as u64 + 7) / 8;
            let blen = buf.len() as u64;
            proof {
                assert(need <= blen <==> num <= blen * 8) by (nonlinear_arith)
                    requires
                        need == (num + 7) / 8,
                        num >= 0,
                        blen >= 0,
                ;
            }
            if need > blen {
                return PeerComAction::Refused;
            }
            if !state.am_choked && state.am_interested {
                pc.update_multiple(buf.as_slice());
            }
            *have = BitfieldOwned::from(BitfieldRef::new(buf.as_slice(), num));
            PeerComAction::Nothing
        },
        Message::Request(index, begin, length) => {
            let offset = pc.metadata().piece_offset(index) + begin as u64;
            PeerComAction::SendBlock { index, begin, offset, length }
        },
        Message::Choke => {
            state.am_choked = true;
            PeerComAction::Nothing
        },
        Message::Unchoke => {
            if state.am_choked {
                state.am_choked = false;
                if have.cnt_marked() > 0 && state.am_interested {
                    pc.update_multiple(have.bytes());
                }
                PeerComAction::AddPermits(REQUESTS_CAPACITY)
            } else {
                PeerComAction::Nothing
            }
        },
        Message::Interested => {
            state.peer_interested = true;
            PeerComAction::Nothing
        },
        Message::NotInterested => {
            state.peer_interested = false;
            PeerComAction::Nothing
        },
        Message::Cancel(piece_index, offset_in_piece, length) => {
            PeerComAction::Cancel(piece_index, offset_in_piece, length)
        },
        _ => PeerComAction::Nothing,
    }
}

/// Whether two ids have the same bytes.
fn same_id(a: &[u8; 20], b: &[u8; 20]) -> (r: bool)
    ensures
        r == (a@ == b@),
{
    let mut k: usize = 0;
    while k < 20
        invariant
            0 <= k <= 20,
            forall|m: int| 0 <= m < k ==> a@[m] == b@[m],
        decreases 20 - k,
    {
        if a[k] != b[k] {
            return false;
        }
        k = k + 1;
    }
    assert(a@ =~= b@);
    true
}

/// The ids of the peers the client already talks to.
pub struct SeenPeers {
    ids: Vec<[u8; 20]>,
}

impl View for SeenPeers {
    type V = Set<Seq<u8>>;

    closed spec fn view(&self) -> Set<Seq<u8>> {
        Set::new(|s: Seq<u8>| exists|k: int| 0 <= k < self.ids@.len() && #[trigger] self.ids@[k]@ == s)
    }
}

impl SeenPeers {
    /// No peer yet.
    pub fn new() -> (r: Self)
        ensures
            r@ == Set::<Seq<u8>>::empty(),
    {
        let r = Self { ids: Vec::new() };
        assert(r@ =~= Set::<Seq<u8>>::empty());
        r
    }

    /// Records the peer with `id`; `true` when no peer with that id was
    /// there before, so that a peer reached at two addresses is kept once.
    pub fn record(&mut self, id: &PeerId) -> (r: bool)
        ensures
            r == !old(self)@.contains(id@),
            final(self)@ == old(self)@.insert(id@),
    {
        let bytes = id.as_bytes();
        let mut k: usize = 0;
        while k < self.ids.len()
            invariant
                0 <= k <= self.ids@.len(),
                self.ids@ == old(self).ids@,
                bytes@ == id@,
                forall|m: int| 0 <= m < k ==> #[trigger] self.ids@[m]@ != id@,
            decreases self.ids@.len() - k,
        {
            if same_id(&self.ids[k], bytes) {
                assert(self.ids@[k as int]@ == id@);
                assert(old(self)@.insert(id@) =~= old(self)@);
                return false;
            }
            k = k + 1;
        }
        assert(!old(self)@.contains(id@));
        self.ids.push(*bytes);
        assert forall|s: Seq<u8>| #[trigger] self@.contains(s) == old(self)@.insert(id@).contains(s) by {
            if s == id@ {
                assert(self.ids@[self.ids@.len() - 1]@ == s);
            }
            if old(self)@.contains(s) {
                let j = choose|j: int| 0 <= j < old(self).ids@.len() && #[trigger] old(self).ids@[j]@ == s;
                assert(self.ids@[j]@ == s);
            }
        }
        assert(self@ =~= old(self)@.insert(id@));
        true
    }
}

/// What the client sets up for a newly connected peer: its connection
/// state, an empty bitfield of the pieces it has, and the first message to
/// send it.
pub struct Admission {
    pub state: State,
    pub have: BitfieldOwned,
    pub greeting: Message,
}

/// Decides on a peer whose handshake gave `id`: a peer already talked to
/// (by id) is dropped (`None`); a new one is recorded, and the client is
/// interested in it, starts choked, with an empty bitfield of
/// `num_pieces` pieces, and greets it with `Interested`.
pub fn admit_peer(seen: &mut SeenPeers, id: &PeerId, num_pieces: u32) -> (r: Option<Admission>)
    ensures
        r is Some <==> !old(seen)@.contains(id@),
        final(seen)@ == old(seen)@.insert(id@),
        r matches Some(a) ==> {
            &&& a.state == State {
                am_choked: true,
                am_interested: true,
                peer_choked: true,
                peer_interested: false,
            }
            &&& bitfield_wf(&a.have)
            &&& a.have.len_view() == num_pieces
            &&& a.have.cnt_view() == 0
            &&& a.have.byte_view() == Seq::new((num_pieces / 8 + 1) as nat, |k: int| 0u8)
            &&& a.greeting@ == MessageView::Interested
        },
{
    if !seen.record(id) {
        return None;
    }
    let mut state = State::new();
    state.am_interested = true;
    Some(Admission { state, have: BitfieldOwned::new(num_pieces), greeting: Message::Interested })
}

/// The same id recorded twice: the second time the peer is already known,
/// so only one of two connections with one id goes on.
pub proof fn lemma_admit_once(seen: Set<Seq<u8>>, id: Seq<u8>)
    ensures
        seen.insert(id).contains(id),
        seen.insert(id).insert(id) == seen.insert(id),
{
    assert(seen.insert(id).insert(id) =~= seen.insert(id));
}

} // verus!
