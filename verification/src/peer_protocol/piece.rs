//! Piece bookkeeping: the torrent's piece geometry, which blocks of which
//! pieces have arrived, and the buffers that hold them.
use std::collections::{HashMap, HashSet};
use vstd::prelude::*;

use crate::bitfield::{bit_at, bitfield_wf, count_marked, with_bit, Bitfield, BitfieldOwned, BitfieldRef};

verus! {

broadcast use vstd::std_specs::hash::group_hash_axioms;

/// The block size asked of peers unless another is given.
pub const DEFAULT_BLOCK_SIZE: u32 = 16384;

/// The geometry of a torrent: total length, nominal piece length, block size,
/// and the concatenated 20-byte piece hashes.
pub struct Metadata {
    total_len: u64,
    piece_len: u32,
    block_size: u32,
    hashes: Vec<u8>,
}

impl Metadata {
    pub closed spec fn total_len_spec(&self) -> int {
        self.total_len as int
    }

    /// The nominal length of every piece but the last.
    pub closed spec fn nominal_len_spec(&self) -> int {
        self.piece_len as int
    }

    pub closed spec fn block_size_spec(&self) -> int {
        self.block_size as int
    }

    pub closed spec fn hashes_spec(&self) -> Seq<u8> {
        self.hashes@
    }

    /// The number of pieces: the total length divided by the piece length,
    /// rounded up.
    pub open spec fn num_pieces_spec(&self) -> int {
        (self.total_len_spec() + self.nominal_len_spec() - 1) / self.nominal_len_spec()
    }

    /// The length of the last piece: what the total leaves over, or a whole
    /// piece when it leaves nothing.
    pub open spec fn last_piece_len_spec(&self) -> int {
        if self.total_len_spec() % self.nominal_len_spec() == 0 {
            self.nominal_len_spec()
        } else {
            self.total_len_spec() % self.nominal_len_spec()
        }
    }

    /// The length of piece `i`.
    pub open spec fn piece_len_spec(&self, i: int) -> int {
        if i == self.num_pieces_spec() - 1 {
            self.last_piece_len_spec()
        } else {
            self.nominal_len_spec()
        }
    }

    /// The number of blocks in piece `i`, the last one possibly short.
    pub open spec fn num_blocks_spec(&self, i: int) -> int {
        (self.piece_len_spec(i) + self.block_size_spec() - 1) / self.block_size_spec()
    }

    /// The byte offset of piece `i` in the torrent.
    pub open spec fn piece_offset_spec(&self, i: int) -> int {
        self.nominal_len_spec() * i
    }

    /// The sum of the lengths of the pieces before piece `n`.
    pub open spec fn pieces_total(&self, n: int) -> int
        decreases n,
    {
        if n <= 0 {
            0
        } else {
            self.pieces_total(n - 1) + self.piece_len_spec(n - 1)
        }
    }

    /// Lengths are positive and the piece count fits in a `u32`.
    pub open spec fn wf(&self) -> bool {
        &&& self.nominal_len_spec() > 0
        &&& self.block_size_spec() > 0
        &&& self.total_len_spec() + self.nominal_len_spec() <= u64::MAX
        &&& self.num_pieces_spec() <= u32::MAX
    }

    fn new(total_len: u64, piece_len: u32, block_size: Option<u32>, hashes: Vec<u8>) -> (r: Self)
        ensures
            r.total_len_spec() == total_len,
            r.nominal_len_spec() == piece_len,
            r.block_size_spec() == match block_size {
                Some(b) => b as int,
                None => DEFAULT_BLOCK_SIZE as int,
            },
            r.hashes_spec() == hashes@,
    {
        Self {
            total_len,
            piece_len,
            block_size: match block_size {
                Some(b) => b,
                None => DEFAULT_BLOCK_SIZE,
            },
            hashes,
        }
    }

    fn last_piece_len(&self) -> (r: u32)
        requires
            self.wf(),
        ensures
            r == self.last_piece_len_spec(),
    {
        let ret = self.total_len % (self.piece_len as u64);
        if ret == 0 {
            return self.piece_len;
        }
        assert(ret < self.piece_len);
        ret as u32
    }

    /// The number of pieces.
    pub fn num_pieces(&self) -> (r: u32)
        requires
            self.wf(),
        ensures
            r == self.num_pieces_spec(),
    {
        ((self.total_len + self.piece_len as u64 - 1) / (self.piece_len as u64)) as u32
    }

    /// The length of piece `piece_index`: the nominal length, or for the last
    /// piece what the total leaves over. It needs at least one piece.
    pub fn piece_len(&self, piece_index: u32) -> (r: u32)
        requires
            self.wf(),
            self.num_pieces_spec() >= 1,
        ensures
            r == self.piece_len_spec(piece_index as int),
    {
        if piece_index == self.num_pieces() - 1 {
            return self.last_piece_len();
        }
        self.piece_len
    }

    fn num_blocks(&self, piece_index: u32) -> (r: u32)
        requires
            self.wf(),
            self.num_pieces_spec() >= 1,
            self.piece_len_spec(piece_index as int) + self.block_size_spec() <= u32::MAX,
        ensures
            r == self.num_blocks_spec(piece_index as int),
    {
        (self.piece_len(piece_index) + self.block_size - 1) / self.block_size
    }

    fn block_index(&self, block_offset: u32) -> (r: u32)
        requires
            self.wf(),
            block_offset as int % self.block_size_spec() == 0,
        ensures
            r == block_offset as int / self.block_size_spec(),
    {
        block_offset / self.block_size
    }

    /// The number of bytes of concatenated piece hashes.
    pub fn hashes_len(&self) -> (r: usize)
        ensures
            r == self.hashes_spec().len(),
    {
        self.hashes.len()
    }

    /// The size of the blocks asked of peers.
    pub fn block_size(&self) -> (r: u32)
        ensures
            r == self.block_size_spec(),
    {
        self.block_size
    }

    /// The byte offset of piece `piece_index` in the torrent.
    pub fn piece_offset(&self, piece_index: u32) -> (r: u64)
        ensures
            r == self.piece_offset_spec(piece_index as int),
            r <= 18446744065119617025,
    {
        let a = self.piece_len as u64;
        let b = piece_index as u64;
        assert(a * b <= 18446744065119617025) by (nonlinear_arith)
            requires
                a <= u32::MAX,
                b <= u32::MAX,
        ;
        a * b
    }

    /// The 20-byte hash of piece `piece_index`, taken from the concatenated
    /// hashes.
    pub fn piece_hash(&self, piece_index: u32) -> (r: &[u8])
        requires
            piece_index * 20 <= u32::MAX,
            piece_index * 20 + 20 <= self.hashes_spec().len(),
        ensures
            r@ == self.hashes_spec().subrange(piece_index * 20, piece_index * 20 + 20),
    {
        let len = self.hashes.len();
        let offset = (piece_index * 20) as usize;
        &self.hashes.as_slice()[offset..offset + 20]
    }
}

/// Every piece before the last has the nominal length, the last the
/// remainder, and all of them together make up the torrent.
pub proof fn lemma_pieces_cover_total(m: &Metadata)
    requires
        m.wf(),
        m.total_len_spec() > 0,
    ensures
        m.num_pieces_spec() >= 1,
        0 < m.last_piece_len_spec() <= m.nominal_len_spec(),
        m.pieces_total(m.num_pieces_spec()) == m.total_len_spec(),
        forall|i: int| 0 <= i <= m.num_pieces_spec() - 1 ==> #[trigger] m.pieces_total(i) == m.piece_offset_spec(i),
{
    let t = m.total_len_spec();
    let p = m.nominal_len_spec();
    let n = m.num_pieces_spec();
    let q = t / p;
    let r = t % p;
    assert(t == q * p + r && 0 <= r < p) by (nonlinear_arith)
        requires
            p > 0,
            q == t / p,
            r == t % p,
    ;
    if r == 0 {
        assert(n == q) by (nonlinear_arith)
            requires
                p > 0,
                t == q * p,
                n == (t + p - 1) / p,
        ;
    } else {
        assert(n == q + 1) by (nonlinear_arith)
            requires
                p > 0,
                t == q * p + r,
                0 < r < p,
                n == (t + p - 1) / p,
        ;
    }
    assert(n >= 1) by (nonlinear_arith)
        requires
            t > 0,
            t == q * p + r,
            0 <= r < p,
            r == 0 ==> n == q,
            r != 0 ==> n == q + 1,
    ;
    lemma_prefix_offsets(m, n - 1);
    assert(m.pieces_total(n) == m.pieces_total(n - 1) + m.last_piece_len_spec());
    assert(p * (n - 1) + m.last_piece_len_spec() == t) by (nonlinear_arith)
        requires
            t == q * p + r,
            r == 0 ==> n == q && m.last_piece_len_spec() == p,
            r != 0 ==> n == q + 1 && m.last_piece_len_spec() == r,
    ;
}

/// Before the last piece, the pieces so far add up to their offset.
proof fn lemma_prefix_offsets(m: &Metadata, k: int)
    requires
        m.wf(),
        0 <= k <= m.num_pieces_spec() - 1,
    ensures
        forall|i: int| 0 <= i <= k ==> #[trigger] m.pieces_total(i) == m.piece_offset_spec(i),
    decreases k,
{
    let p = m.nominal_len_spec();
    if k > 0 {
        lemma_prefix_offsets(m, k - 1);
        assert(p * (k - 1) + p == p * k) by (nonlinear_arith);
        assert(m.pieces_total(k) == m.pieces_total(k - 1) + p);
    } else {
        assert(p * 0 == 0);
    }
}


/// Where a received block sits: at `offset_in_buffer` in the piece's receive
/// buffer, at `offset_in_piece` in the piece, `size` bytes long.
#[derive(Debug)]
pub struct BlockInfo {
    pub offset_in_buffer: u32,
    pub offset_in_piece: u32,
    pub size: usize,
}

impl BlockInfo {
    fn new(offset_in_buffer: u32, offset_in_piece: u32, block_size: usize) -> (r: Self)
        ensures
            r == (BlockInfo { offset_in_buffer, offset_in_piece, size: block_size }),
    {
        Self { offset_in_buffer, offset_in_piece, size: block_size }
    }

    /// The block's byte range in the receive buffer.
    pub fn get_range(&self) -> (r: (usize, usize))
        requires
            self.offset_in_buffer + self.size <= usize::MAX,
        ensures
            r.0 == self.offset_in_buffer,
            r.1 == self.offset_in_buffer + self.size,
    {
        (self.offset_in_buffer as usize, self.offset_in_buffer as usize + self.size)
    }
}

/// How many of the blocks have not arrived (are `None`).
pub open spec fn missing_blocks(blocks: Seq<Option<BlockInfo>>) -> nat
    decreases blocks.len(),
{
    if blocks.len() == 0 {
        0
    } else {
        missing_blocks(blocks.drop_last()) + if blocks.last() is None {
            1nat
        } else {
            0nat
        }
    }
}

/// No block is missing exactly when every block has arrived.
pub proof fn lemma_missing_blocks_zero(blocks: Seq<Option<BlockInfo>>)
    ensures
        missing_blocks(blocks) == 0 <==> forall|k: int| 0 <= k < blocks.len() ==> #[trigger] blocks[k] is Some,
    decreases blocks.len(),
{
    if blocks.len() > 0 {
        let init = blocks.drop_last();
        lemma_missing_blocks_zero(init);
        assert forall|k: int| 0 <= k < init.len() implies #[trigger] init[k] == blocks[k] by {}
        if missing_blocks(blocks) == 0 {
            assert forall|k: int| 0 <= k < blocks.len() implies #[trigger] blocks[k] is Some by {
                if k < init.len() {
                    assert(init[k] is Some);
                }
            }
        } else {
            if missing_blocks(init) != 0 {
                let k = choose|k: int| 0 <= k < init.len() && !(#[trigger] init[k] is Some);
                assert(!(blocks[k] is Some));
            } else {
                assert(!(blocks[blocks.len() - 1] is Some));
            }
        }
    }
}

/// Marked bits and arrived blocks agree on the first `n` slots: the marked
/// bits and the missing blocks among them add up to `n`.
proof fn lemma_count_and_missing(bytes: Seq<u8>, blocks: Seq<Option<BlockInfo>>, n: nat)
    requires
        n <= blocks.len(),
        forall|k: int| 0 <= k < n ==> (#[trigger] blocks[k] is Some <==> bit_at(bytes, k)),
    ensures
        count_marked(bytes, n) + missing_blocks(blocks.take(n as int)) == n,
    decreases n,
{
    if n > 0 {
        lemma_count_and_missing(bytes, blocks, (n - 1) as nat);
        assert(blocks.take(n as int).drop_last() =~= blocks.take(n - 1));
        assert(blocks.take(n as int).last() == blocks[n - 1]);
    } else {
        assert(blocks.take(0) =~= Seq::<Option<BlockInfo>>::empty());
    }
}

/// The blocks of one piece received so far: a bitfield of the blocks and,
/// for each block received, where it lies.
pub struct PieceInfo {
    have: BitfieldOwned,
    blocks: Vec<Option<BlockInfo>>,
}

impl PieceInfo {
    /// Where each block lies, `None` for blocks not received.
    pub closed spec fn blocks_spec(&self) -> Seq<Option<BlockInfo>> {
        self.blocks@
    }

    /// The number of blocks not received yet.
    pub closed spec fn rem_spec(&self) -> int {
        self.have.len_view() - self.have.cnt_view()
    }

    /// The bitfield of received blocks matches the recorded blocks.
    pub closed spec fn wf(&self) -> bool {
        &&& bitfield_wf(&self.have)
        &&& self.have.len_view() == self.blocks@.len()
        &&& forall|k: int|
            0 <= k < self.blocks@.len() ==> (#[trigger] self.blocks@[k] is Some <==> bit_at(
                self.have.byte_view(),
                k,
            ))
    }

    /// The count of blocks not received is the number of block slots
    /// still empty.
    pub proof fn lemma_rem_is_missing(&self)
        requires
            self.wf(),
        ensures
            self.rem_spec() == missing_blocks(self.blocks_spec()),
    {
        lemma_count_and_missing(self.have.byte_view(), self.blocks@, self.blocks@.len());
        assert(self.blocks@.take(self.blocks@.len() as int) =~= self.blocks@);
    }

    fn new(num_blocks: u32) -> (r: Self)
        ensures
            r.wf(),
            r.blocks_spec().len() == num_blocks,
            forall|k: int| 0 <= k < num_blocks ==> #[trigger] r.blocks_spec()[k] is None,
            r.rem_spec() == num_blocks,
    {
        let mut blocks: Vec<Option<BlockInfo>> = Vec::new();
        for _i in 0..num_blocks
            invariant
                blocks@.len() == _i,
                forall|k: int| 0 <= k < blocks@.len() ==> #[trigger] blocks@[k] is None,
        {
            blocks.push(None);
        }
        let have = BitfieldOwned::new(num_blocks);
        let r = Self { have, blocks };
        assert forall|k: int| 0 <= k < r.blocks@.len() implies (#[trigger] r.blocks@[k] is Some
            <==> bit_at(r.have.byte_view(), k)) by {
            crate::bitfield::lemma_zeros_unmarked(r.have.byte_view(), k);
        }
        r
    }

    fn add_block(
        &mut self,
        block_index: u32,
        offset_in_buffer: u32,
        offset_in_piece: u32,
        block_size: usize,
    ) -> (r: u32)
        requires
            old(self).wf(),
            block_index < old(self).blocks_spec().len(),
        ensures
            final(self).wf(),
            final(self).blocks_spec() == old(self).blocks_spec().update(
                block_index as int,
                Some(BlockInfo { offset_in_buffer, offset_in_piece, size: block_size }),
            ),
            r == final(self).rem_spec(),
    {
        proof {
            crate::bitfield::lemma_with_bit(self.have.byte_view(), block_index as int, true);
        }
        self.blocks.set(
            block_index as usize,
            Some(BlockInfo::new(offset_in_buffer, offset_in_piece, block_size)),
        );
        self.have.set(block_index, true)
    }
}


/// Receive buffers of pieces, keyed by piece index: each holds the blocks of
/// its piece in the order they arrived.
pub struct PieceBuffer {
    inner: HashMap<u32, Vec<u8>>,
}

impl View for PieceBuffer {
    type V = Map<u32, Seq<u8>>;

    closed spec fn view(&self) -> Map<u32, Seq<u8>> {
        Map::new(|k: u32| self.inner@.contains_key(k), |k: u32| self.inner@[k]@)
    }
}

/// The receive buffer of piece `piece_index`, empty if there is none yet.
pub open spec fn buffer_of(m: Map<u32, Seq<u8>>, piece_index: u32) -> Seq<u8> {
    if m.contains_key(piece_index) {
        m[piece_index]
    } else {
        Seq::empty()
    }
}

/// The receive buffers after appending `ops` in order to no buffers, each
/// op a piece index and the bytes appended to its buffer.
pub open spec fn appended(ops: Seq<(u32, Seq<u8>)>) -> Map<u32, Seq<u8>>
    decreases ops.len(),
{
    if ops.len() == 0 {
        Map::empty()
    } else {
        let m = appended(ops.drop_last());
        let (p, data) = ops.last();
        m.insert(p, buffer_of(m, p) + data)
    }
}

/// The bytes appended for piece `i`, in the order of `ops`.
pub open spec fn appended_for(ops: Seq<(u32, Seq<u8>)>, i: u32) -> Seq<u8>
    decreases ops.len(),
{
    if ops.len() == 0 {
        Seq::empty()
    } else {
        appended_for(ops.drop_last(), i) + if ops.last().0 == i {
            ops.last().1
        } else {
            Seq::empty()
        }
    }
}

/// After a series of appends to fresh buffers, piece `i` has a buffer
/// exactly when something was appended for it, and its buffer is what was
/// appended for it, in order.
pub proof fn lemma_appends_concatenate(ops: Seq<(u32, Seq<u8>)>, i: u32)
    ensures
        appended(ops).contains_key(i) <==> exists|k: int| 0 <= k < ops.len() && (#[trigger] ops[k]).0 == i,
        buffer_of(appended(ops), i) == appended_for(ops, i),
    decreases ops.len(),
{
    if ops.len() > 0 {
        let init = ops.drop_last();
        lemma_appends_concatenate(init, i);
        if appended(init).contains_key(i) {
            let k = choose|k: int| 0 <= k < init.len() && (#[trigger] init[k]).0 == i;
            assert(ops[k] == init[k]);
        }
        if exists|k: int| 0 <= k < ops.len() && (#[trigger] ops[k]).0 == i {
            let k = choose|k: int| 0 <= k < ops.len() && (#[trigger] ops[k]).0 == i;
            if k < init.len() {
                assert(init[k] == ops[k]);
            }
        }
        if ops.last().0 != i {
            assert(appended_for(init, i) + Seq::<u8>::empty() =~= appended_for(init, i));
        }
    }
}

/// One more append is one more step of `appended`: what `PieceBuffer::append`
/// does to the buffers.
pub proof fn lemma_append_step(ops: Seq<(u32, Seq<u8>)>, piece_index: u32, data: Seq<u8>)
    ensures
        appended(ops.push((piece_index, data))) == appended(ops).insert(
            piece_index,
            buffer_of(appended(ops), piece_index) + data,
        ),
{
    assert(ops.push((piece_index, data)).drop_last() =~= ops);
}

impl PieceBuffer {
    /// No buffers.
    pub fn new() -> (r: Self)
        ensures
            r@ == Map::<u32, Seq<u8>>::empty(),
    {
        let r = Self { inner: HashMap::new() };
        assert(r@ =~= Map::<u32, Seq<u8>>::empty());
        r
    }

    /// Appends `buf` to the buffer of piece `piece_index` (creating it) and
    /// returns where it starts there, cast to `u32`.
    pub fn append(&mut self, piece_index: u32, buf: &[u8]) -> (r: u32)
        ensures
            final(self)@ == old(self)@.insert(piece_index, buffer_of(old(self)@, piece_index) + buf@),
            r == #[verifier::truncate] (buffer_of(old(self)@, piece_index).len() as u32),
    {
        let ghost old_map = self@;
        let ghost old_inner = self.inner@;
        let removed = self.inner.remove(&piece_index);
        assert(self.inner@ == old_inner.remove(piece_index));
        let offset: usize = match removed {
            None => {
                assert(!old_inner.contains_key(piece_index));
                let v = vstd::slice::slice_to_vec(buf);
                assert(v@ == buffer_of(old_map, piece_index) + buf@);
                self.inner.insert(piece_index, v);
                0
            },
            Some(v) => {
                assert(old_inner.contains_key(piece_index) && old_inner[piece_index] == v);
                let mut v = v;
                let offset = v.len();
                v.extend_from_slice(buf);
                assert(v@ == buffer_of(old_map, piece_index) + buf@);
                self.inner.insert(piece_index, v);
                offset
            },
        };
        assert(self@ =~= old_map.insert(piece_index, buffer_of(old_map, piece_index) + buf@));
        #[verifier::truncate]
        (offset as u32)
    }

    /// The buffer of piece `piece_index`, which must exist.
    pub fn get(&self, piece_index: u32) -> (r: &Vec<u8>)
        requires
            self@.contains_key(piece_index),
        ensures
            r@ == self@[piece_index],
    {
        self.inner.get(&piece_index).unwrap()
    }
}


/// The bytes of the blocks, in block order, cut from the receive buffer
/// `buf`.
pub open spec fn assembled(buf: Seq<u8>, blocks: Seq<Option<BlockInfo>>) -> Seq<u8>
    decreases blocks.len(),
{
    if blocks.len() == 0 {
        Seq::empty()
    } else {
        let b = blocks.last().unwrap();
        assembled(buf, blocks.drop_last()) + buf.subrange(
            b.offset_in_buffer as int,
            b.offset_in_buffer + b.size,
        )
    }
}

/// The sum of the sizes of the first `k` blocks.
pub open spec fn sizes_before(blocks: Seq<Option<BlockInfo>>, k: int) -> int
    decreases k,
{
    if k <= 0 {
        0
    } else {
        sizes_before(blocks, k - 1) + blocks[k - 1].unwrap().size
    }
}

/// Every block has arrived, lies inside a receive buffer of `buf_len`
/// bytes, and starts in the piece where the blocks before it end.
pub open spec fn blocks_in_order(buf_len: int, blocks: Seq<Option<BlockInfo>>) -> bool {
    forall|k: int|
        0 <= k < blocks.len() ==> {
            &&& #[trigger] blocks[k] is Some
            &&& blocks[k].unwrap().offset_in_buffer + blocks[k].unwrap().size <= buf_len
            &&& blocks[k].unwrap().offset_in_piece == sizes_before(blocks, k)
        }
}

/// The sizes of the first `k` blocks depend on those blocks alone.
proof fn lemma_sizes_before_prefix(a: Seq<Option<BlockInfo>>, b: Seq<Option<BlockInfo>>, k: int)
    requires
        0 <= k <= a.len(),
        k <= b.len(),
        forall|j: int| 0 <= j < k ==> a[j] == b[j],
    ensures
        sizes_before(a, k) == sizes_before(b, k),
    decreases k,
{
    if k > 0 {
        lemma_sizes_before_prefix(a, b, k - 1);
    }
}

/// The sizes before a later block are no fewer.
proof fn lemma_sizes_before_mono(blocks: Seq<Option<BlockInfo>>, j: int, k: int)
    requires
        0 <= j <= k,
    ensures
        sizes_before(blocks, j) <= sizes_before(blocks, k),
    decreases k - j,
{
    if j < k {
        lemma_sizes_before_mono(blocks, j, k - 1);
    }
}

/// A piece put together from blocks that are all there and in order holds
/// each block's bytes from the receive buffer at the block's offset in the
/// piece, and is as long as the blocks together.
pub proof fn lemma_assembled_layout(buf: Seq<u8>, blocks: Seq<Option<BlockInfo>>)
    requires
        blocks_in_order(buf.len() as int, blocks),
    ensures
        assembled(buf, blocks).len() == sizes_before(blocks, blocks.len() as int),
        forall|k: int|
            0 <= k < blocks.len() ==> assembled(buf, blocks).subrange(
                (#[trigger] blocks[k]).unwrap().offset_in_piece as int,
                blocks[k].unwrap().offset_in_piece + blocks[k].unwrap().size,
            ) == buf.subrange(
                blocks[k].unwrap().offset_in_buffer as int,
                blocks[k].unwrap().offset_in_buffer + blocks[k].unwrap().size,
            ),
    decreases blocks.len(),
{
    if blocks.len() > 0 {
        let n = blocks.len() as int;
        let init = blocks.drop_last();
        assert forall|k: int| 0 <= k < init.len() implies {
            &&& #[trigger] init[k] is Some
            &&& init[k].unwrap().offset_in_buffer + init[k].unwrap().size <= buf.len()
            &&& init[k].unwrap().offset_in_piece == sizes_before(init, k)
        } by {
            assert(init[k] == blocks[k]);
            lemma_sizes_before_prefix(init, blocks, k);
        }
        lemma_assembled_layout(buf, init);
        lemma_sizes_before_prefix(init, blocks, n - 1);
        let a = assembled(buf, init);
        let last = blocks[n - 1].unwrap();
        let tail = buf.subrange(last.offset_in_buffer as int, last.offset_in_buffer + last.size);
        assert(assembled(buf, blocks) == a + tail);
        assert forall|k: int| 0 <= k < blocks.len() implies assembled(buf, blocks).subrange(
            (#[trigger] blocks[k]).unwrap().offset_in_piece as int,
            blocks[k].unwrap().offset_in_piece + blocks[k].unwrap().size,
        ) == buf.subrange(
            blocks[k].unwrap().offset_in_buffer as int,
            blocks[k].unwrap().offset_in_buffer + blocks[k].unwrap().size,
        ) by {
            let b = blocks[k].unwrap();
            if k < n - 1 {
                assert(init[k] == blocks[k]);
                lemma_sizes_before_mono(blocks, k + 1, n - 1);
                assert(sizes_before(blocks, k + 1) == sizes_before(blocks, k) + b.size);
                assert((a + tail).subrange(b.offset_in_piece as int, b.offset_in_piece + b.size) =~= a.subrange(
                    b.offset_in_piece as int,
                    b.offset_in_piece + b.size,
                ));
            } else {
                assert((a + tail).subrange(b.offset_in_piece as int, b.offset_in_piece + b.size) =~= tail);
            }
        }
    }
}

/// Whether the blocks are all there, inside a buffer of `buf_len` bytes,
/// and in order.
pub fn blocks_ready(blocks: &Vec<Option<BlockInfo>>, buf_len: usize) -> (r: bool)
    ensures
        r == blocks_in_order(buf_len as int, blocks@),
{
    let n = blocks.len();
    let mut sum: u128 = 0;
    let mut k: usize = 0;
    while k < n
        invariant
            n == blocks@.len(),
            0 <= k <= n,
            sum == sizes_before(blocks@, k as int),
            sum <= u32::MAX + usize::MAX,
            forall|j: int|
                0 <= j < k ==> {
                    &&& #[trigger] blocks@[j] is Some
                    &&& blocks@[j].unwrap().offset_in_buffer + blocks@[j].unwrap().size <= buf_len
                    &&& blocks@[j].unwrap().offset_in_piece == sizes_before(blocks@, j)
                },
        decreases n - k,
    {
        match &blocks[k] {
            None => {
                return false;
            },
            Some(b) => {
                if b.offset_in_buffer as usize > buf_len || b.size > buf_len - b.offset_in_buffer as usize {
                    return false;
                }
                if b.offset_in_piece as u128 != sum {
                    return false;
                }
                sum = sum + b.size as u128;
            },
        }
        k = k + 1;
    }
    true
}

/// The pieces below `n` marked in `buf` that are neither had nor reserved.
pub open spec fn fresh_pieces(buf: Seq<u8>, have: Seq<u8>, requested: Seq<u8>, n: int) -> Set<u32> {
    Set::new(
        |i: u32| i < n && bit_at(buf, i as int) && !bit_at(have, i as int) && !bit_at(requested, i as int),
    )
}

/// The state of the download: which pieces are had, which are reserved,
/// which are needed, and the blocks received of pieces not complete yet.
pub struct PieceTracker {
    pub metadata: Metadata,
    pub needed: HashSet<u32>,
    have: BitfieldOwned,
    requested: BitfieldOwned,
    buffered: HashMap<u32, PieceInfo>,
}

impl PieceTracker {
    /// The torrent's geometry.
    pub closed spec fn meta(&self) -> Metadata {
        self.metadata
    }

    /// The pieces needed.
    pub closed spec fn needed_spec(&self) -> Set<u32> {
        self.needed@
    }

    /// The bytes of the bitfield of pieces had.
    pub closed spec fn have_spec(&self) -> Seq<u8> {
        self.have.byte_view()
    }

    /// The bytes of the reservation bitfield.
    pub closed spec fn requested_spec(&self) -> Seq<u8> {
        self.requested.byte_view()
    }

    /// Whether piece `i` is had.
    pub open spec fn has_spec(&self, i: int) -> bool {
        bit_at(self.have_spec(), i)
    }

    /// Whether the bit of piece `i` in the reservation bitfield is marked.
    pub open spec fn reserved_spec(&self, i: int) -> bool {
        bit_at(self.requested_spec(), i)
    }

    /// The number of pieces had.
    pub closed spec fn had_count(&self) -> nat {
        self.have.cnt_view()
    }

    /// The blocks received so far, by piece.
    pub closed spec fn buffered_spec(&self) -> Map<u32, PieceInfo> {
        self.buffered@
    }

    /// The pieces had and reserved are tracked for each piece, and each piece
    /// being received has one entry per block.
    pub closed spec fn wf(&self) -> bool {
        &&& self.metadata.wf()
        &&& bitfield_wf(&self.have)
        &&& bitfield_wf(&self.requested)
        &&& self.have.len_view() == self.metadata.num_pieces_spec()
        &&& self.requested.len_view() == self.metadata.num_pieces_spec()
        &&& forall|k: u32| #[trigger]
            self.buffered@.contains_key(k) ==> {
                &&& k < self.metadata.num_pieces_spec()
                &&& self.buffered@[k].wf()
                &&& self.buffered@[k].blocks_spec().len() == self.metadata.num_blocks_spec(k as int)
            }
    }

    /// What a well-formed tracker guarantees of its parts.
    pub proof fn lemma_wf(&self)
        requires
            self.wf(),
        ensures
            self.meta().wf(),
            self.meta().num_pieces_spec() <= self.have_spec().len() * 8,
            self.meta().num_pieces_spec() <= self.requested_spec().len() * 8,
            self.had_count() == count_marked(self.have_spec(), self.meta().num_pieces_spec() as nat),
            self.had_count() <= self.meta().num_pieces_spec(),
            forall|k: u32| #[trigger]
                self.buffered_spec().contains_key(k) ==> k < self.meta().num_pieces_spec()
                    && self.buffered_spec()[k].blocks_spec().len() == self.meta().num_blocks_spec(k as int),
    {
        crate::bitfield::lemma_wf_cnt_le(&self.have);
    }

    /// A tracker for a torrent of `total_len` bytes in pieces of `piece_len`
    /// bytes: nothing had, nothing reserved, nothing needed.
    pub fn new(total_len: u64, piece_len: u32, hashes: Vec<u8>) -> (r: Self)
        requires
            piece_len > 0,
            total_len + piece_len <= u64::MAX,
            (total_len + piece_len - 1) / (piece_len as int) <= u32::MAX,
        ensures
            r.wf(),
            r.meta().total_len_spec() == total_len,
            r.meta().nominal_len_spec() == piece_len,
            r.meta().block_size_spec() == DEFAULT_BLOCK_SIZE,
            r.meta().hashes_spec() == hashes@,
            r.needed_spec() == Set::<u32>::empty(),
            r.had_count() == 0,
            forall|i: int| 0 <= i < r.meta().num_pieces_spec() ==> !#[trigger] r.has_spec(i) && !r.reserved_spec(i),
            r.buffered_spec() == Map::<u32, PieceInfo>::empty(),
    {
        let metadata = Metadata::new(total_len, piece_len, None, hashes);
        let n = metadata.num_pieces();
        let have = BitfieldOwned::new(n);
        let requested = BitfieldOwned::new(n);
        let r = Self { have, requested, metadata, needed: HashSet::new(), buffered: HashMap::new() };
        assert forall|i: int| 0 <= i < r.meta().num_pieces_spec() implies !#[trigger] r.has_spec(i)
            && !r.reserved_spec(i) by {
            crate::bitfield::lemma_zeros_unmarked(r.have.byte_view(), i);
            crate::bitfield::lemma_zeros_unmarked(r.requested.byte_view(), i);
        }
        r
    }

    /// Whether piece `piece_index` is had, `None` past the last piece.
    pub fn has_piece(&self, piece_index: u32) -> (r: Option<bool>)
        requires
            self.wf(),
        ensures
            r == (if piece_index < self.meta().num_pieces_spec() {
                Some(self.has_spec(piece_index as int))
            } else {
                None
            }),
    {
        self.have.get(piece_index)
    }

    /// Whether the reservation bit of piece `piece_index` is marked, `None`
    /// past the last piece.
    pub fn is_reserved(&self, piece_index: u32) -> (r: Option<bool>)
        requires
            self.wf(),
        ensures
            r == (if piece_index < self.meta().num_pieces_spec() {
                Some(self.reserved_spec(piece_index as int))
            } else {
                None
            }),
    {
        self.requested.get(piece_index)
    }

    /// Adds piece `piece_index` to the needed pieces when it is a piece of the
    /// torrent, not had, and its reservation bit is clear.
    pub fn update_single(&mut self, piece_index: u32)
        requires
            old(self).wf(),
        ensures
            final(self).wf(),
            final(self).needed_spec() == (if piece_index < old(self).meta().num_pieces_spec()
                && !old(self).has_spec(piece_index as int) && !old(self).reserved_spec(
                piece_index as int,
            ) {
                old(self).needed_spec().insert(piece_index)
            } else {
                old(self).needed_spec()
            }),
            final(self).meta() == old(self).meta(),
            final(self).have_spec() == old(self).have_spec(),
            final(self).had_count() == old(self).had_count(),
            final(self).requested_spec() == old(self).requested_spec(),
            final(self).buffered_spec() == old(self).buffered_spec(),
    {
        let had = match self.has_piece(piece_index) {
            Some(b) => b,
            None => true,
        };
        let reserved = match self.is_reserved(piece_index) {
            Some(b) => b,
            None => true,
        };
        if !had && !reserved {
            self.needed.insert(piece_index);
        }
    }

    /// Adds every piece marked in the peer bitfield `buf` that
    /// `update_single` would add. The bitfield must cover every piece.
    pub fn update_multiple(&mut self, buf: &[u8])
        requires
            old(self).wf(),
            old(self).meta().num_pieces_spec() <= buf@.len() * 8,
        ensures
            final(self).wf(),
            final(self).needed_spec() == old(self).needed_spec().union(
                Set::new(
                    |i: u32|
                        i < old(self).meta().num_pieces_spec() && bit_at(buf@, i as int)
                            && !old(self).has_spec(i as int) && !old(self).reserved_spec(i as int),
                ),
            ),
            final(self).meta() == old(self).meta(),
            final(self).have_spec() == old(self).have_spec(),
            final(self).had_count() == old(self).had_count(),
            final(self).requested_spec() == old(self).requested_spec(),
            final(self).buffered_spec() == old(self).buffered_spec(),
    {
        let bitfield = BitfieldRef::new(buf, self.metadata.num_pieces());
        let len = bitfield.len();
        for i in 0..len
            invariant
                self.wf(),
                len == self.metadata.num_pieces_spec(),
                bitfield.byte_view() == buf@,
                bitfield.len_view() == len,
                len <= buf@.len() * 8,
                self.metadata == old(self).metadata,
                self.have_spec() == old(self).have_spec(),
                self.had_count() == old(self).had_count(),
                self.requested_spec() == old(self).requested_spec(),
                self.buffered_spec() == old(self).buffered_spec(),
                self.needed@ == old(self).needed_spec().union(fresh_pieces(buf@, old(self).have_spec(), old(self).requested_spec(), i as int)),
        {
            let ghost pre = self.needed@;
            let marked = bitfield.get(i).unwrap();
            if marked {
                self.update_single(i);
            }
            let ghost fresh = bit_at(buf@, i as int) && !old(self).has_spec(i as int)
                && !old(self).reserved_spec(i as int);
            assert(self.needed@ == if fresh { pre.insert(i) } else { pre });
            assert forall|x: u32| #[trigger] fresh_pieces(buf@, old(self).have_spec(), old(self).requested_spec(), i + 1).contains(x) == (fresh_pieces(buf@, old(self).have_spec(), old(self).requested_spec(), i as int).contains(x) || (x == i && fresh)) by {}
            assert(self.needed@ =~= old(self).needed_spec().union(fresh_pieces(buf@, old(self).have_spec(), old(self).requested_spec(), i + 1)));
        }
        assert(fresh_pieces(buf@, old(self).have_spec(), old(self).requested_spec(), len as int) =~= Set::new(
            |i: u32|
                i < old(self).meta().num_pieces_spec() && bit_at(buf@, i as int)
                    && !old(self).has_spec(i as int) && !old(self).reserved_spec(i as int),
        ));
    }

    /// The number of pieces not had.
    pub fn rem(&self) -> (r: u32)
        requires
            self.wf(),
        ensures
            r == self.meta().num_pieces_spec() - self.had_count(),
    {
        proof {
            crate::bitfield::lemma_wf_cnt_le(&self.have);
        }
        self.have.rem()
    }

    /// Records that a block of piece `piece_index` starting at
    /// `offset_in_piece` arrived and sits at `offset_in_buffer` in the
    /// piece's receive buffer; returns how many blocks of the piece are still
    /// missing. The piece must be one of the torrent's, the offset must fall
    /// on a block boundary of one of its blocks.
    pub fn on_block_buffered(
        &mut self,
        piece_index: u32,
        offset_in_buffer: u32,
        offset_in_piece: u32,
        block_size: usize,
    ) -> (r: u32)
        requires
            old(self).wf(),
            piece_index < old(self).meta().num_pieces_spec(),
            old(self).meta().piece_len_spec(piece_index as int) + old(self).meta().block_size_spec() <= u32::MAX,
            offset_in_piece as int % old(self).meta().block_size_spec() == 0,
            offset_in_piece as int / old(self).meta().block_size_spec() < old(self).meta().num_blocks_spec(piece_index as int),
        ensures
            final(self).wf(),
            final(self).meta() == old(self).meta(),
            final(self).needed_spec() == old(self).needed_spec(),
            final(self).have_spec() == old(self).have_spec(),
            final(self).had_count() == old(self).had_count(),
            final(self).requested_spec() == old(self).requested_spec(),
            final(self).buffered_spec().dom() == old(self).buffered_spec().dom().insert(piece_index),
            forall|k: u32| k != piece_index && #[trigger] old(self).buffered_spec().contains_key(k)
                ==> final(self).buffered_spec()[k] == old(self).buffered_spec()[k],
            final(self).buffered_spec()[piece_index].blocks_spec() == (if old(self).buffered_spec().contains_key(piece_index) {
                old(self).buffered_spec()[piece_index].blocks_spec()
            } else {
                Seq::new(old(self).meta().num_blocks_spec(piece_index as int) as nat, |k: int| None::<BlockInfo>)
            }).update(
                offset_in_piece as int / old(self).meta().block_size_spec(),
                Some(BlockInfo { offset_in_buffer, offset_in_piece, size: block_size }),
            ),
            final(self).buffered_spec()[piece_index].blocks_spec().len() == old(self).meta().num_blocks_spec(
                piece_index as int,
            ),
            r == missing_blocks(final(self).buffered_spec()[piece_index].blocks_spec()),
    {
        let ghost old_map = self.buffered@;
        let block_index = self.metadata.block_index(offset_in_piece);
        match self.buffered.remove(&piece_index) {
            None => {
                let num_blocks = self.metadata.num_blocks(piece_index);
                let mut piece_info = PieceInfo::new(num_blocks);
                let rem = piece_info.add_block(
                    block_index,
                    offset_in_buffer,
                    offset_in_piece,
                    block_size,
                );
                proof {
                    piece_info.lemma_rem_is_missing();
                }
                assert(piece_info.blocks_spec() == Seq::new(num_blocks as nat, |k: int| None::<BlockInfo>).update(
                    block_index as int,
                    Some(BlockInfo { offset_in_buffer, offset_in_piece, size: block_size }),
                ));
                self.buffered.insert(piece_index, piece_info);
                assert(self.buffered@.dom() =~= old_map.dom().insert(piece_index));
                rem
            },
            Some(piece_info) => {
                let mut piece_info = piece_info;
                let rem = piece_info.add_block(
                    block_index,
                    offset_in_buffer,
                    offset_in_piece,
                    block_size,
                );
                proof {
                    piece_info.lemma_rem_is_missing();
                }
                self.buffered.insert(piece_index, piece_info);
                assert(self.buffered@.dom() =~= old_map.dom().insert(piece_index));
                rem
            },
        }
    }

    /// Clears the reservation bit of piece `piece_index`.
    pub fn reserve_piece(&mut self, piece_index: u32)
        requires
            old(self).wf(),
            piece_index < old(self).meta().num_pieces_spec(),
        ensures
            final(self).wf(),
            final(self).requested_spec() == with_bit(old(self).requested_spec(), piece_index as int, false),
            final(self).meta() == old(self).meta(),
            final(self).needed_spec() == old(self).needed_spec(),
            final(self).have_spec() == old(self).have_spec(),
            final(self).had_count() == old(self).had_count(),
            final(self).buffered_spec() == old(self).buffered_spec(),
    {
        self.requested.set(piece_index, false);
    }

    /// Marks the reservation bit of piece `piece_index`.
    pub fn unreserve_piece(&mut self, piece_index: u32)
        requires
            old(self).wf(),
            piece_index < old(self).meta().num_pieces_spec(),
        ensures
            final(self).wf(),
            final(self).requested_spec() == with_bit(old(self).requested_spec(), piece_index as int, true),
            final(self).meta() == old(self).meta(),
            final(self).needed_spec() == old(self).needed_spec(),
            final(self).have_spec() == old(self).have_spec(),
            final(self).had_count() == old(self).had_count(),
            final(self).buffered_spec() == old(self).buffered_spec(),
    {
        self.requested.set(piece_index, true);
    }

    /// The recorded blocks of piece `piece_index`, which must be being
    /// received.
    pub fn piece_ordering(&self, piece_index: u32) -> (r: &Vec<Option<BlockInfo>>)
        requires
            self.buffered_spec().contains_key(piece_index),
        ensures
            r@ == self.buffered_spec()[piece_index].blocks_spec(),
    {
        &self.buffered.get(&piece_index).unwrap().blocks
    }

    /// The bytes of piece `piece_index` in piece order, cut out of its
    /// receive buffer block by block. Every block must have arrived, lie
    /// inside the buffer and follow on the one before it.
    #[verifier::rlimit(40)]
    pub fn ordered_piece(&self, piece_index: u32, pbuf: &PieceBuffer) -> (r: Vec<u8>)
        requires
            pbuf@.contains_key(piece_index),
            self.buffered_spec().contains_key(piece_index),
            blocks_in_order(pbuf@[piece_index].len() as int, self.buffered_spec()[piece_index].blocks_spec()),
        ensures
            r@ == assembled(pbuf@[piece_index], self.buffered_spec()[piece_index].blocks_spec()),
    {
        let piece = pbuf.get(piece_index);
        let blocks = self.piece_ordering(piece_index);
        let mut ordered: Vec<u8> = Vec::new();
        let n = blocks.len();
        let plen = piece.len();
        for i in 0..n
            invariant
                n == blocks@.len(),
                plen == piece@.len(),
                blocks_in_order(piece@.len() as int, blocks@),
                ordered@ == assembled(piece@, blocks@.take(i as int)),
                ordered@.len() == sizes_before(blocks@, i as int),
        {
            let binfo = blocks[i].as_ref().unwrap();
            proof {
                assert(blocks@[i as int] is Some);
            }
            let (s, e) = binfo.get_range();
            assert(binfo.offset_in_piece == ordered.len());
            let ghost before = ordered@;
            ordered.extend_from_slice(&piece.as_slice()[s..e]);
            proof {
                let t = blocks@.take(i + 1);
                assert(t.drop_last() =~= blocks@.take(i as int));
                assert(t.last() == blocks@[i as int]);
                assert(assembled(piece@, t) == assembled(piece@, blocks@.take(i as int)) + piece@.subrange(s as int, e as int));
                assert(ordered@ =~= before + piece@.subrange(s as int, e as int));
            }
        }
        assert(blocks@.take(n as int) =~= blocks@);
        ordered
    }

    /// Whether `hash` is the recorded hash of piece `piece_index`.
    pub fn verify_piece_hash(&self, piece_index: u32, hash: &[u8; 20]) -> (r: bool)
        requires
            piece_index * 20 <= u32::MAX,
            piece_index * 20 + 20 <= self.meta().hashes_spec().len(),
        ensures
            r == (self.meta().hashes_spec().subrange(piece_index * 20, piece_index * 20 + 20) == hash@),
    {
        let expected = self.metadata.piece_hash(piece_index);
        let mut i: usize = 0;
        while i < 20
            invariant
                0 <= i <= 20,
                expected@ == self.meta().hashes_spec().subrange(piece_index * 20, piece_index * 20 + 20),
                expected@.len() == 20,
                hash@.len() == 20,
                forall|k: int| 0 <= k < i ==> expected@[k] == hash@[k],
            decreases 20 - i,
        {
            if expected[i] != hash[i] {
                assert(expected@[i as int] != hash@[i as int]);
                assert(expected@ != hash@);
                return false;
            }
            i = i + 1;
        }
        assert(expected@ =~= hash@);
        true
    }

    /// Records that piece `piece_index` is saved: marks it had and drops its
    /// received blocks.
    pub fn on_piece_saved(&mut self, piece_index: u32)
        requires
            old(self).wf(),
            piece_index < old(self).meta().num_pieces_spec(),
        ensures
            final(self).wf(),
            final(self).have_spec() == with_bit(old(self).have_spec(), piece_index as int, true),
            final(self).had_count() == count_marked(final(self).have_spec(), final(self).meta().num_pieces_spec() as nat),
            final(self).had_count() == old(self).had_count() + if old(self).has_spec(piece_index as int) {
                0int
            } else {
                1int
            },
            final(self).buffered_spec() == old(self).buffered_spec().remove(piece_index),
            final(self).meta() == old(self).meta(),
            final(self).needed_spec() == old(self).needed_spec(),
            final(self).requested_spec() == old(self).requested_spec(),
    {
        proof {
            crate::bitfield::lemma_count_with_bit(
                self.have.byte_view(),
                piece_index as int,
                true,
                self.have.len_view(),
            );
        }
        self.have.set(piece_index, true);
        self.buffered.remove(&piece_index);
    }

    /// Whether no piece is needed.
    pub fn is_empty(&self) -> (r: bool)
        ensures
            r == self.needed_spec().is_empty(),
    {
        self.needed.is_empty()
    }

    /// A needed piece that `have` marks, if there is one; which one, when
    /// several are, follows the set's iteration order.
    pub fn find_needed(&self, have: &BitfieldOwned) -> (r: Option<u32>)
        requires
            bitfield_wf(have),
        ensures
            r matches Some(i) ==> self.needed_spec().contains(i) && i < have.len_view() && bit_at(
                have.byte_view(),
                i as int,
            ),
            r is None ==> forall|i: u32| #[trigger]
                self.needed_spec().contains(i) ==> !(i < have.len_view() && bit_at(
                    have.byte_view(),
                    i as int,
                )),
    {
        let ghost keys = self.needed@;
        let ghost mut seen: Set<u32> = Set::empty();
        for x in it: self.needed.iter()
            invariant
                bitfield_wf(have),
                keys == self.needed@,
                it.seq().unref().to_set() == keys,
                seen == it.seq().unref().take(it.index() as int).to_set(),
                it.index() == it.seq().len() ==> seen == keys,
                forall|i: u32| #[trigger] seen.contains(i) ==> !(i < have.len_view() && bit_at(
                    have.byte_view(),
                    i as int,
                )),
        {
            let marked = match have.get(*x) {
                Some(b) => b,
                None => false,
            };
            proof {
                assert(it.seq().unref()[it.index() as int] == *x);
            }
            if marked {
                proof {
                    assert(it.seq().unref().contains(*x));
                }
                return Some(*x);
            }
            proof {
                let s = it.seq().unref();
                let k = it.index() as int;
                assert(s.take(k + 1) =~= s.take(k).push(*x));
                s.take(k).lemma_push_to_set_commute(*x);
                seen = seen.insert(*x);
                assert(seen =~= s.take(k + 1).to_set());
                assert(k + 1 == s.len() ==> s.take(k + 1) =~= s);
            }
        }
        None
    }

    /// Drops piece `piece_index` from the needed pieces.
    pub fn unneed(&mut self, piece_index: u32)
        requires
            old(self).wf(),
        ensures
            final(self).wf(),
            final(self).needed_spec() == old(self).needed_spec().remove(piece_index),
            final(self).meta() == old(self).meta(),
            final(self).have_spec() == old(self).have_spec(),
            final(self).had_count() == old(self).had_count(),
            final(self).requested_spec() == old(self).requested_spec(),
            final(self).buffered_spec() == old(self).buffered_spec(),
    {
        self.needed.remove(&piece_index);
    }

    /// The torrent's geometry.
    pub fn metadata(&self) -> (r: &Metadata)
        ensures
            *r == self.meta(),
    {
        &self.metadata
    }
}

} // verus!
