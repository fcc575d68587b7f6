//! Bitfields of pieces or blocks: bit `i` lives in byte `i / 8`, at bit
//! position `i % 8` counted from the least significant bit.
use vstd::prelude::*;

verus! {

/// The mask of bit position `offset` within a byte.
pub open spec fn mask(offset: int) -> u8 {
    (1u8 << (offset as u8)) as u8
}

/// Whether bit `i` of `bytes` is marked.
pub open spec fn bit_at(bytes: Seq<u8>, i: int) -> bool {
    bytes[i / 8] & mask(i % 8) != 0
}

/// How many of the first `n` bits of `bytes` are marked.
pub open spec fn count_marked(bytes: Seq<u8>, n: nat) -> nat
    decreases n,
{
    if n == 0 {
        0
    } else {
        count_marked(bytes, (n - 1) as nat) + if bit_at(bytes, n - 1) {
            1nat
        } else {
            0nat
        }
    }
}

/// `bytes` with bit `i` marked (`target`) or cleared (`!target`), all other
/// bits kept.
pub open spec fn with_bit(bytes: Seq<u8>, i: int, target: bool) -> Seq<u8> {
    let b = bytes[i / 8];
    bytes.update(i / 8, if target { b | mask(i % 8) } else { b & !mask(i % 8) })
}

/// At most `n` of the first `n` bits are marked.
pub proof fn lemma_count_marked_le(bytes: Seq<u8>, n: nat)
    ensures
        count_marked(bytes, n) <= n,
    decreases n,
{
    if n > 0 {
        lemma_count_marked_le(bytes, (n - 1) as nat);
    }
}

/// Two byte strings that agree on the first `n` bits count the same number of
/// marks there.
pub proof fn lemma_count_marked_agree(a: Seq<u8>, b: Seq<u8>, n: nat)
    requires
        forall|j: int| 0 <= j < n ==> bit_at(a, j) == bit_at(b, j),
    ensures
        count_marked(a, n) == count_marked(b, n),
    decreases n,
{
    if n > 0 {
        lemma_count_marked_agree(a, b, (n - 1) as nat);
    }
}

/// The bytes in the facts below: masks of different positions are disjoint.
proof fn lemma_mask_bits(b: u8, o: u8, o2: u8)
    requires
        o < 8,
        o2 < 8,
    ensures
        ((b | (1u8 << o)) & (1u8 << o)) != 0,
        ((b & !(1u8 << o)) & (1u8 << o)) == 0,
        o != o2 ==> (((b | (1u8 << o)) & (1u8 << o2)) != 0) == ((b & (1u8 << o2)) != 0),
        o != o2 ==> (((b & !(1u8 << o)) & (1u8 << o2)) != 0) == ((b & (1u8 << o2)) != 0),
        (b & (1u8 << o)) == 0 ==> (b ^ (1u8 << o)) == (b | (1u8 << o)),
        (b & (1u8 << o)) != 0 ==> (b ^ (1u8 << o)) == (b & !(1u8 << o)),
        ((b >> o) & 1u8 == 1u8) == ((b & (1u8 << o)) != 0),
        (0u8 & (1u8 << o)) == 0,
        (b & (1u8 << o)) != 0 ==> (b | (1u8 << o)) == b,
        (b & (1u8 << o)) == 0 ==> (b & !(1u8 << o)) == b,
{
    assert((b & (1u8 << o)) != 0 ==> (b | (1u8 << o)) == b) by (bit_vector)
        requires
            o < 8,
    ;
    assert((b & (1u8 << o)) == 0 ==> (b & !(1u8 << o)) == b) by (bit_vector)
        requires
            o < 8,
    ;
    assert(((b | (1u8 << o)) & (1u8 << o)) != 0) by (bit_vector)
        requires
            o < 8,
    ;
    assert(((b & !(1u8 << o)) & (1u8 << o)) == 0) by (bit_vector)
        requires
            o < 8,
    ;
    assert(o != o2 ==> (((b | (1u8 << o)) & (1u8 << o2)) != 0) == ((b & (1u8 << o2)) != 0))
        by (bit_vector)
        requires
            o < 8,
            o2 < 8,
    ;
    assert(o != o2 ==> (((b & !(1u8 << o)) & (1u8 << o2)) != 0) == ((b & (1u8 << o2)) != 0))
        by (bit_vector)
        requires
            o < 8,
            o2 < 8,
    ;
    assert((b & (1u8 << o)) == 0 ==> (b ^ (1u8 << o)) == (b | (1u8 << o))) by (bit_vector)
        requires
            o < 8,
    ;
    assert((b & (1u8 << o)) != 0 ==> (b ^ (1u8 << o)) == (b & !(1u8 << o))) by (bit_vector)
        requires
            o < 8,
    ;
    assert(((b >> o) & 1u8 == 1u8) == ((b & (1u8 << o)) != 0)) by (bit_vector)
        requires
            o < 8,
    ;
    assert((0u8 & (1u8 << o)) == 0) by (bit_vector);
}

/// Marking or clearing bit `i` changes no other bit, and leaves bit `i` as
/// asked.
pub proof fn lemma_with_bit(bytes: Seq<u8>, i: int, target: bool)
    requires
        0 <= i,
        i / 8 < bytes.len(),
    ensures
        with_bit(bytes, i, target).len() == bytes.len(),
        bit_at(with_bit(bytes, i, target), i) == target,
        forall|j: int|
            0 <= j < bytes.len() * 8 && j != i ==> #[trigger] bit_at(with_bit(bytes, i, target), j)
                == bit_at(bytes, j),
{
    let nb = with_bit(bytes, i, target);
    let b = bytes[i / 8];
    lemma_mask_bits(b, (i % 8) as u8, 0);
    assert forall|j: int| 0 <= j < bytes.len() * 8 && j != i implies #[trigger] bit_at(nb, j)
        == bit_at(bytes, j) by {
        if j / 8 == i / 8 {
            assert(j % 8 != i % 8);
            lemma_mask_bits(b, (i % 8) as u8, (j % 8) as u8);
        }
    }
}

/// How the count changes when one bit is marked or cleared.
pub proof fn lemma_count_with_bit(bytes: Seq<u8>, i: int, target: bool, n: nat)
    requires
        0 <= i < n,
        n <= bytes.len() * 8,
    ensures
        count_marked(with_bit(bytes, i, target), n) + (if bit_at(bytes, i) {
            1int
        } else {
            0int
        }) == count_marked(bytes, n) + (if target {
            1int
        } else {
            0int
        }),
    decreases n,
{
    lemma_with_bit(bytes, i, target);
    let nb = with_bit(bytes, i, target);
    if i == n - 1 {
        lemma_count_marked_agree(nb, bytes, (n - 1) as nat);
    } else {
        lemma_count_with_bit(bytes, i, target, (n - 1) as nat);
        assert(bit_at(nb, n - 1) == bit_at(bytes, n - 1));
    }
}

/// No bit of a zeroed byte string is marked.
pub proof fn lemma_count_zeros(bytes: Seq<u8>, n: nat)
    requires
        n <= bytes.len() * 8,
        forall|k: int| 0 <= k < bytes.len() ==> bytes[k] == 0,
    ensures
        count_marked(bytes, n) == 0,
    decreases n,
{
    if n > 0 {
        let i = n - 1;
        lemma_mask_bits(0, (i % 8) as u8, 0);
        lemma_count_zeros(bytes, (n - 1) as nat);
    }
}

/// No bit of a zeroed byte string is marked.
pub proof fn lemma_zeros_unmarked(bytes: Seq<u8>, i: int)
    requires
        0 <= i < bytes.len() * 8,
        forall|k: int| 0 <= k < bytes.len() ==> bytes[k] == 0,
    ensures
        !bit_at(bytes, i),
{
    lemma_mask_bits(0, (i % 8) as u8, 0);
}

/// The stored count of a bitfield is the number of its marked bits, and
/// every bit has its byte.
pub open spec fn bitfield_wf<B: Bitfield + ?Sized>(b: &B) -> bool {
    &&& b.len_view() <= b.byte_view().len() * 8
    &&& b.cnt_view() == count_marked(b.byte_view(), b.len_view())
    &&& b.len_view() <= u32::MAX
}

/// In a well-formed bitfield no more bits are marked than there are.
pub proof fn lemma_wf_cnt_le<B: Bitfield + ?Sized>(b: &B)
    requires
        bitfield_wf(b),
    ensures
        b.cnt_view() <= b.len_view(),
{
    lemma_count_marked_le(b.byte_view(), b.len_view());
}

/// A bitfield of `len()` bits stored in `bytes()`, with the number of marked
/// bits kept beside it.
pub trait Bitfield {
    /// The bytes that hold the bits.
    spec fn byte_view(&self) -> Seq<u8>;

    /// The number of bits.
    spec fn len_view(&self) -> nat;

    /// The stored count of marked bits.
    spec fn cnt_view(&self) -> nat;

    /// The number of bits.
    fn len(&self) -> (r: u32)
        ensures
            r == self.len_view(),
    ;

    /// The number of marked bits.
    fn cnt_marked(&self) -> (r: u32)
        ensures
            r == self.cnt_view(),
    ;

    /// Bit `index`, or `None` past the end.
    fn get(&self, index: u32) -> (r: Option<bool>)
        requires
            self.len_view() <= self.byte_view().len() * 8,
        ensures
            r == (if index < self.len_view() {
                Some(bit_at(self.byte_view(), index as int))
            } else {
                None
            }),
    ;

    /// The bytes that hold the bits.
    fn bytes(&self) -> (r: &[u8])
        ensures
            r@ == self.byte_view(),
    ;

    /// The byte that holds bit `index`, and the bit's position in it.
    fn bit_index(index: u32) -> (r: (usize, u8))
        ensures
            r.0 == index / 8,
            r.1 == index % 8,
    {
        ((index / 8) as usize, (index % 8) as u8)
    }

    /// Whether bit position `offset` of `byte` is marked.
    fn check_offset(byte: u8, offset: u8) -> (r: bool)
        requires
            offset < 8,
        ensures
            r == (byte & mask(offset as int) != 0),
    {
        (byte & (1u8 << offset)) != 0
    }

    /// The number of bits not marked.
    fn rem(&self) -> (r: u32)
        requires
            self.cnt_view() <= self.len_view(),
        ensures
            r == self.len_view() - self.cnt_view(),
    {
        self.len() - self.cnt_marked()
    }
}

/// A bitfield read in place from a borrowed buffer.
#[derive(Debug)]
pub struct BitfieldRef<'a> {
    bytes: &'a [u8],
    cnt_marked: u32,
    length: u32,
}

impl<'a> BitfieldRef<'a> {
    /// Reads `length` bits from `buf` and counts the marked ones. Every bit
    /// must have its byte in `buf`.
    pub fn new(buf: &'a [u8], length: u32) -> (r: Self)
        requires
            length <= buf@.len() * 8,
        ensures
            bitfield_wf(&r),
            r.byte_view() == buf@,
            r.len_view() == length,
            r.cnt_view() == count_marked(buf@, length as nat),
    {
        let mut bf = Self { bytes: buf, cnt_marked: 0, length };
        for i in 0..length
            invariant
                bf.bytes@ == buf@,
                bf.length == length,
                length <= buf@.len() * 8,
                bf.cnt_marked == count_marked(buf@, i as nat),
                bf.cnt_marked <= i,
        {
            let mut next = bf.cnt_marked;
            if bf.get(i).unwrap() {
                next = next + 1;
            }
            bf.cnt_marked = next;
        }
        bf
    }
}

impl<'a> Bitfield for BitfieldRef<'a> {
    closed spec fn byte_view(&self) -> Seq<u8> {
        self.bytes@
    }

    closed spec fn len_view(&self) -> nat {
        self.length as nat
    }

    closed spec fn cnt_view(&self) -> nat {
        self.cnt_marked as nat
    }

    fn bytes(&self) -> (r: &[u8]) {
        self.bytes
    }

    fn len(&self) -> (r: u32) {
        self.length
    }

    fn cnt_marked(&self) -> (r: u32) {
        self.cnt_marked
    }

    fn get(&self, index: u32) -> (r: Option<bool>) {
        if index >= self.len() {
            return None;
        }
        let (byte_index, offset) = Self::bit_index(index);
        Some(Self::check_offset(self.bytes[byte_index], offset))
    }
}

/// A bitfield that owns its bytes and can be changed bit by bit.
#[derive(Debug)]
pub struct BitfieldOwned {
    bytes: Vec<u8>,
    cnt_marked: u32,
    length: u32,
}

impl Bitfield for BitfieldOwned {
    closed spec fn byte_view(&self) -> Seq<u8> {
        self.bytes@
    }

    closed spec fn len_view(&self) -> nat {
        self.length as nat
    }

    closed spec fn cnt_view(&self) -> nat {
        self.cnt_marked as nat
    }

    fn bytes(&self) -> (r: &[u8]) {
        self.bytes.as_slice()
    }

    fn len(&self) -> (r: u32) {
        self.length
    }

    fn cnt_marked(&self) -> (r: u32) {
        self.cnt_marked
    }

    fn get(&self, index: u32) -> (r: Option<bool>) {
        if index >= self.len() {
            return None;
        }
        let (byte_index, offset) = Self::bit_index(index);
        Some(Self::check_offset(self.bytes[byte_index], offset))
    }
}

impl BitfieldOwned {
    /// An empty bitfield of `length` bits, none marked, in
    /// `length / 8 + 1` zeroed bytes.
    pub fn new(length: u32) -> (r: Self)
        ensures
            bitfield_wf(&r),
            r.len_view() == length,
            r.cnt_view() == 0,
            r.byte_view() == Seq::new((length / 8 + 1) as nat, |k: int| 0u8),
    {
        let (n, _) = Self::bit_index(length);
        let bytes = vec![0u8; n + 1];
        proof {
            lemma_count_zeros(bytes@, length as nat);
        }
        let r = Self { bytes, length, cnt_marked: 0 };
        assert(r.byte_view() =~= Seq::new((length / 8 + 1) as nat, |k: int| 0u8));
        r
    }

    /// Marks (`target`) or clears bit `index` and returns the number of bits
    /// not marked. An index past the end is refused by `requires`.
    pub fn set(&mut self, index: u32, target: bool) -> (r: u32)
        requires
            bitfield_wf(old(self)),
            index < old(self).len_view(),
        ensures
            bitfield_wf(final(self)),
            final(self).len_view() == old(self).len_view(),
            final(self).byte_view() == with_bit(old(self).byte_view(), index as int, target),
            final(self).cnt_view() == count_marked(final(self).byte_view(), final(self).len_view()),
            r == final(self).len_view() - final(self).cnt_view(),
    {
        let ghost old_bytes = self.bytes@;
        let ghost n = self.length as nat;
        proof {
            lemma_with_bit(old_bytes, index as int, target);
            lemma_count_with_bit(old_bytes, index as int, target, n);
            lemma_count_marked_le(old_bytes, n);
            lemma_count_marked_le(with_bit(old_bytes, index as int, target), n);
            lemma_mask_bits(old_bytes[index as int / 8], (index % 8) as u8, 0);
        }
        let (byte_index, offset) = Self::bit_index(index);
        let byte = self.bytes[byte_index];
        if ((byte >> offset & 1) == 1) == target {
            assert(self.bytes@ =~= with_bit(old_bytes, index as int, target));
            return self.rem();
        }
        self.bytes.set(byte_index, byte ^ (1u8 << offset));
        assert(self.bytes@ =~= with_bit(old_bytes, index as int, target));
        if target {
            self.cnt_marked = self.cnt_marked + 1;
        } else {
            self.cnt_marked = self.cnt_marked - 1;
        }
        self.rem()
    }

    /// Copies a borrowed bitfield: same bytes, same length, same count.
    pub fn from(value: BitfieldRef) -> (r: Self)
        ensures
            r.byte_view() == value.byte_view(),
            r.len_view() == value.len_view(),
            r.cnt_view() == value.cnt_view(),
            bitfield_wf(&value) ==> bitfield_wf(&r),
    {
        Self {
            bytes: vstd::slice::slice_to_vec(value.bytes()),
            cnt_marked: value.cnt_marked,
            length: value.length,
        }
    }
}

} // verus!
