//! A simpler piece bitfield, with bytes sized `(size + 7) / 8`. Its bit test
//! compares the masked byte with 1, so only bit position 0 of a byte ever
//! reads as marked, and marking a bit masks its byte down to that bit.
use vstd::prelude::*;

verus! {

/// The number of marked bits among the low `n` bits of `b`.
pub open spec fn ones_below(b: u8, n: nat) -> nat
    decreases n,
{
    if n == 0 {
        0
    } else {
        ones_below(b, (n - 1) as nat) + if (b >> ((n - 1) as u8)) & 1u8 == 1u8 {
            1nat
        } else {
            0nat
        }
    }
}

/// The number of marked bits of `b`.
pub open spec fn ones(b: u8) -> nat {
    ones_below(b, 8)
}

/// The number of marked bits of all the bytes.
pub open spec fn ones_in(bytes: Seq<u8>) -> nat
    decreases bytes.len(),
{
    if bytes.len() == 0 {
        0
    } else {
        ones_in(bytes.drop_last()) + ones(bytes.last())
    }
}

/// The number of marked bits of `b`, bit by bit.
pub fn count_ones(b: u8) -> (r: u32)
    ensures
        r == ones(b),
{
    let mut n: u32 = 0;
    let mut i: u8 = 0;
    while i < 8
        invariant
            0 <= i <= 8,
            n == ones_below(b, i as nat),
            n <= i,
        decreases 8 - i,
    {
        if (b >> i) & 1 == 1 {
            n = n + 1;
        }
        i = i + 1;
    }
    n
}

/// The bit test of this bitfield: the masked byte equals 1.
pub open spec fn marked(byte: u8, offset: int) -> bool {
    byte & ((1u8 << (offset as u8)) as u8) == 1
}

/// A piece bitfield: `length` bits in `inner`, and a count of marks.
#[derive(Clone)]
pub struct Bitfield {
    inner: Vec<u8>,
    cnt_marked: u32,
    length: u32,
}

impl Bitfield {
    /// The bytes.
    pub closed spec fn bytes_spec(&self) -> Seq<u8> {
        self.inner@
    }

    /// The number of bits.
    pub closed spec fn len_spec(&self) -> int {
        self.length as int
    }

    /// The count of marks.
    pub closed spec fn cnt_spec(&self) -> int {
        self.cnt_marked as int
    }

    /// `size` bits, none marked, in `(size + 7) / 8` zeroed bytes.
    pub fn new(size: u32) -> (r: Self)
        requires
            size + 7 <= u32::MAX,
        ensures
            r.len_spec() == size,
            r.cnt_spec() == 0,
            r.bytes_spec() == Seq::new(((size + 7) / 8) as nat, |i: int| 0u8),
    {
        let r = Self { length: size, cnt_marked: 0, inner: vec![0u8; ((size + 7) / 8) as usize] };
        assert(r.inner@ =~= Seq::new(((size + 7) / 8) as nat, |i: int| 0u8));
        r
    }

    fn get_bit_index(index: u32) -> (r: (usize, u8))
        ensures
            r.0 == index / 8,
            r.1 == index % 8,
    {
        ((index / 8) as usize, (index % 8) as u8)
    }

    fn check_offset(byte: u8, offset: u8) -> (r: bool)
        requires
            offset < 8,
        ensures
            r == marked(byte, offset as int),
    {
        (byte & (1u8 << offset)) == 1
    }

    /// The number of bits.
    pub fn len(&self) -> (r: u32)
        ensures
            r == self.len_spec(),
    {
        self.length
    }

    /// The number of bits not marked; the count must not exceed the length.
    pub fn rem(&self) -> (r: u32)
        requires
            self.cnt_spec() <= self.len_spec(),
        ensures
            r == self.len_spec() - self.cnt_spec(),
    {
        self.length - self.cnt_marked
    }

    /// Bit `index`, by this bitfield's test. The index must be below the
    /// length and have its byte.
    pub fn get(&self, index: u32) -> (r: bool)
        requires
            index < self.len_spec(),
            index / 8 < self.bytes_spec().len(),
        ensures
            r == marked(self.bytes_spec()[index as int / 8], index as int % 8),
    {
        let (byte_index, offset) = Self::get_bit_index(index);
        Self::check_offset(self.inner[byte_index], offset)
    }

    /// Marks bit `index`: unless the bit test already holds, masks its byte
    /// down to the bit and counts one more mark. The index must be below the
    /// length and have its byte, and the count must have room.
    pub fn set(&mut self, index: u32)
        requires
            index < old(self).len_spec(),
            index / 8 < old(self).bytes_spec().len(),
            old(self).cnt_spec() < u32::MAX,
        ensures
            final(self).len_spec() == old(self).len_spec(),
            ({
                let b = old(self).bytes_spec()[index as int / 8];
                if marked(b, index as int % 8) {
                    final(self).bytes_spec() == old(self).bytes_spec() && final(self).cnt_spec()
                        == old(self).cnt_spec()
                } else {
                    final(self).bytes_spec() == old(self).bytes_spec().update(
                        index as int / 8,
                        b & ((1u8 << ((index % 8) as u8)) as u8),
                    ) && final(self).cnt_spec() == old(self).cnt_spec() + 1
                }
            }),
    {
        let (byte_index, offset) = Self::get_bit_index(index);
        let byte = self.inner[byte_index];
        if byte & (1u8 << offset) == 1 {
            return;
        }
        self.inner.set(byte_index, byte & (1u8 << offset));
        self.cnt_marked = self.cnt_marked + 1;
    }

    /// A bitfield of `size` bits over a copy of `buf`, counting every marked
    /// bit of every byte.
    pub fn from(buf: &[u8], size: u32) -> (r: Self)
        requires
            size + 7 <= u32::MAX,
            ones_in(buf@) <= u32::MAX,
        ensures
            r.len_spec() == size,
            r.bytes_spec() == buf@,
            r.cnt_spec() == ones_in(buf@),
    {
        let mut bitfield = Bitfield::new(size);
        bitfield.inner = vstd::slice::slice_to_vec(buf);
        let mut i: usize = 0;
        while i < buf.len()
            invariant
                0 <= i <= buf@.len(),
                bitfield.inner@ == buf@,
                bitfield.length == size,
                bitfield.cnt_marked == ones_in(buf@.subrange(0, i as int)),
                ones_in(buf@) <= u32::MAX,
            decreases buf@.len() - i,
        {
            proof {
                assert(buf@.subrange(0, i + 1).drop_last() =~= buf@.subrange(0, i as int));
                lemma_ones_in_prefix(buf@, i + 1);
            }
            bitfield.cnt_marked = bitfield.cnt_marked + count_ones(buf[i]);
            i = i + 1;
        }
        assert(buf@.subrange(0, buf@.len() as int) =~= buf@);
        bitfield
    }
}

/// A prefix holds no more marks than the whole.
proof fn lemma_ones_in_prefix(bytes: Seq<u8>, k: int)
    requires
        0 <= k <= bytes.len(),
    ensures
        ones_in(bytes.subrange(0, k)) <= ones_in(bytes),
    decreases bytes.len() - k,
{
    if k < bytes.len() {
        lemma_ones_in_prefix(bytes, k + 1);
        assert(bytes.subrange(0, k + 1).drop_last() =~= bytes.subrange(0, k));
    } else {
        assert(bytes.subrange(0, k) =~= bytes);
    }
}

} // verus!
