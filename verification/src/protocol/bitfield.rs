//! The bitfield of the peer wire protocol, held in a `bitvec` bit vector over
//! bytes, the high bit of each byte first.

use bitvec::order::Msb0;
use bitvec::vec::BitVec;
use vstd::prelude::*;

verus! {

/// The pieces that a peer has: bit `i` is set where the peer has piece `i`.
/// The bit vector itself stays opaque; `bitfield_bits` and `bitfield_raw` name
/// what it holds.
#[verifier::external_body]
#[derive(Debug, PartialEq, Eq)]
pub struct Bitfield {
    bits: BitVec<u8, Msb0>,
}

/// The bits of a bitfield, index 0 first.
pub uninterp spec fn bitfield_bits(b: Bitfield) -> Seq<bool>;

/// The bytes that hold the bits of a bitfield, as its raw slice shows them.
pub uninterp spec fn bitfield_raw(b: Bitfield) -> Seq<u8>;

/// Bit `i` of `raw`, counting from the high bit of the first byte.
pub open spec fn msb0_bit(raw: Seq<u8>, i: int) -> bool {
    (raw[i / 8] >> ((7 - i % 8) as u8)) & 1u8 == 1u8
}

/// The bits that `raw` holds, the high bit of each byte first.
pub open spec fn msb0_bits(raw: Seq<u8>) -> Seq<bool> {
    Seq::new(8 * raw.len(), |i: int| msb0_bit(raw, i))
}

/// The bits that a byte holds read back as that byte, the first bit the most
/// significant: bit `8 * i + j` of `raw` is the bit of weight `2^(7 - j)` of
/// byte `i`.
pub proof fn lemma_msb0_byte(raw: Seq<u8>, i: int)
    requires
        0 <= i < raw.len(),
    ensures
        ({
            let bits = msb0_bits(raw);
            let w = |j: int| if bits[8 * i + j] {
                1int
            } else {
                0int
            };
            128 * w(0) + 64 * w(1) + 32 * w(2) + 16 * w(3) + 8 * w(4) + 4 * w(5) + 2 * w(6) + w(7)
                == raw[i]
        }),
{
    let b = raw[i];
    assert((8 * i + 0) / 8 == i && (8 * i + 0) % 8 == 0 && (8 * i + 1) / 8 == i && (8 * i + 1) % 8 == 1 && (8 * i + 2) / 8 == i && (8 * i + 2) % 8 == 2 && (8 * i + 3) / 8 == i && (8 * i + 3) % 8 == 3 && (8 * i + 4) / 8 == i && (8 * i + 4) % 8 == 4 && (8 * i + 5) / 8 == i && (8 * i + 5) % 8 == 5 && (8 * i + 6) / 8 == i && (8 * i + 6) % 8 == 6 && (8 * i + 7) / 8 == i && (8 * i + 7) % 8 == 7) by (nonlinear_arith)
        requires
            0 <= i,
    ;
    assert(8 * i + 8 <= 8 * raw.len()) by (nonlinear_arith)
        requires
            i < raw.len(),
    ;
    assert(128 * (if (b >> 7u8) & 1u8 == 1u8 { 1int } else { 0int }) + 64 * (if (b >> 6u8) & 1u8 == 1u8 {
        1int
    } else {
        0int
    }) + 32 * (if (b >> 5u8) & 1u8 == 1u8 { 1int } else { 0int }) + 16 * (if (b >> 4u8) & 1u8
        == 1u8 { 1int } else { 0int }) + 8 * (if (b >> 3u8) & 1u8 == 1u8 { 1int } else { 0int }) + 4
        * (if (b >> 2u8) & 1u8 == 1u8 { 1int } else { 0int }) + 2 * (if (b >> 1u8) & 1u8 == 1u8 {
        1int
    } else {
        0int
    }) + (if (b >> 0u8) & 1u8 == 1u8 { 1int } else { 0int }) == b) by (bit_vector);
}

impl Bitfield {
    /// Calls `BitVec::from_vec`, which takes the vector's bytes as its storage
    /// and spans all their bits. It panics only where the vector is too long to
    /// be addressed in bits, which the bound here rules out.
    #[verifier::external_body]
    fn from_vec(raw: Vec<u8>) -> (r: Bitfield)
        requires
            raw@.len() < usize::MAX / 64,
        ensures
            bitfield_raw(r) == raw@,
            bitfield_bits(r) == msb0_bits(raw@),
    {
        Bitfield { bits: BitVec::from_vec(raw) }
    }

    /// A bitfield over the bytes `raw`, all their bits counted.
    pub fn from_bytes(raw: Vec<u8>) -> (r: Bitfield)
        requires
            raw@.len() < usize::MAX / 64,
        ensures
            bitfield_raw(r) == raw@,
            bitfield_bits(r) == msb0_bits(raw@),
    {
        Bitfield::from_vec(raw)
    }

    /// Calls `BitVec::len`: the number of bits.
    #[verifier::external_body]
    pub(crate) fn len(&self) -> (r: usize)
        ensures
            r == bitfield_bits(*self).len(),
    {
        self.bits.len()
    }

    /// Calls `BitSlice` indexing: bit `idx`. Indexing panics past the last
    /// bit, which the bound rules out.
    #[verifier::external_body]
    pub(crate) fn get(&self, idx: usize) -> (r: bool)
        requires
            idx < bitfield_bits(*self).len(),
        ensures
            r == bitfield_bits(*self)[idx as int],
    {
        self.bits[idx]
    }

    /// Calls `BitSlice::set`: bit `idx` becomes `value` and the others stay;
    /// the bytes keep their number. It panics past the last bit, which the
    /// bound rules out.
    #[verifier::external_body]
    pub(crate) fn set(&mut self, idx: usize, value: bool)
        requires
            idx < bitfield_bits(*old(self)).len(),
        ensures
            bitfield_bits(*final(self)) == bitfield_bits(*old(self)).update(idx as int, value),
            bitfield_raw(*final(self)).len() == bitfield_raw(*old(self)).len(),
    {
        self.bits.set(idx, value)
    }

    /// Calls `BitVec::truncate`: keeps the first `new_len` bits where there
    /// are more, and then the bytes that hold them.
    #[verifier::external_body]
    pub(crate) fn truncate(&mut self, new_len: usize)
        ensures
            new_len < bitfield_bits(*old(self)).len() ==> bitfield_bits(*final(self))
                == bitfield_bits(*old(self)).take(new_len as int) && bitfield_raw(*final(self))
                == bitfield_raw(*old(self)).take((new_len as int + 7) / 8),
            new_len >= bitfield_bits(*old(self)).len() ==> bitfield_bits(*final(self))
                == bitfield_bits(*old(self)) && bitfield_raw(*final(self)) == bitfield_raw(
                *old(self),
            ),
    {
        self.bits.truncate(new_len)
    }

    /// Calls `BitVec::as_raw_slice`: the bytes that hold the bits.
    #[verifier::external_body]
    pub(crate) fn as_raw_slice(&self) -> (r: &[u8])
        ensures
            r@ == bitfield_raw(*self),
    {
        self.bits.as_raw_slice()
    }
}

} // verus!
