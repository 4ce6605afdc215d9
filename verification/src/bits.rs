//! MSB-first bit strings, held in `bitvec`'s `BitVec<u8, Msb0>`.
use bitvec::order::Msb0;
use bitvec::vec::BitVec;
use vstd::prelude::*;

verus! {

/// A bit string in NGAP's layout: a `bitvec` `BitVec<u8, Msb0>`, whose
/// bits are packed into bytes most significant bit first.
#[verifier::external_body]
#[derive(Debug, PartialEq, Eq)]
pub struct MsbBitVec {
    inner: BitVec<u8, Msb0>,
}

/// The bits that a bit string holds, first bit first.
pub uninterp spec fn bits_of(v: MsbBitVec) -> Seq<bool>;

/// The most bits a `BitVec<u8, Msb0>` can hold (`BitSlice::MAX_BITS`, that
/// is `usize::MAX >> 3`, in `bitvec`).
pub open spec fn max_bits() -> int {
    (usize::MAX as int) / 8
}

impl MsbBitVec {
    /// `BitVec::new`: claims that the new bit-vector holds no bit.
    #[verifier::external_body]
    pub(crate) fn new() -> (r: MsbBitVec)
        ensures
            bits_of(r) == Seq::<bool>::empty(),
    {
        MsbBitVec { inner: BitVec::new() }
    }

    /// `BitVec::push`: claims that the bit is appended after the bits
    /// already held. `push` panics when the new length exceeds
    /// `BitSlice::MAX_BITS`, which the precondition rules out.
    #[verifier::external_body]
    pub(crate) fn push(&mut self, b: bool)
        requires
            bits_of(*old(self)).len() + 1 <= max_bits(),
        ensures
            bits_of(*final(self)) == bits_of(*old(self)).push(b),
    {
        self.inner.push(b)
    }

    /// `BitVec::len`: claims that the result is the number of bits held.
    #[verifier::external_body]
    pub fn len(&self) -> (r: usize)
        ensures
            r == bits_of(*self).len(),
    {
        self.inner.len()
    }

    /// Indexing a `BitVec` (`Index<usize>`, which panics out of bounds):
    /// claims that the result is the bit at position `i`, counted from the
    /// first bit.
    #[verifier::external_body]
    pub fn get(&self, i: usize) -> (r: bool)
        requires
            i < bits_of(*self).len(),
        ensures
            r == bits_of(*self)[i as int],
    {
        self.inner[i]
    }

    /// The bits, first bit first.
    pub fn to_bools(&self) -> (r: Vec<bool>)
        ensures
            r@ == bits_of(*self),
    {
        let n = self.len();
        let mut r: Vec<bool> = Vec::new();
        let mut i: usize = 0;
        while i < n
            invariant
                i <= n,
                n == bits_of(*self).len(),
                r@ == bits_of(*self).take(i as int),
            decreases n - i,
        {
            r.push(self.get(i));
            i = i + 1;
            assert(r@ =~= bits_of(*self).take(i as int));
        }
        assert(bits_of(*self).take(n as int) =~= bits_of(*self));
        r
    }
}

} // verus!
