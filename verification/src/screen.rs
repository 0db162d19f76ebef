//! The monochrome framebuffer, backed by bitvec's packed bit-vector.
//!
//! `bitvec::vec::BitVec` cannot be declared to the verifier directly (its
//! generic parameters are bounded by bitvec's own traits), so the vector is
//! held in a private field of an opaque struct.  Its contents are named by
//! `bits_of`, and each bit-slice operation the machine uses is exposed
//! through a trusted wrapper whose contract states, bit for bit, what
//! bitvec's documentation promises.

use vstd::prelude::*;

verus! {

/// A fixed-length row-major bit buffer, one bit per pixel.
#[verifier::external_body]
pub struct Screen {
    bits: bitvec::vec::BitVec,
}

/// The sequence of bits held by a screen buffer.
pub uninterp spec fn bits_of(s: Screen) -> Seq<bool>;

impl Screen {
    /// Relies on `BitVec::repeat`: a bit-vector of `len` copies of `bit`.
    #[verifier::external_body]
    pub fn new_filled(len: usize, bit: bool) -> (s: Screen)
        ensures
            bits_of(s) == Seq::new(len as nat, |i: int| bit),
    {
        Screen { bits: bitvec::vec::BitVec::repeat(bit, len) }
    }

    /// Relies on `BitSlice::len`: the number of bits in the buffer.
    #[verifier::external_body]
    pub fn len(&self) -> (n: usize)
        ensures
            n == bits_of(*self).len(),
    {
        self.bits.len()
    }

    /// Relies on bitvec's `Index` impl: reads the bit at `index`.
    #[verifier::external_body]
    pub fn get(&self, index: usize) -> (b: bool)
        requires
            index < bits_of(*self).len(),
        ensures
            b == bits_of(*self)[index as int],
    {
        self.bits[index]
    }

    /// Relies on `BitSlice::set`: writes one bit, the others stay.
    #[verifier::external_body]
    pub fn set(&mut self, index: usize, value: bool)
        requires
            index < bits_of(*old(self)).len(),
        ensures
            bits_of(*final(self)) == bits_of(*old(self)).update(index as int, value),
    {
        self.bits.set(index, value);
    }

    /// Relies on `BitSlice::fill` on the sub-slice `start..end`: those bits
    /// all become `value`, the others stay.
    #[verifier::external_body]
    pub fn fill_range(&mut self, start: usize, end: usize, value: bool)
        requires
            start <= end,
            end <= bits_of(*old(self)).len(),
        ensures
            bits_of(*final(self)) == Seq::new(
                bits_of(*old(self)).len(),
                |j: int|
                    if start <= j < end {
                        value
                    } else {
                        bits_of(*old(self))[j]
                    },
            ),
    {
        self.bits[start..end].fill(value);
    }

    /// Relies on `BitSlice::copy_within`: the bits `src_start..src_end` are
    /// copied to the positions starting at `dest`, the others stay; the
    /// ranges may overlap.  bitvec asserts that the source start and the
    /// destination lie strictly inside the buffer, even for an empty copy,
    /// so those bounds are required here.
    #[verifier::external_body]
    pub fn copy_within(&mut self, src_start: usize, src_end: usize, dest: usize)
        requires
            src_start <= src_end,
            src_start < bits_of(*old(self)).len(),
            src_end <= bits_of(*old(self)).len(),
            dest < bits_of(*old(self)).len(),
            dest + (src_end - src_start) <= bits_of(*old(self)).len(),
        ensures
            bits_of(*final(self)) == Seq::new(
                bits_of(*old(self)).len(),
                |j: int|
                    if dest <= j < dest + (src_end - src_start) {
                        bits_of(*old(self))[src_start + (j - dest)]
                    } else {
                        bits_of(*old(self))[j]
                    },
            ),
    {
        self.bits.copy_within(src_start..src_end, dest);
    }
}

} // verus!
