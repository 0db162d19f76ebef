//! Small allocation helpers.

use vstd::prelude::*;

verus! {

/// A heap-allocated byte buffer of the requested size, zero-filled.
pub fn boxed_array(size: usize) -> (v: Vec<u8>)
    ensures
        v@ == Seq::new(size as nat, |i: int| 0u8),
{
    let mut v: Vec<u8> = Vec::with_capacity(size);
    let mut n: usize = 0;
    while n < size
        invariant
            n <= size,
            v@ == Seq::new(n as nat, |i: int| 0u8),
        decreases size - n,
    {
        v.push(0);
        n = n + 1;
        proof {
            assert(v@ =~= Seq::new(n as nat, |i: int| 0u8));
        }
    }
    v
}

} // verus!
