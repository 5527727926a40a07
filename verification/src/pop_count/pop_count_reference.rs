//! The bit-at-a-time population count, and the definition it is measured against.

use vstd::prelude::*;

verus! {

/// Bit `i` of `x`, as 0 or 1.
pub open spec fn bit_at(x: u32, i: nat) -> nat {
    ((x >> i) & 1) as nat
}

/// How many of the `n` lowest bits of `x` are set.
pub open spec fn ones_below(x: u32, n: nat) -> nat
    decreases n,
{
    if n == 0 {
        0
    } else {
        ones_below(x, (n - 1) as nat) + bit_at(x, (n - 1) as nat)
    }
}

/// The number of set bits in `x`.
pub open spec fn bit_count(x: u32) -> nat {
    ones_below(x, 32)
}

/// Counts the set bits of `x` by inspecting each of the 32 positions in turn.
pub fn pop_count_reference(x: u32) -> (count: u32)
    ensures
        count == bit_count(x),
{
    let mut count: u32 = 0;
    for i in 0..32u32
        invariant
            count == ones_below(x, i as nat),
            count <= i,
    {
        let has_bit_i: u32 = (x >> i) & 1;
        assert(has_bit_i <= 1) by (bit_vector)
            requires
                has_bit_i == (x >> i) & 1,
        ;
        count += has_bit_i;
    }
    count
}

} // verus!
