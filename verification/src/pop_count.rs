//! Counting the set bits of a 32-bit word.

use vstd::prelude::*;

pub mod pop_count_reference;

pub use pop_count_reference::pop_count_reference;
use pop_count_reference::{bit_count, ones_below};

verus! {

/// Counts the set bits of `x` with five rounds of masked additions: the word is
/// read as 32 one-bit counts, and each round adds neighbouring counts into
/// fields of twice the width, until a single 32-bit count is left.
pub fn pop_count(x: u32) -> (count: u32)
    ensures
        count == bit_count(x),
{
    let mut x: u32 = x;
    let ghost x0: u32 = x;

    let even: u32 = x & 0x55555555;
    let odd: u32 = x & 0xaaaaaaaa;
    assert(even + (odd >> 1u32) <= 0xaaaaaaaa) by (bit_vector)
        requires
            even == x & 0x55555555,
            odd == x & 0xaaaaaaaa,
    ;
    x = even + (odd >> 1);

    let even: u32 = x & 0x33333333;
    let odd: u32 = x & 0xcccccccc;
    assert(even + (odd >> 2u32) <= 0x66666666) by (bit_vector)
        requires
            even == x & 0x33333333,
            odd == x & 0xcccccccc,
    ;
    x = even + (odd >> 2);

    let even: u32 = x & 0x0f0f0f0f;
    let odd: u32 = x & 0xf0f0f0f0;
    assert(even + (odd >> 4u32) <= 0x1e1e1e1e) by (bit_vector)
        requires
            even == x & 0x0f0f0f0f,
            odd == x & 0xf0f0f0f0,
    ;
    x = even + (odd >> 4);

    let even: u32 = x & 0x00ff00ff;
    let odd: u32 = x & 0xff00ff00;
    assert(even + (odd >> 8u32) <= 0x01fe01fe) by (bit_vector)
        requires
            even == x & 0x00ff00ff,
            odd == x & 0xff00ff00,
    ;
    x = even + (odd >> 8);

    let even: u32 = x & 0x0000ffff;
    let odd: u32 = x & 0xffff0000;
    assert(even + (odd >> 16u32) <= 0x0001fffe) by (bit_vector)
        requires
            even == x & 0x0000ffff,
            odd == x & 0xffff0000,
    ;
    x = even + (odd >> 16);

    proof {
        lemma_swar_count(x0);
    }
    x
}

/// The five rounds of `pop_count`, as a formula.
spec fn swar(x: u32) -> u32 {
    let a: u32 = ((x & 0x55555555) + ((x & 0xaaaaaaaa) >> 1u32)) as u32;
    let b: u32 = ((a & 0x33333333) + ((a & 0xcccccccc) >> 2u32)) as u32;
    let c: u32 = ((b & 0x0f0f0f0f) + ((b & 0xf0f0f0f0) >> 4u32)) as u32;
    let d: u32 = ((c & 0x00ff00ff) + ((c & 0xff00ff00) >> 8u32)) as u32;
    ((d & 0x0000ffff) + ((d & 0xffff0000) >> 16u32)) as u32
}

/// The masked additions leave the number of set bits.
proof fn lemma_swar_count(x: u32)
    ensures
        swar(x) == bit_count(x),
{
    reveal_with_fuel(ones_below, 33);
    assert(swar(x) == ((x >> 0u32) & 1) + ((x >> 1u32) & 1) + ((x >> 2u32) & 1) + ((x >> 3u32) & 1)
        + ((x >> 4u32) & 1) + ((x >> 5u32) & 1) + ((x >> 6u32) & 1) + ((x >> 7u32) & 1) + ((x
        >> 8u32) & 1) + ((x >> 9u32) & 1) + ((x >> 10u32) & 1) + ((x >> 11u32) & 1) + ((x >> 12u32)
        & 1) + ((x >> 13u32) & 1) + ((x >> 14u32) & 1) + ((x >> 15u32) & 1) + ((x >> 16u32) & 1)
        + ((x >> 17u32) & 1) + ((x >> 18u32) & 1) + ((x >> 19u32) & 1) + ((x >> 20u32) & 1) + ((x
        >> 21u32) & 1) + ((x >> 22u32) & 1) + ((x >> 23u32) & 1) + ((x >> 24u32) & 1) + ((x
        >> 25u32) & 1) + ((x >> 26u32) & 1) + ((x >> 27u32) & 1) + ((x >> 28u32) & 1) + ((x
        >> 29u32) & 1) + ((x >> 30u32) & 1) + ((x >> 31u32) & 1)) by (bit_vector);
}

} // verus!
