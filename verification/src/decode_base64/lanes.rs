//! Fixed-width vectors of byte lanes, and the lane-wise operations the
//! vectorised decoder is built from.
//!
//! A vector is an array; every operation treats all lanes alike and none lets
//! one lane decide what happens to another.

use vstd::prelude::*;

verus! {

/// What a lane-wise comparison leaves in a lane where it holds.
pub const LANE_TRUE: u8 = 0xff;

/// What a lane-wise comparison leaves in a lane where it fails.
pub const LANE_FALSE: u8 = 0;

/// The entry of `table` that `index` selects, or zero if there is none.
pub open spec fn gathered(table: Seq<u8>, index: u8) -> u8 {
    if index < table.len() {
        table[index as int]
    } else {
        0
    }
}

/// A vector with `value` in every lane.
pub fn splat<const N: usize>(value: u8) -> (out: [u8; N])
    ensures
        forall|i: int| 0 <= i < N ==> out[i] == value,
{
    [value; N]
}

/// Each lane shifted right by `bits`.
pub fn shift_right<const N: usize>(a: [u8; N], bits: u8) -> (out: [u8; N])
    requires
        bits < 8,
    ensures
        forall|i: int| 0 <= i < N ==> out[i] == a[i] >> bits,
{
    let mut out: [u8; N] = a;
    let mut i: usize = 0;
    while i < N
        invariant
            i <= N,
            bits < 8,
            forall|j: int| 0 <= j < i ==> out[j] == a[j] >> bits,
        decreases N - i,
    {
        out[i] = a[i] >> bits;
        i += 1;
    }
    out
}

/// Lane by lane, `LANE_TRUE` where `a` and `b` hold the same byte and
/// `LANE_FALSE` elsewhere.
pub fn equal_mask<const N: usize>(a: [u8; N], b: [u8; N]) -> (out: [u8; N])
    ensures
        forall|i: int| 0 <= i < N ==> out[i] == if a[i] == b[i] { LANE_TRUE } else { LANE_FALSE },
{
    let mut out: [u8; N] = a;
    let mut i: usize = 0;
    while i < N
        invariant
            i <= N,
            forall|j: int| 0 <= j < i ==> out[j] == if a[j] == b[j] { LANE_TRUE } else { LANE_FALSE },
        decreases N - i,
    {
        out[i] = if a[i] == b[i] { LANE_TRUE } else { LANE_FALSE };
        i += 1;
    }
    out
}

/// Lane by lane, `LANE_TRUE` where the byte of `a` is at most that of `b` and
/// `LANE_FALSE` elsewhere.
pub fn at_most_mask<const N: usize>(a: [u8; N], b: [u8; N]) -> (out: [u8; N])
    ensures
        forall|i: int| 0 <= i < N ==> out[i] == if a[i] <= b[i] { LANE_TRUE } else { LANE_FALSE },
{
    let mut out: [u8; N] = a;
    let mut i: usize = 0;
    while i < N
        invariant
            i <= N,
            forall|j: int| 0 <= j < i ==> out[j] == if a[j] <= b[j] { LANE_TRUE } else { LANE_FALSE },
        decreases N - i,
    {
        out[i] = if a[i] <= b[i] { LANE_TRUE } else { LANE_FALSE };
        i += 1;
    }
    out
}

/// The lane-wise sum, each lane wrapping round at 256.
pub fn wrapping_sum<const N: usize>(a: [u8; N], b: [u8; N]) -> (out: [u8; N])
    ensures
        forall|i: int| 0 <= i < N ==> out[i] == a[i].wrapping_add(b[i]),
{
    let mut out: [u8; N] = a;
    let mut i: usize = 0;
    while i < N
        invariant
            i <= N,
            forall|j: int| 0 <= j < i ==> out[j] == a[j].wrapping_add(b[j]),
        decreases N - i,
    {
        out[i] = a[i].wrapping_add(b[i]);
        i += 1;
    }
    out
}

/// The lane-wise bitwise and.
pub fn bit_and<const N: usize>(a: [u8; N], b: [u8; N]) -> (out: [u8; N])
    ensures
        forall|i: int| 0 <= i < N ==> out[i] == a[i] & b[i],
{
    let mut out: [u8; N] = a;
    let mut i: usize = 0;
    while i < N
        invariant
            i <= N,
            forall|j: int| 0 <= j < i ==> out[j] == a[j] & b[j],
        decreases N - i,
    {
        out[i] = a[i] & b[i];
        i += 1;
    }
    out
}

/// The lane-wise bitwise or.
pub fn bit_or<const N: usize>(a: [u8; N], b: [u8; N]) -> (out: [u8; N])
    ensures
        forall|i: int| 0 <= i < N ==> out[i] == a[i] | b[i],
{
    let mut out: [u8; N] = a;
    let mut i: usize = 0;
    while i < N
        invariant
            i <= N,
            forall|j: int| 0 <= j < i ==> out[j] == a[j] | b[j],
        decreases N - i,
    {
        out[i] = a[i] | b[i];
        i += 1;
    }
    out
}

/// Whether every lane of `mask` is `LANE_TRUE`.
pub fn all_lanes<const N: usize>(mask: [u8; N]) -> (all: bool)
    ensures
        all <==> forall|i: int| 0 <= i < N ==> mask[i] == LANE_TRUE,
{
    let mut folded: u8 = LANE_TRUE;
    let mut i: usize = 0;
    while i < N
        invariant
            i <= N,
            folded == LANE_TRUE <==> forall|j: int| 0 <= j < i ==> mask[j] == LANE_TRUE,
        decreases N - i,
    {
        let lane: u8 = mask[i];
        assert((folded & lane == 0xff) <==> (folded == 0xff && lane == 0xff)) by (bit_vector);
        folded = folded & lane;
        i += 1;
    }
    folded == LANE_TRUE
}

/// A gather: lane `i` of the result is the lane of `table` that lane `i` of
/// `indices` names, or zero where that is past the last lane.
pub fn swizzle_dyn<const N: usize>(table: [u8; N], indices: [u8; N]) -> (out: [u8; N])
    ensures
        forall|i: int| 0 <= i < N ==> out[i] == gathered(table@, indices[i]),
{
    let mut out: [u8; N] = table;
    let mut i: usize = 0;
    while i < N
        invariant
            i <= N,
            forall|j: int| 0 <= j < i ==> out[j] == gathered(table@, indices[j]),
        decreases N - i,
    {
        let index: usize = indices[i] as usize;
        out[i] = if index < N { table[index] } else { 0 };
        i += 1;
    }
    out
}

/// Lane `i` of the result is lane `i + 1` of `a`; the last lane gets the first.
pub fn rotate_lanes_left<const N: usize>(a: [u8; N]) -> (out: [u8; N])
    ensures
        forall|i: int| 0 <= i < N ==> out[i] == a[if i + 1 == N { 0 } else { i + 1 }],
{
    let mut out: [u8; N] = a;
    let mut i: usize = 0;
    while i < N
        invariant
            i <= N,
            forall|j: int| 0 <= j < i ==> out[j] == a[if j + 1 == N { 0 } else { j + 1 }],
        decreases N - i,
    {
        let next: usize = if i + 1 == N { 0 } else { i + 1 };
        out[i] = a[next];
        i += 1;
    }
    out
}

/// Each byte lane widened to sixteen bits and shifted left by the matching lane
/// of `shifts`.
pub fn widen_shift_left<const N: usize>(a: [u8; N], shifts: [u16; N]) -> (out: [u16; N])
    requires
        forall|i: int| 0 <= i < N ==> shifts[i] < 16,
    ensures
        forall|i: int| 0 <= i < N ==> out[i] == (a[i] as u16) << shifts[i],
{
    let mut out: [u16; N] = shifts;
    let mut i: usize = 0;
    while i < N
        invariant
            i <= N,
            forall|j: int| 0 <= j < N ==> shifts[j] < 16,
            forall|j: int| 0 <= j < i ==> out[j] == (a[j] as u16) << shifts[j],
        decreases N - i,
    {
        out[i] = (a[i] as u16) << shifts[i];
        i += 1;
    }
    out
}

/// The low byte of each sixteen-bit lane.
pub fn low_bytes<const N: usize>(wide: [u16; N]) -> (out: [u8; N])
    ensures
        forall|i: int| 0 <= i < N ==> out[i] == wide[i] % 0x100,
{
    let mut out: [u8; N] = [0u8; N];
    let mut i: usize = 0;
    while i < N
        invariant
            i <= N,
            forall|j: int| 0 <= j < i ==> out[j] == wide[j] % 0x100,
        decreases N - i,
    {
        let lane: u16 = wide[i];
        let low: u16 = lane & 0xff;
        assert(lane & 0xff == lane % 0x100) by (bit_vector);
        out[i] = low as u8;
        i += 1;
    }
    out
}

/// The high byte of each sixteen-bit lane.
pub fn high_bytes<const N: usize>(wide: [u16; N]) -> (out: [u8; N])
    ensures
        forall|i: int| 0 <= i < N ==> out[i] == wide[i] / 0x100,
{
    let mut out: [u8; N] = [0u8; N];
    let mut i: usize = 0;
    while i < N
        invariant
            i <= N,
            forall|j: int| 0 <= j < i ==> out[j] == wide[j] / 0x100,
        decreases N - i,
    {
        let lane: u16 = wide[i];
        let high: u16 = lane >> 8;
        assert(lane >> 8 == lane / 0x100) by (bit_vector);
        out[i] = high as u8;
        i += 1;
    }
    out
}

} // verus!
