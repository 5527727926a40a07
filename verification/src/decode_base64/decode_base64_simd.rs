//! The lane-parallel decoder. It classifies, looks up and packs a whole group
//! by vector arithmetic, with no branch on what a character is.

use vstd::prelude::*;
use crate::decode_base64::alphabet::{all_symbols, is_symbol, sextet_value, SLASH, UPPER_A};
use crate::decode_base64::groups::{
    decoded_groups, decoding, first_invalid_at, group, group_bytes, group_count, group_word,
    lemma_first_invalid_exists, lemma_first_invalid_in_group, lemma_symbols_through_group,
    sextet_at, strip_padding, unpadded, word_bytes,
};
use crate::decode_base64::lanes::{
    all_lanes, at_most_mask, bit_and, bit_or, equal_mask, high_bytes, low_bytes, rotate_lanes_left,
    shift_right, splat, swizzle_dyn, widen_shift_left, wrapping_sum, LANE_FALSE, LANE_TRUE,
};

verus! {

/// Why the vectorised decoder gave up.
#[derive(Debug, Clone, Copy, PartialEq, Eq, Structural)]
pub enum DecodeError {
    /// Some byte of the text is not in the alphabet.
    InvalidByte,
}

/// What the vectorised decoder does with `data`, given the output buffer
/// `before` the call: the buffer `after` it and the result `res`.
///
/// It decodes as every decoder must; where it rejects the text it does not say
/// which byte is to blame.
pub open spec fn simd_decoding(
    data: Seq<u8>,
    before: Seq<u8>,
    after: Seq<u8>,
    res: Result<(), DecodeError>,
) -> bool {
    decoding(unpadded(data), before, after, res is Err)
}

/// The class of the byte `b`: its high nibble, less one (modulo 256) for `/`.
/// The five ranges of the alphabet fall into the classes 1 to 7, and no class
/// holds symbols of two ranges.
spec fn lane_hash(b: u8) -> u8 {
    (b >> 4u8).wrapping_add(if b == SLASH { LANE_TRUE } else { LANE_FALSE })
}

/// Per class, what is added to a symbol (modulo 256) to get its value.
spec fn offsets() -> Seq<u8> {
    seq![0u8, 16u8, 19u8, 4u8, 191u8, 191u8, 185u8, 185u8]
}

/// Per class, the smallest symbol in it.
spec fn lowest() -> Seq<u8> {
    seq![1u8, 47u8, 43u8, 48u8, 65u8, 80u8, 97u8, 112u8]
}

/// Per class, the largest symbol in it.
spec fn highest() -> Seq<u8> {
    seq![0u8, 47u8, 43u8, 57u8, 79u8, 90u8, 111u8, 122u8]
}

/// A vector of `N` lanes that repeats `tile` from its first lane on.
pub fn tiled<T: Copy, const N: usize>(tile: &[T]) -> (out: [T; N])
    requires
        tile.len() > 0,
    ensures
        forall|i: int| 0 <= i < N ==> out[i] == tile[i % (tile.len() as int)],
{
    let mut out: [T; N] = [tile[0]; N];
    let mut i: usize = 0;
    while i < N
        invariant
            i <= N,
            tile.len() > 0,
            forall|j: int| 0 <= j < i ==> out[j] == tile[j % (tile.len() as int)],
        decreases N - i,
    {
        out[i] = tile[i % tile.len()];
        i += 1;
    }
    out
}

/// The gather pattern that drops every fourth lane: lane `i` names lane
/// `i + i / 3`.
pub fn build_selections<const N: usize>() -> (out: [u8; N])
    requires
        N <= 192,
    ensures
        forall|i: int| 0 <= i < N ==> out[i] == i + i / 3,
{
    let mut out: [u8; N] = [0u8; N];
    let mut i: usize = 0;
    while i < N
        invariant
            i <= N <= 192,
            forall|j: int| 0 <= j < i ==> out[j] == j + j / 3,
        decreases N - i,
    {
        out[i] = (i + (i / 3)) as u8;
        i += 1;
    }
    out
}

/// The entry that class `hash` finds in `table` once the table has been tiled
/// over `n` lanes.
spec fn looked_up(table: Seq<u8>, n: nat, hash: u8) -> u8 {
    if hash < n {
        table[hash as int % 8]
    } else {
        0
    }
}

/// The class of a byte picks the right table entries: the bounds it finds
/// enclose the byte exactly when the byte is a symbol, and the offset it finds
/// then turns the symbol into its value.
proof fn lemma_lane_lookup(b: u8, n: nat)
    requires
        n >= 8,
    ensures
        is_symbol(b) <==> looked_up(lowest(), n, lane_hash(b)) <= b <= looked_up(
            highest(),
            n,
            lane_hash(b),
        ),
        is_symbol(b) ==> b.wrapping_add(looked_up(offsets(), n, lane_hash(b))) == sextet_value(b),
{
    assert(b >> 4u8 == b / 16) by (bit_vector);
}

/// Shifting four six-bit values by 2, 4, 6 and 8 inside sixteen-bit lanes and
/// joining each low byte with the next lane's high byte spells out the three
/// bytes of the 24-bit number that the four values are the digits of.
proof fn lemma_packed_bytes(s0: u8, s1: u8, s2: u8, s3: u8)
    by (bit_vector)
    requires
        s0 < 64,
        s1 < 64,
        s2 < 64,
        s3 < 64,
    ensures
        ({
            let w = s0 * 0x40000 + s1 * 0x1000 + s2 * 0x40 + s3;
            let w0 = (s0 as u16) << 2u16;
            let w1 = (s1 as u16) << 4u16;
            let w2 = (s2 as u16) << 6u16;
            let w3 = (s3 as u16) << 8u16;
            &&& ((w0 % 0x100) as u8) | ((w1 / 0x100) as u8) == w / 0x10000 % 0x100
            &&& ((w1 % 0x100) as u8) | ((w2 / 0x100) as u8) == w / 0x100 % 0x100
            &&& ((w2 % 0x100) as u8) | ((w3 / 0x100) as u8) == w % 0x100
        }),
{
}

/// How far lane `i` is shifted left before packing: 2, 4, 6 or 8 bits, by its
/// place in its run of four lanes.
spec fn lane_shift(i: int) -> u16 {
    (2 * (i % 4) + 2) as u16
}

/// Lane `i` after packing: the low byte of the lane's shifted value joined with
/// the high byte of the next lane's.
spec fn packed_lane(sextets: Seq<u8>, i: int) -> u8 {
    let next = if i + 1 == sextets.len() {
        0
    } else {
        i + 1
    };
    ((((sextets[i] as u16) << lane_shift(i)) % 0x100) as u8) | ((((sextets[next] as u16)
        << lane_shift(next)) / 0x100) as u8)
}

/// Where four neighbouring lanes hold the values of four symbols, the first
/// three of them hold, after packing, the bytes of that group.
proof fn lemma_group_packed(ascii: Seq<u8>, sextets: Seq<u8>, k: int)
    requires
        ascii.len() == sextets.len(),
        0 <= k,
        4 * k + 4 <= ascii.len(),
        forall|i: int|
            4 * k <= i < 4 * k + 4 ==> is_symbol(#[trigger] ascii[i]) && sextets[i]
                == sextet_value(ascii[i]),
    ensures
        group_bytes(group(ascii, k)) == seq![
            packed_lane(sextets, 4 * k),
            packed_lane(sextets, 4 * k + 1),
            packed_lane(sextets, 4 * k + 2),
        ],
{
    let g = group(ascii, k);
    let s0 = sextets[4 * k];
    let s1 = sextets[4 * k + 1];
    let s2 = sextets[4 * k + 2];
    let s3 = sextets[4 * k + 3];
    assert(is_symbol(ascii[4 * k]) && is_symbol(ascii[4 * k + 1]) && is_symbol(ascii[4 * k + 2])
        && is_symbol(ascii[4 * k + 3]));
    assert(s0 == sextet_at(g, 0) && s1 == sextet_at(g, 1) && s2 == sextet_at(g, 2) && s3
        == sextet_at(g, 3));
    lemma_packed_bytes(s0, s1, s2, s3);
    assert(lane_shift(4 * k) == 2 && lane_shift(4 * k + 1) == 4 && lane_shift(4 * k + 2) == 6
        && lane_shift(4 * k + 3) == 8);
    assert(group_bytes(g) =~= word_bytes(group_word(g)));
}

/// Where four neighbouring lanes hold the values of four symbols, dropping
/// every fourth packed lane leaves the bytes of each group side by side.
proof fn lemma_group_compacted(
    ascii: Seq<u8>,
    sextets: Seq<u8>,
    packed: Seq<u8>,
    output: Seq<u8>,
    k: int,
)
    requires
        ascii.len() == sextets.len() == packed.len() == output.len(),
        0 <= k,
        4 * k + 4 <= ascii.len(),
        all_symbols(ascii),
        forall|i: int|
            0 <= i < ascii.len() && is_symbol(ascii[i]) ==> #[trigger] sextets[i] == sextet_value(
                ascii[i],
            ),
        forall|i: int| 0 <= i < ascii.len() ==> #[trigger] packed[i] == packed_lane(sextets, i),
        forall|i: int|
            0 <= i < ascii.len() ==> #[trigger] output[i] == if i + i / 3 < ascii.len() {
                packed[i + i / 3]
            } else {
                0
            },
    ensures
        output.subrange(3 * k, 3 * k + 3) == group_bytes(group(ascii, k)),
{
    assert forall|i: int| 4 * k <= i < 4 * k + 4 implies is_symbol(#[trigger] ascii[i])
        && sextets[i] == sextet_value(ascii[i]) by {
        assert(is_symbol(ascii[i]));
        assert(sextets[i] == sextet_value(ascii[i]));
    }
    lemma_group_packed(ascii, sextets, k);
    assert(output[3 * k] == packed[4 * k]);
    assert(output[3 * k + 1] == packed[4 * k + 1]);
    assert(output[3 * k + 2] == packed[4 * k + 2]);
    assert(output.subrange(3 * k, 3 * k + 3) =~= seq![
        packed_lane(sextets, 4 * k),
        packed_lane(sextets, 4 * k + 1),
        packed_lane(sextets, 4 * k + 2),
    ]);
}

/// Classification: sorts each lane into its class, by a shift, a comparison
/// and a sum.
fn classify<const N: usize>(ascii: [u8; N]) -> (hashes: [u8; N])
    ensures
        forall|i: int| 0 <= i < N ==> hashes[i] == lane_hash(ascii[i]),
{
    wrapping_sum(shift_right(ascii, 4), equal_mask(ascii, splat(SLASH)))
}

/// Table lookup: finds, for each lane, the entry of `table` that belongs to the
/// lane's class.
fn look_up<const N: usize>(table: &[u8; 8], hashes: [u8; N]) -> (found: [u8; N])
    ensures
        forall|i: int| 0 <= i < N ==> found[i] == looked_up(table@, N as nat, hashes[i]),
{
    swizzle_dyn(tiled(table), hashes)
}

/// Turns each lane that holds a symbol into the symbol's value, by adding the
/// offset of the lane's class.
fn to_sextets<const N: usize>(ascii: [u8; N], hashes: [u8; N]) -> (sextets: [u8; N])
    requires
        N >= 8,
        forall|i: int| 0 <= i < N ==> hashes[i] == lane_hash(ascii[i]),
    ensures
        forall|i: int|
            0 <= i < N && is_symbol(ascii[i]) ==> #[trigger] sextets[i] == sextet_value(ascii[i]),
{
    let offsets_table: [u8; 8] = [0, 16, 19, 4, 191, 191, 185, 185];
    let sextets: [u8; N] = wrapping_sum(ascii, look_up(&offsets_table, hashes));
    proof {
        assert(offsets_table@ =~= self::offsets());
        assert forall|i: int| 0 <= i < N && is_symbol(ascii[i]) implies #[trigger] sextets[i]
            == sextet_value(ascii[i]) by {
            lemma_lane_lookup(ascii[i], N as nat);
        }
    }
    sextets
}

/// Tells whether every lane holds a symbol, by comparing each lane with the
/// bounds of its class.
fn all_in_range<const N: usize>(ascii: [u8; N], hashes: [u8; N]) -> (is_ok: bool)
    requires
        N >= 8,
        forall|i: int| 0 <= i < N ==> hashes[i] == lane_hash(ascii[i]),
    ensures
        is_ok <==> all_symbols(ascii@),
{
    let lowest_table: [u8; 8] = [1, 47, 43, 48, 65, 80, 97, 112];
    let highest_table: [u8; 8] = [0, 47, 43, 57, 79, 90, 111, 122];
    let in_range: [u8; N] = bit_and(
        at_most_mask(look_up(&lowest_table, hashes), ascii),
        at_most_mask(ascii, look_up(&highest_table, hashes)),
    );
    proof {
        assert(lowest_table@ =~= self::lowest());
        assert(highest_table@ =~= self::highest());
        assert forall|i: int| 0 <= i < N implies (in_range[i] == LANE_TRUE <==> is_symbol(
            #[trigger] ascii@[i],
        )) by {
            lemma_lane_lookup(ascii[i], N as nat);
            assert((0xffu8 & 0xffu8) == 0xffu8 && (0xffu8 & 0u8) == 0u8 && (0u8 & 0xffu8) == 0u8
                && (0u8 & 0u8) == 0u8) by (bit_vector);
        }
    }
    all_lanes(in_range)
}

/// Bit packing: moves the six bits of each lane to where they belong in the
/// output and joins each lane with what the next lane carries over into it.
fn pack<const N: usize>(sextets: [u8; N]) -> (packed: [u8; N])
    ensures
        forall|i: int| 0 <= i < N ==> packed[i] == packed_lane(sextets@, i),
{
    let shifts: [u16; 4] = [2, 4, 6, 8];
    let tiled_shifts: [u16; N] = tiled(&shifts);
    assert forall|i: int| 0 <= i < N implies tiled_shifts[i] == lane_shift(i) by {
        assert(tiled_shifts[i] == shifts@[i % 4]);
    }
    let shifted: [u16; N] = widen_shift_left(sextets, tiled_shifts);
    let low_bits: [u8; N] = low_bytes(shifted);
    let high_bits: [u8; N] = high_bytes(shifted);
    bit_or(low_bits, rotate_lanes_left(high_bits))
}

/// Lane compaction: drops every fourth lane and closes the gaps; the lanes left
/// over at the end are zero.
fn compact<const N: usize>(packed: [u8; N]) -> (output: [u8; N])
    requires
        N <= 192,
    ensures
        forall|i: int|
            0 <= i < N ==> #[trigger] output[i] == if i + i / 3 < N {
                packed[i + i / 3]
            } else {
                0
            },
{
    swizzle_dyn(packed, build_selections())
}

/// Decodes all lanes at once.
///
/// The flag tells whether every lane holds a symbol. If so, each run of four
/// lanes has been decoded as a group of four symbols, and the three bytes of
/// the `k`-th group stand in lanes `3 * k` to `3 * k + 2` of the result.
pub fn decode_hot<const N: usize>(ascii: [u8; N]) -> (res: ([u8; N], bool))
    requires
        8 <= N <= 192,
    ensures
        res.1 <==> all_symbols(ascii@),
        res.1 ==> forall|k: int|
            0 <= k && 4 * k + 4 <= N ==> res.0@.subrange(3 * k, 3 * k + 3) == group_bytes(
                #[trigger] group(ascii@, k),
            ),
{
    let hashes: [u8; N] = classify(ascii);
    let sextets: [u8; N] = to_sextets(ascii, hashes);
    let is_ok: bool = all_in_range(ascii, hashes);
    let packed: [u8; N] = pack(sextets);
    let output: [u8; N] = compact(packed);
    proof {
        if is_ok {
            assert forall|k: int| 0 <= k && 4 * k + 4 <= N implies output@.subrange(
                3 * k,
                3 * k + 3,
            ) == group_bytes(#[trigger] group(ascii@, k)) by {
                lemma_group_compacted(ascii@, sextets@, packed@, output@, k);
            }
        }
    }
    (output, is_ok)
}

/// Filling a short group up with `A`, the symbol for zero, changes neither
/// whether it is made of symbols nor the bytes it stands for.
proof fn lemma_padded_group(chunk: Seq<u8>, lanes: Seq<u8>)
    requires
        1 <= chunk.len() <= 4 <= lanes.len(),
        forall|i: int| 0 <= i < chunk.len() ==> lanes[i] == chunk[i],
        forall|i: int| chunk.len() <= i < lanes.len() ==> lanes[i] == UPPER_A,
    ensures
        all_symbols(lanes) <==> all_symbols(chunk),
        group_bytes(chunk) == group_bytes(group(lanes, 0)).subrange(
            0,
            chunk.len() - chunk.len() / 2 + chunk.len() / 4,
        ),
{
    let g = group(lanes, 0);
    assert(sextet_at(g, 0) == sextet_at(chunk, 0) && sextet_at(g, 1) == sextet_at(chunk, 1)
        && sextet_at(g, 2) == sextet_at(chunk, 2) && sextet_at(g, 3) == sextet_at(chunk, 3));
    assert(group_bytes(chunk) =~= group_bytes(g).subrange(
        0,
        chunk.len() - chunk.len() / 2 + chunk.len() / 4,
    ));
    if all_symbols(lanes) {
        assert forall|i: int| 0 <= i < chunk.len() implies is_symbol(#[trigger] chunk[i]) by {
            assert(is_symbol(lanes[i]));
        }
    }
    if all_symbols(chunk) {
        assert forall|i: int| 0 <= i < lanes.len() implies is_symbol(#[trigger] lanes[i]) by {
            if i < chunk.len() {
                assert(is_symbol(chunk[i]));
            }
        }
    }
}

/// Decodes one group of up to four symbols in the first lanes of an eight-lane
/// vector. On success the bytes of the group lead the lanes returned.
fn decode_chunk(chunk: &[u8]) -> (res: Option<[u8; 8]>)
    requires
        1 <= chunk.len() <= 4,
    ensures
        res is Some <==> all_symbols(chunk@),
        res matches Some(lanes) ==> lanes@.subrange(
            0,
            chunk.len() - chunk.len() / 2 + chunk.len() / 4,
        ) == group_bytes(chunk@),
{
    // Lanes past the end of the group hold `A`, which stands for zero.
    let mut ascii: [u8; 8] = splat(UPPER_A);
    let mut lane: usize = 0;
    while lane < chunk.len()
        invariant
            lane <= chunk.len() <= 4,
            forall|j: int| 0 <= j < lane ==> ascii[j] == chunk[j],
            forall|j: int| lane <= j < 8 ==> ascii[j] == UPPER_A,
        decreases chunk.len() - lane,
    {
        ascii[lane] = chunk[lane];
        lane += 1;
    }
    let hot: ([u8; 8], bool) = decode_hot(ascii);
    proof {
        lemma_padded_group(chunk@, ascii@);
    }
    if hot.1 {
        proof {
            let n = chunk.len() - chunk.len() / 2 + chunk.len() / 4;
            assert(hot.0@.subrange(0, 3) == group_bytes(group(ascii@, 0)));
            assert(hot.0@.subrange(0, n) =~= hot.0@.subrange(0, 3).subrange(0, n));
        }
        Some(hot.0)
    } else {
        None
    }
}

/// Decodes base64 text, a group of four symbols at a time, and appends the
/// bytes to `out`.
///
/// Up to two `=` at the very end of `data` are dropped first. Each group is
/// laid into the lanes of a vector and decoded by lane-wise arithmetic. A group
/// that holds a byte outside the alphabet ends the decoding with an error; the
/// bytes of the groups before it stay in `out`.
pub fn decode_base64_simd(data: &[u8], out: &mut Vec<u8>) -> (res: Result<(), DecodeError>)
    ensures
        simd_decoding(data@, old(out)@, final(out)@, res),
        res is Ok <==> all_symbols(unpadded(data@)),
{
    let body: &[u8] = strip_padding(data);
    let mut start: usize = 0;
    let ghost mut done: nat = 0;
    while start < body.len()
        invariant
            body@ == unpadded(data@),
            done <= group_count(body@.len()),
            start == if 4 * done <= body@.len() { 4 * done } else { body@.len() },
            out@ == old(out)@ + decoded_groups(body@, done),
            forall|j: int| 0 <= j < start ==> is_symbol(#[trigger] body@[j]),
        decreases body.len() - start,
    {
        let end: usize = if body.len() - start > 4 {
            start + 4
        } else {
            body.len()
        };
        let chunk: &[u8] = &body[start..end];
        assert(chunk@ == group(body@, done as int));

        let decoded_bytes: [u8; 8] = match decode_chunk(chunk) {
            Some(lanes) => lanes,
            None => {
                proof {
                    lemma_first_invalid_exists(chunk@);
                    let i = choose|i: int| first_invalid_at(chunk@, i);
                    lemma_first_invalid_in_group(body@, done, i);
                }
                return Err(DecodeError::InvalidByte);
            },
        };
        let chunk_len: usize = chunk.len();
        let num_bytes_decoded: usize = chunk_len - chunk_len / 2 + chunk_len / 4;
        let ghost before = out@;
        out.extend_from_slice(&decoded_bytes[0..num_bytes_decoded]);
        proof {
            assert(out@ == before + group_bytes(chunk@));
            lemma_symbols_through_group(body@, done);
            done = done + 1;
        }
        start = end;
    }
    Ok(())
}

} // verus!
