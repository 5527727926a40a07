//! The byte-at-a-time decoder. It fixes what decoding means for every input.

use vstd::prelude::*;
use crate::decode_base64::alphabet::{all_symbols, is_symbol, sextet, sextet_value};
use crate::decode_base64::groups::{
    decoded_groups, decoding, first_invalid_at, group, group_bytes, group_count, group_word,
    lemma_first_invalid_in_group, lemma_symbols_through_group, strip_padding, unpadded,
    word_bytes,
};

verus! {

/// Why the scalar decoder gave up.
#[derive(Debug, Clone, Copy, PartialEq, Eq, Structural)]
pub enum DecodeError {
    /// The text holds this byte, which is not in the alphabet.
    InvalidByte(u8),
}

/// What the scalar decoder does with `data`, given the output buffer `before` the
/// call: the buffer `after` it and the result `res`.
///
/// It decodes as every decoder must, and where it rejects the text it names the
/// first byte that is not a symbol.
pub open spec fn reference_decoding(
    data: Seq<u8>,
    before: Seq<u8>,
    after: Seq<u8>,
    res: Result<(), DecodeError>,
) -> bool {
    let body = unpadded(data);
    &&& decoding(body, before, after, res is Err)
    &&& res matches Err(DecodeError::InvalidByte(b)) ==> exists|i: int|
        #![trigger first_invalid_at(body, i)]
        first_invalid_at(body, i) && b == body[i]
}

/// The number spelt by the first `k` symbols of `g`, read as base-64 digits.
spec fn partial_word(g: Seq<u8>, k: nat) -> nat
    decreases k,
{
    if k == 0 {
        0
    } else {
        partial_word(g, (k - 1) as nat) * 64 + sextet_value(g[k - 1])
    }
}

/// The first `k` symbols spell a number of at most `6 * k` bits.
proof fn lemma_partial_word_bound(g: Seq<u8>, k: nat)
    requires
        k <= 4,
    ensures
        k == 0 ==> partial_word(g, k) == 0,
        k == 1 ==> partial_word(g, k) < 0x40,
        k == 2 ==> partial_word(g, k) < 0x1000,
        k == 3 ==> partial_word(g, k) < 0x40000,
        k == 4 ==> partial_word(g, k) < 0x1000000,
{
    reveal_with_fuel(partial_word, 5);
}

/// The symbols of a whole group, followed by zero digits up to four, spell the
/// word of the group.
proof fn lemma_partial_word_aligned(g: Seq<u8>)
    requires
        1 <= g.len() <= 4,
    ensures
        g.len() == 1 ==> group_word(g) == partial_word(g, 1) * 0x40000,
        g.len() == 2 ==> group_word(g) == partial_word(g, 2) * 0x1000,
        g.len() == 3 ==> group_word(g) == partial_word(g, 3) * 0x40,
        g.len() == 4 ==> group_word(g) == partial_word(g, 4),
{
    reveal_with_fuel(partial_word, 5);
}

/// Folds the symbols of one group into a word, most significant symbol first,
/// and moves the result up against the top of the word.
fn fold_group(chunk: &[u8]) -> (res: Result<u32, DecodeError>)
    requires
        1 <= chunk.len() <= 4,
    ensures
        match res {
            Ok(bits) => all_symbols(chunk@) && bits == group_word(chunk@) * 0x100,
            Err(DecodeError::InvalidByte(b)) => exists|i: int|
                #![trigger first_invalid_at(chunk@, i)]
                first_invalid_at(chunk@, i) && b == chunk[i],
        },
{
    let mut decoded_bits: u32 = 0;
    let mut i: usize = 0;
    while i < chunk.len()
        invariant
            i <= chunk.len() <= 4,
            decoded_bits == partial_word(chunk@, i as nat),
            forall|j: int| 0 <= j < i ==> is_symbol(#[trigger] chunk@[j]),
        decreases chunk.len() - i,
    {
        let ascii_byte: u8 = chunk[i];
        let value: u8 = match sextet(ascii_byte) {
            Some(v) => v,
            None => {
                assert(first_invalid_at(chunk@, i as int));
                return Err(DecodeError::InvalidByte(ascii_byte));
            },
        };
        proof {
            lemma_partial_word_bound(chunk@, i as nat);
        }
        let wide: u32 = value as u32;
        assert((decoded_bits << 6) | wide == decoded_bits * 64 + wide) by (bit_vector)
            requires
                decoded_bits < 0x40000,
                wide < 64,
        ;
        decoded_bits = (decoded_bits << 6) | wide;
        i += 1;
    }
    let len: usize = chunk.len();
    proof {
        lemma_partial_word_bound(chunk@, len as nat);
        lemma_partial_word_aligned(chunk@);
        if len == 1 {
            assert(decoded_bits << 26u32 == decoded_bits * 0x4000000) by (bit_vector)
                requires
                    decoded_bits < 0x40,
            ;
        } else if len == 2 {
            assert(decoded_bits << 20u32 == decoded_bits * 0x100000) by (bit_vector)
                requires
                    decoded_bits < 0x1000,
            ;
        } else if len == 3 {
            assert(decoded_bits << 14u32 == decoded_bits * 0x4000) by (bit_vector)
                requires
                    decoded_bits < 0x40000,
            ;
        } else {
            assert(decoded_bits << 8u32 == decoded_bits * 0x100) by (bit_vector)
                requires
                    decoded_bits < 0x1000000,
            ;
        }
    }
    let shift: usize = 32 - 6 * len;
    Ok(decoded_bits << shift)
}

/// The four bytes of `x`, most significant first.
fn be_bytes(x: u32) -> (bytes: [u8; 4])
    ensures
        bytes[0] == x / 0x1000000,
        bytes[1] == x / 0x10000 % 0x100,
        bytes[2] == x / 0x100 % 0x100,
        bytes[3] == x % 0x100,
{
    let b0: u32 = x >> 24;
    let b1: u32 = (x >> 16) & 0xff;
    let b2: u32 = (x >> 8) & 0xff;
    let b3: u32 = x & 0xff;
    assert(x >> 24 == x / 0x1000000 && (x >> 16) & 0xff == x / 0x10000 % 0x100 && (x >> 8) & 0xff
        == x / 0x100 % 0x100 && x & 0xff == x % 0x100) by (bit_vector);
    [b0 as u8, b1 as u8, b2 as u8, b3 as u8]
}

/// The leading bytes of a group's word, once moved to the top of 32 bits, are
/// the bytes of the group.
proof fn lemma_top_bytes(g: Seq<u8>, bits: u32, bytes: Seq<u8>, n: nat)
    requires
        1 <= g.len() <= 4,
        bits == group_word(g) * 0x100,
        bytes.len() == 4,
        bytes[0] == bits / 0x1000000,
        bytes[1] == bits / 0x10000 % 0x100,
        bytes[2] == bits / 0x100 % 0x100,
        n == g.len() - g.len() / 2 + g.len() / 4,
    ensures
        n <= 3,
        bytes.subrange(0, n as int) == group_bytes(g),
{
    let w = group_word(g);
    assert(bytes[0] == w / 0x10000 % 0x100);
    assert(bytes[1] == w / 0x100 % 0x100);
    assert(bytes[2] == w % 0x100);
    assert(bytes.subrange(0, n as int) =~= word_bytes(w).subrange(0, n as int));
}

/// Decodes base64 text, one symbol at a time, and appends the bytes to `out`.
///
/// Up to two `=` at the very end of `data` are dropped first. The rest is read
/// in groups of four symbols, the last group possibly shorter. The first byte
/// outside the alphabet ends the decoding with an error that names it; the
/// bytes of the groups before it stay in `out`.
pub fn decode_base64_reference(data: &[u8], out: &mut Vec<u8>) -> (res: Result<(), DecodeError>)
    ensures
        reference_decoding(data@, old(out)@, final(out)@, res),
        res is Ok <==> all_symbols(unpadded(data@)),
{
    let body: &[u8] = strip_padding(data);
    let mut start: usize = 0;
    let ghost mut done: nat = 0;
    while start < body.len()
        invariant
            body@ == unpadded(data@),
            done <= group_count(body@.len()),
            start == if 4 * done <= body@.len() { 4 * done } else { body@.len() },
            out@ == old(out)@ + decoded_groups(body@, done),
            forall|j: int| 0 <= j < start ==> is_symbol(#[trigger] body@[j]),
        decreases body.len() - start,
    {
        let end: usize = if body.len() - start > 4 {
            start + 4
        } else {
            body.len()
        };
        let chunk: &[u8] = &body[start..end];
        assert(chunk@ == group(body@, done as int));
        let decoded_bits: u32 = match fold_group(chunk) {
            Ok(bits) => bits,
            Err(DecodeError::InvalidByte(b)) => {
                proof {
                    let i = choose|i: int| first_invalid_at(chunk@, i) && b == chunk[i];
                    lemma_first_invalid_in_group(body@, done, i);
                }
                return Err(DecodeError::InvalidByte(b));
            },
        };
        let chunk_len: usize = chunk.len();
        let num_bytes_decoded: usize = chunk_len - chunk_len / 2 + chunk_len / 4;
        let bytes: [u8; 4] = be_bytes(decoded_bits);
        let ghost before = out@;
        proof {
            lemma_top_bytes(chunk@, decoded_bits, bytes@, num_bytes_decoded as nat);
        }
        out.extend_from_slice(&bytes[0..num_bytes_decoded]);
        proof {
            assert(out@ == before + group_bytes(chunk@));
            lemma_symbols_through_group(body@, done);
            done = done + 1;
        }
        start = end;
    }
    Ok(())
}

} // verus!
