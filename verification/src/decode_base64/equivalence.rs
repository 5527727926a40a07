//! What holds of the two decoders together: they append the same bytes, fail on
//! the same texts, and do the same thing every time.

use vstd::prelude::*;
use crate::decode_base64::alphabet::all_symbols;
use crate::decode_base64::decode_base64_reference::{
    reference_decoding, DecodeError as ReferenceError,
};
use crate::decode_base64::decode_base64_simd::{simd_decoding, DecodeError as SimdError};
use crate::decode_base64::groups::{
    decoded, decoded_groups, decoded_len, first_invalid_at, group, group_bytes, group_count,
    lemma_decoding_unique, lemma_first_invalid_unique, unpadded,
};

verus! {

/// A group of one, two, three or four symbols decodes to one, one, two or three
/// bytes.
pub proof fn lemma_group_length(g: Seq<u8>)
    requires
        1 <= g.len() <= 4,
    ensures
        group_bytes(g).len() == decoded_len(g.len()),
        g.len() == 1 ==> group_bytes(g).len() == 1,
        g.len() == 2 ==> group_bytes(g).len() == 1,
        g.len() == 3 ==> group_bytes(g).len() == 2,
        g.len() == 4 ==> group_bytes(g).len() == 3,
{
}

/// The first `k` groups of a text decode to three bytes for each group of four
/// symbols, and to the bytes of the short last group if it is among them.
pub proof fn lemma_decoded_groups_length(s: Seq<u8>, k: nat)
    requires
        k <= group_count(s.len()),
    ensures
        decoded_groups(s, k).len() == if 4 * k <= s.len() {
            3 * k
        } else {
            3 * (s.len() / 4) + decoded_len(s.len() % 4)
        },
    decreases k,
{
    if k > 0 {
        lemma_decoded_groups_length(s, (k - 1) as nat);
        let g = group(s, k - 1);
        assert(g.len() == if 4 * k <= s.len() { 4 } else { s.len() % 4 });
        lemma_group_length(g);
    }
}

/// A text of `n` symbols decodes to three bytes for each full group and to one
/// or two bytes more for what is left over, according to the length of that
/// remainder.
pub proof fn lemma_decoded_length(s: Seq<u8>)
    ensures
        decoded(s).len() == 3 * (s.len() / 4) + decoded_len(s.len() % 4),
        decoded_len(0) == 0 && decoded_len(1) == 1 && decoded_len(2) == 1 && decoded_len(3) == 2
            && decoded_len(4) == 3,
{
    lemma_decoded_groups_length(s, group_count(s.len()));
}

/// The scalar decoder is a function of its input: two runs on the same text,
/// starting from equal buffers, end with equal buffers and equal results.
pub proof fn lemma_reference_deterministic(
    data: Seq<u8>,
    before: Seq<u8>,
    after1: Seq<u8>,
    res1: Result<(), ReferenceError>,
    after2: Seq<u8>,
    res2: Result<(), ReferenceError>,
)
    requires
        reference_decoding(data, before, after1, res1),
        reference_decoding(data, before, after2, res2),
    ensures
        after1 == after2,
        res1 == res2,
{
    let body = unpadded(data);
    lemma_decoding_unique(body, before, after1, res1 is Err, after2, res2 is Err);
    if res1 is Err {
        let i = choose|i: int| first_invalid_at(body, i) && res1->Err_0->InvalidByte_0 == body[i];
        let j = choose|j: int| first_invalid_at(body, j) && res2->Err_0->InvalidByte_0 == body[j];
        lemma_first_invalid_unique(body, i, j);
    } else {
        assert(res1->Ok_0 == res2->Ok_0);
    }
}

/// The vectorised decoder is a function of its input: two runs on the same
/// text, starting from equal buffers, end with equal buffers and equal results.
pub proof fn lemma_simd_deterministic(
    data: Seq<u8>,
    before: Seq<u8>,
    after1: Seq<u8>,
    res1: Result<(), SimdError>,
    after2: Seq<u8>,
    res2: Result<(), SimdError>,
)
    requires
        simd_decoding(data, before, after1, res1),
        simd_decoding(data, before, after2, res2),
    ensures
        after1 == after2,
        res1 == res2,
{
    lemma_decoding_unique(unpadded(data), before, after1, res1 is Err, after2, res2 is Err);
    if res1 is Err {
        assert(res1->Err_0 == res2->Err_0);
    } else {
        assert(res1->Ok_0 == res2->Ok_0);
    }
}

/// On every text the two decoders leave the same bytes in the buffer, and one
/// succeeds exactly when the other does. In particular they decode every valid
/// text, with or without padding, to the same bytes.
pub proof fn lemma_decoders_agree(
    data: Seq<u8>,
    before: Seq<u8>,
    after_reference: Seq<u8>,
    res_reference: Result<(), ReferenceError>,
    after_simd: Seq<u8>,
    res_simd: Result<(), SimdError>,
)
    requires
        reference_decoding(data, before, after_reference, res_reference),
        simd_decoding(data, before, after_simd, res_simd),
    ensures
        after_reference == after_simd,
        res_reference is Ok <==> res_simd is Ok,
{
    lemma_decoding_unique(
        unpadded(data),
        before,
        after_reference,
        res_reference is Err,
        after_simd,
        res_simd is Err,
    );
}

/// A text with a byte outside the alphabet, anywhere but in its trailing
/// padding, is rejected by both decoders.
pub proof fn lemma_rejection_agreement(
    data: Seq<u8>,
    before: Seq<u8>,
    after_reference: Seq<u8>,
    res_reference: Result<(), ReferenceError>,
    after_simd: Seq<u8>,
    res_simd: Result<(), SimdError>,
)
    requires
        reference_decoding(data, before, after_reference, res_reference),
        simd_decoding(data, before, after_simd, res_simd),
        !all_symbols(unpadded(data)),
    ensures
        res_reference is Err,
        res_simd is Err,
{
}

/// Whichever decoder accepts a text has appended as many bytes as the lengths
/// of its groups call for.
pub proof fn lemma_appended_length(
    data: Seq<u8>,
    before: Seq<u8>,
    after_reference: Seq<u8>,
    after_simd: Seq<u8>,
)
    requires
        reference_decoding(data, before, after_reference, Ok(())),
        simd_decoding(data, before, after_simd, Ok(())),
    ensures
        after_reference.len() == before.len() + 3 * (unpadded(data).len() / 4) + decoded_len(
            unpadded(data).len() % 4,
        ),
        after_simd.len() == after_reference.len(),
{
    lemma_decoded_length(unpadded(data));
}

} // verus!
