//! What decoding means: padding, groups of up to four symbols, and the bytes
//! each group stands for.

use vstd::prelude::*;
use crate::decode_base64::alphabet::{all_symbols, is_symbol, sextet_value};

verus! {

/// ASCII `=`, the padding character.
pub const PAD: u8 = 61;

/// `data` without its trailing padding: the last two bytes are dropped if both
/// are `=`, else the last byte if it is `=`. No other `=` is touched.
pub open spec fn unpadded(data: Seq<u8>) -> Seq<u8> {
    let n = data.len() as int;
    if n >= 2 && data[n - 1] == PAD && data[n - 2] == PAD {
        data.subrange(0, n - 2)
    } else if n >= 1 && data[n - 1] == PAD {
        data.subrange(0, n - 1)
    } else {
        data
    }
}

/// How many groups a text of `n` symbols splits into.
pub open spec fn group_count(n: nat) -> nat {
    (n + 3) / 4
}

/// The `k`-th group of `s`: four symbols, or what is left of `s` if that is less.
pub open spec fn group(s: Seq<u8>, k: int) -> Seq<u8>
    recommends
        0 <= k < group_count(s.len()),
{
    s.subrange(4 * k, if 4 * k + 4 <= s.len() { 4 * k + 4 } else { s.len() as int })
}

/// How many bytes a group of `len` symbols yields.
pub open spec fn decoded_len(len: nat) -> nat {
    (len - len / 2 + len / 4) as nat
}

/// The six-bit digit at position `i` of the group `g`; positions past its end
/// hold zero.
pub open spec fn sextet_at(g: Seq<u8>, i: int) -> nat {
    if 0 <= i < g.len() {
        sextet_value(g[i])
    } else {
        0
    }
}

/// The 24-bit number whose four base-64 digits, most significant first, are the
/// symbols of `g`.
pub open spec fn group_word(g: Seq<u8>) -> nat
    recommends
        g.len() <= 4,
{
    sextet_at(g, 0) * 0x40000 + sextet_at(g, 1) * 0x1000 + sextet_at(g, 2) * 0x40 + sextet_at(g, 3)
}

/// The three bytes of a 24-bit number, most significant first.
pub open spec fn word_bytes(w: nat) -> Seq<u8>
    recommends
        w < 0x1000000,
{
    seq![(w / 0x10000 % 0x100) as u8, (w / 0x100 % 0x100) as u8, (w % 0x100) as u8]
}

/// The bytes that the group `g` decodes to.
pub open spec fn group_bytes(g: Seq<u8>) -> Seq<u8>
    recommends
        g.len() <= 4,
{
    word_bytes(group_word(g)).subrange(0, decoded_len(g.len()) as int)
}

/// The bytes that the first `k` groups of `s` decode to.
pub open spec fn decoded_groups(s: Seq<u8>, k: nat) -> Seq<u8>
    recommends
        k <= group_count(s.len()),
    decreases k,
{
    if k == 0 {
        Seq::empty()
    } else {
        decoded_groups(s, (k - 1) as nat) + group_bytes(group(s, k - 1))
    }
}

/// The bytes that the unpadded text `s` decodes to.
pub open spec fn decoded(s: Seq<u8>) -> Seq<u8> {
    decoded_groups(s, group_count(s.len()))
}

/// Whether position `i` holds the first byte of `s` that is not a symbol.
pub open spec fn first_invalid_at(s: Seq<u8>, i: int) -> bool {
    &&& 0 <= i < s.len()
    &&& !is_symbol(s[i])
    &&& forall|j: int| 0 <= j < i ==> is_symbol(#[trigger] s[j])
}

/// What a decoder owes the unpadded text `body`, in terms of the output buffer
/// `before` and `after` the call and of whether it `rejected` the text.
///
/// A text made of symbols alone is accepted, and all of it is decoded and
/// appended. Any other text is rejected, and the groups in front of the one
/// that holds the first offending byte stay appended.
pub open spec fn decoding(body: Seq<u8>, before: Seq<u8>, after: Seq<u8>, rejected: bool) -> bool {
    if rejected {
        exists|i: int|
            #![trigger first_invalid_at(body, i)]
            first_invalid_at(body, i) && after == before + decoded_groups(body, (i / 4) as nat)
    } else {
        all_symbols(body) && after == before + decoded(body)
    }
}

/// A text that is not made of symbols alone has a first byte that is none.
pub proof fn lemma_first_invalid_exists(s: Seq<u8>)
    requires
        !all_symbols(s),
    ensures
        exists|i: int| first_invalid_at(s, i),
    decreases s.len(),
{
    let bad = choose|i: int| 0 <= i < s.len() && !is_symbol(#[trigger] s[i]);
    if forall|j: int| 0 <= j < bad ==> is_symbol(#[trigger] s[j]) {
        assert(first_invalid_at(s, bad));
    } else {
        let front = s.subrange(0, bad);
        let earlier = choose|j: int| 0 <= j < bad && !is_symbol(#[trigger] s[j]);
        assert(!is_symbol(front[earlier]));
        lemma_first_invalid_exists(front);
        let i = choose|i: int| first_invalid_at(front, i);
        assert forall|j: int| 0 <= j < i implies is_symbol(#[trigger] s[j]) by {
            assert(is_symbol(front[j]));
        }
        assert(first_invalid_at(s, i));
    }
}

/// At most one position holds the first byte that is not a symbol.
pub proof fn lemma_first_invalid_unique(s: Seq<u8>, i: int, j: int)
    requires
        first_invalid_at(s, i),
        first_invalid_at(s, j),
    ensures
        i == j,
{
    if i < j {
        assert(is_symbol(s[i]));
    } else if j < i {
        assert(is_symbol(s[j]));
    }
}

/// What a decoder owes a text leaves it no choice: the text decides whether it
/// is rejected and what the buffer holds afterwards.
pub proof fn lemma_decoding_unique(
    body: Seq<u8>,
    before: Seq<u8>,
    after1: Seq<u8>,
    rejected1: bool,
    after2: Seq<u8>,
    rejected2: bool,
)
    requires
        decoding(body, before, after1, rejected1),
        decoding(body, before, after2, rejected2),
    ensures
        rejected1 == rejected2,
        rejected1 == !all_symbols(body),
        after1 == after2,
{
    if rejected1 {
        let i = choose|i: int|
            first_invalid_at(body, i) && after1 == before + decoded_groups(body, (i / 4) as nat);
        assert(!is_symbol(body[i]));
        let j = choose|j: int|
            first_invalid_at(body, j) && after2 == before + decoded_groups(body, (j / 4) as nat);
        lemma_first_invalid_unique(body, i, j);
    } else if rejected2 {
        let j = choose|j: int|
            first_invalid_at(body, j) && after2 == before + decoded_groups(body, (j / 4) as nat);
        assert(!is_symbol(body[j]));
    }
}

/// Where every group before the `k`-th is made of symbols, the first invalid
/// byte of the `k`-th group is the first invalid byte of the text.
pub proof fn lemma_first_invalid_in_group(s: Seq<u8>, k: nat, i: int)
    requires
        4 * k < s.len(),
        forall|j: int| 0 <= j < 4 * k ==> is_symbol(#[trigger] s[j]),
        first_invalid_at(group(s, k as int), i),
    ensures
        first_invalid_at(s, 4 * k + i),
        s[4 * k + i] == group(s, k as int)[i],
        (4 * k + i) / 4 == k,
{
    let g = group(s, k as int);
    assert forall|j: int| 0 <= j < 4 * k + i implies is_symbol(#[trigger] s[j]) by {
        if j >= 4 * k {
            assert(is_symbol(g[j - 4 * k]));
        }
    }
}

/// Where every group up to and including the `k`-th is made of symbols, so is
/// the text up to the end of that group.
pub proof fn lemma_symbols_through_group(s: Seq<u8>, k: nat)
    requires
        4 * k < s.len(),
        forall|j: int| 0 <= j < 4 * k ==> is_symbol(#[trigger] s[j]),
        all_symbols(group(s, k as int)),
    ensures
        forall|j: int| 0 <= j < 4 * k + group(s, k as int).len() ==> is_symbol(#[trigger] s[j]),
{
    let g = group(s, k as int);
    assert forall|j: int| 0 <= j < 4 * k + g.len() implies is_symbol(#[trigger] s[j]) by {
        if j >= 4 * k {
            assert(is_symbol(g[j - 4 * k]));
        }
    }
}

/// Cuts the trailing padding off `data`.
pub fn strip_padding(data: &[u8]) -> (body: &[u8])
    ensures
        body@ == unpadded(data@),
{
    let n: usize = data.len();
    if n >= 2 && data[n - 1] == PAD && data[n - 2] == PAD {
        &data[0..n - 2]
    } else if n >= 1 && data[n - 1] == PAD {
        &data[0..n - 1]
    } else {
        data
    }
}

} // verus!
