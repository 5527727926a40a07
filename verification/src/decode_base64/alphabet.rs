//! The 64-symbol alphabet and the six-bit value each symbol stands for.

use vstd::prelude::*;

verus! {

/// ASCII `A`, the symbol for 0.
pub const UPPER_A: u8 = 65;

/// ASCII `Z`, the symbol for 25.
pub const UPPER_Z: u8 = 90;

/// ASCII `a`, the symbol for 26.
pub const LOWER_A: u8 = 97;

/// ASCII `z`, the symbol for 51.
pub const LOWER_Z: u8 = 122;

/// ASCII `0`, the symbol for 52.
pub const DIGIT_0: u8 = 48;

/// ASCII `9`, the symbol for 61.
pub const DIGIT_9: u8 = 57;

/// ASCII `+`, the symbol for 62.
pub const PLUS: u8 = 43;

/// ASCII `/`, the symbol for 63.
pub const SLASH: u8 = 47;

/// The six-bit value that the byte `b` encodes, if `b` is one of the 64 symbols
/// `A-Z`, `a-z`, `0-9`, `+`, `/`.
pub open spec fn sextet_of(b: u8) -> Option<u8> {
    if UPPER_A <= b <= UPPER_Z {
        Some((b - UPPER_A) as u8)
    } else if LOWER_A <= b <= LOWER_Z {
        Some((b - LOWER_A + 26) as u8)
    } else if DIGIT_0 <= b <= DIGIT_9 {
        Some((b - DIGIT_0 + 52) as u8)
    } else if b == PLUS {
        Some(62u8)
    } else if b == SLASH {
        Some(63u8)
    } else {
        None
    }
}

/// Whether `b` belongs to the alphabet.
pub open spec fn is_symbol(b: u8) -> bool {
    sextet_of(b) is Some
}

/// The value of `b` as a six-bit digit; bytes outside the alphabet count as zero.
pub open spec fn sextet_value(b: u8) -> nat {
    match sextet_of(b) {
        Some(v) => v as nat,
        None => 0,
    }
}

/// The symbol that stands for the six-bit value `v`.
pub open spec fn symbol_of(v: u8) -> u8
    recommends
        v < 64,
{
    if v < 26 {
        (UPPER_A + v) as u8
    } else if v < 52 {
        (LOWER_A + (v - 26)) as u8
    } else if v < 62 {
        (DIGIT_0 + (v - 52)) as u8
    } else if v == 62 {
        PLUS
    } else {
        SLASH
    }
}

/// Whether every byte of `s` is a symbol.
pub open spec fn all_symbols(s: Seq<u8>) -> bool {
    forall|i: int| 0 <= i < s.len() ==> is_symbol(#[trigger] s[i])
}

/// Reading a symbol and writing its value back gives the same symbol, so no two
/// symbols share a value.
pub proof fn lemma_symbol_of_sextet(b: u8)
    requires
        is_symbol(b),
    ensures
        sextet_of(b)->Some_0 < 64,
        symbol_of(sextet_of(b)->Some_0) == b,
{
}

/// Every six-bit value is the value of the symbol written for it, so all of
/// 0..=63 are covered.
pub proof fn lemma_sextet_of_symbol(v: u8)
    requires
        v < 64,
    ensures
        sextet_of(symbol_of(v)) == Some(v),
{
}

/// The alphabet and the six-bit values correspond one to one: every symbol has
/// a value in 0..=63, and every value in 0..=63 is the value of exactly one
/// symbol.
pub proof fn lemma_alphabet_bijection()
    ensures
        forall|b: u8| is_symbol(b) ==> (#[trigger] sextet_of(b))->Some_0 < 64,
        forall|v: u8, b: u8|
            v < 64 ==> (#[trigger] sextet_of(b) == Some(v) <==> b == #[trigger] symbol_of(v)),
{
}

/// Looks up the six-bit value of `b`.
pub fn sextet(b: u8) -> (res: Option<u8>)
    ensures
        res == sextet_of(b),
{
    if UPPER_A <= b && b <= UPPER_Z {
        Some(b - UPPER_A)
    } else if LOWER_A <= b && b <= LOWER_Z {
        Some(b - LOWER_A + 26)
    } else if DIGIT_0 <= b && b <= DIGIT_9 {
        Some(b - DIGIT_0 + 52)
    } else if b == PLUS {
        Some(62)
    } else if b == SLASH {
        Some(63)
    } else {
        None
    }
}

} // verus!
