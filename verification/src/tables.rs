//! The 64-symbol alphabet and its reverse lookup table.
//!
//! The alphabet is the fixed ordered sequence
//! `ABCDEFGHIJKLMNOPQRSTUVWXYZabcdefghijklmnopqrstuvwxyz0123456789-_`:
//! index `i` is the 6-bit digit value `i`. The reverse lookup maps every byte
//! value back to its digit, or to the sentinel for bytes outside the alphabet.

use vstd::prelude::*;

verus! {

/// Marker in the reverse lookup table for a byte that is not an alphabet
/// symbol. Distinct from every valid 6-bit digit (which is below 64).
pub const SENTINEL: u8 = 255;

/// The code point of the alphabet symbol at index `code`, for `0 <= code < 64`:
/// `A`-`Z` for 0-25, `a`-`z` for 26-51, `0`-`9` for 52-61, `-` for 62,
/// `_` for 63.
pub open spec fn symbol_at(code: int) -> int
    recommends
        0 <= code < 64,
{
    if 0 <= code < 26 {
        65 + code
    } else if 26 <= code < 52 {
        97 + (code - 26)
    } else if 52 <= code < 62 {
        48 + (code - 52)
    } else if code == 62 {
        45
    } else {
        95
    }
}

/// The reverse lookup: the 6-bit digit of byte value `b`, or `SENTINEL`
/// when `b` is not an alphabet symbol.
pub open spec fn code_of(b: int) -> int {
    if 65 <= b < 91 {
        b - 65
    } else if 97 <= b < 123 {
        (b - 97) + 26
    } else if 48 <= b < 58 {
        (b - 48) + 52
    } else if b == 45 {
        62
    } else if b == 95 {
        63
    } else {
        SENTINEL as int
    }
}

/// Whether byte value `b` is one of the 64 alphabet symbols.
pub open spec fn is_alphabet_byte(b: int) -> bool {
    code_of(b) != SENTINEL as int
}

/// Every alphabet symbol decodes back to its own index.
pub proof fn lemma_symbol_code_roundtrip(code: int)
    requires
        0 <= code < 64,
    ensures
        code_of(symbol_at(code)) == code,
        is_alphabet_byte(symbol_at(code)),
{
}

/// Every alphabet byte is the symbol of its own digit: the two tables are
/// inverse on the alphabet.
pub proof fn lemma_code_symbol_roundtrip(b: int)
    requires
        is_alphabet_byte(b),
    ensures
        0 <= code_of(b) < 64,
        symbol_at(code_of(b)) == b,
{
}

/// Alphabet symbols are printable ASCII, so encoded text is single-byte safe.
pub proof fn lemma_symbol_ascii(code: int)
    requires
        0 <= code < 64,
    ensures
        45 <= symbol_at(code) < 123,
{
}

/// The alphabet symbol at index `code`.
pub fn symbol_byte(code: u8) -> (b: u8)
    requires
        code < 64,
    ensures
        b as int == symbol_at(code as int),
{
    if code < 26 {
        65 + code
    } else if code < 52 {
        71 + code
    } else if code < 62 {
        code - 4
    } else if code == 62 {
        45
    } else {
        95
    }
}

/// The 6-bit digit of byte `b`, or `SENTINEL` when `b` is not in the alphabet.
pub fn byte_code(b: u8) -> (c: u8)
    ensures
        c as int == code_of(b as int),
{
    if 65 <= b && b < 91 {
        b - 65
    } else if 97 <= b && b < 123 {
        (b - 97) + 26
    } else if 48 <= b && b < 58 {
        (b - 48) + 52
    } else if b == 45 {
        62
    } else if b == 95 {
        63
    } else {
        SENTINEL
    }
}

/// Builds the full 256-entry reverse lookup table: entry `b` holds the 6-bit
/// digit of byte value `b`, or `SENTINEL` for the 192 bytes outside the
/// alphabet. Construction always succeeds; the table is total over all byte
/// values, so unchecked decoding can index it with any byte without danger.
pub fn reverse_lookup() -> (table: Vec<u8>)
    ensures
        table@.len() == 256,
        forall|b: int| 0 <= b < 256 ==> table@[b] as int == code_of(b),
{
    let mut table: Vec<u8> = Vec::new();
    let mut b: usize = 0;
    while b < 256
        invariant
            b <= 256,
            table@.len() == b,
            forall|j: int| 0 <= j < b ==> table@[j] as int == code_of(j),
        decreases 256 - b,
    {
        table.push(byte_code(b as u8));
        b = b + 1;
    }
    table
}

} // verus!
