//! Encoding and decoding of 64-bit values as 11-character texts.
//!
//! A `u64` is read most-significant-bit first and split into 11 groups of 6
//! bits, taken at shifts 60, 54, 48, 42, 36, 30, 24, 18, 12, 6 and 0; each
//! group indexes the alphabet to give one output symbol. 11 groups address 66
//! bits, but extraction starts at shift 60, so the first group only ever
//! carries the top 4 bits of the value: the first symbol of any encoded form
//! is one of the first 16 alphabet symbols. Decoding runs in reverse, OR-ing
//! each symbol's 6-bit digit back into place. There is an unchecked path for
//! trusted input and a validating path that rejects anything outside the
//! alphabet.

use vstd::prelude::*;

use crate::tables::SENTINEL;
use crate::tables::code_of;
use crate::tables::is_alphabet_byte;
use crate::tables::lemma_symbol_ascii;
use crate::tables::lemma_symbol_code_roundtrip;
use crate::tables::symbol_at;
use crate::tables::symbol_byte;
use crate::tables::byte_code;

verus! {

/// The 6-bit group of `v` at position `i` (0 is the most significant), taken
/// at shift `60 - 6*i` and masked to the low 6 bits.
pub open spec fn group_of(v: u64, i: int) -> u64
    recommends
        0 <= i < 11,
{
    (v >> ((60 - 6 * i) as u64)) & 0x3f
}

/// The canonical encoded form of `v`: 11 alphabet bytes, one per 6-bit group,
/// most significant group first.
pub open spec fn encode_bytes(v: u64) -> Seq<u8> {
    Seq::new(11, |i: int| symbol_at(group_of(v, i) as int) as u8)
}

/// The canonical encoded form of `v` as text: its 11 alphabet bytes read as
/// characters.
pub open spec fn text_of(v: u64) -> Seq<char> {
    Seq::new(11, |i: int| (symbol_at(group_of(v, i) as int) as u8) as char)
}

/// The value reconstructed from the first `k` bytes of `s` by the unchecked
/// path: each byte's reverse-lookup result — the sentinel included, when the
/// byte is not an alphabet symbol — OR'ed in at shift `60 - 6*i`.
pub open spec fn fixed_decode_prefix(s: Seq<u8>, k: int) -> u64
    recommends
        0 <= k <= s.len(),
        k <= 11,
    decreases k,
{
    if k <= 0 {
        0u64
    } else {
        fixed_decode_prefix(s, k - 1) | ((code_of(s[k - 1] as int) as u64) << ((60 - 6 * (k
            - 1)) as u64))
    }
}

/// What the unchecked decode path computes from 11 bytes. On bytes that all
/// come from the alphabet this inverts `encode_bytes`; on anything else the
/// sentinel's bits are OR'ed in and the result is a well-defined but
/// meaningless number.
pub open spec fn fixed_decode(s: Seq<u8>) -> u64
    recommends
        s.len() == 11,
{
    fixed_decode_prefix(s, 11)
}

/// The 6-bit digit of character `c`, or the sentinel when `c` is not an
/// alphabet symbol (every character beyond the byte domain included).
pub open spec fn char_digit(c: char) -> int {
    code_of(c as int)
}

/// Whether `s` is accepted by the validating decode path: at most 11
/// characters, every one an alphabet symbol.
pub open spec fn valid_encoded(s: Seq<char>) -> bool {
    &&& s.len() <= 11
    &&& forall|i: int| 0 <= i < s.len() ==> char_digit(s[i]) != SENTINEL as int
}

/// The value reconstructed from the first `k` characters of `s`: each
/// character's digit OR'ed in at shift `60 - 6*i`. Positions past the end of a
/// short input stay zero, so fewer than 11 characters decode as if the low
/// groups were the index-0 symbol.
pub open spec fn checked_decode_prefix(s: Seq<char>, k: int) -> u64
    recommends
        0 <= k <= s.len(),
        k <= 11,
    decreases k,
{
    if k <= 0 {
        0u64
    } else {
        checked_decode_prefix(s, k - 1) | ((char_digit(s[k - 1]) as u64) << ((60 - 6 * (k
            - 1)) as u64))
    }
}

/// What the validating decode path returns on input it accepts.
pub open spec fn str_decode(s: Seq<char>) -> u64
    recommends
        valid_encoded(s),
{
    checked_decode_prefix(s, s.len() as int)
}

/// A 6-bit group is always below 64.
proof fn lemma_group_bound(v: u64, i: int)
    requires
        0 <= i < 11,
    ensures
        group_of(v, i) < 64,
{
    let amt = (60 - 6 * i) as u64;
    assert((v >> amt) & 0x3f < 64) by (bit_vector);
}

/// The 6-bit digit of `v`'s group at position `i`, for shift `60 - 6*i`.
fn extract_group(v: u64, shift: u64) -> (code: u8)
    requires
        shift <= 60,
    ensures
        code as u64 == (v >> shift) & 0x3f,
        code < 64,
{
    proof {
        assert((v >> shift) & 0x3f < 64) by (bit_vector);
    }
    ((v >> shift) & 0x3f) as u8
}

/// Encodes `value` as its canonical 11-byte form: 11 groups of 6 bits, most
/// significant first, each mapped through the alphabet. Every `u64` has
/// exactly one encoded form; encoding never fails.
pub fn encode(value: u64) -> (r: Vec<u8>)
    ensures
        r@ == encode_bytes(value),
{
    let mut r: Vec<u8> = Vec::new();
    let mut i: usize = 0;
    while i < 11
        invariant
            i <= 11,
            r@.len() == i,
            forall|j: int| 0 <= j < i ==> r@[j] == encode_bytes(value)[j],
        decreases 11 - i,
    {
        let shift: u64 = 60 - 6 * (i as u64);
        proof {
            lemma_group_bound(value, i as int);
        }
        r.push(symbol_byte(extract_group(value, shift)));
        i = i + 1;
    }
    proof {
        assert(r@ =~= encode_bytes(value));
    }
    r
}

/// The unchecked fast path: reconstructs a value from exactly 11 bytes,
/// assuming every byte came from the alphabet. No validation is done: a byte
/// outside the alphabet has the sentinel OR'ed into the result, which yields a
/// wrong but well-defined number, never a crash — the reverse lookup is total
/// over all byte values. Intended only for previously-encoded input.
pub fn decode_fixed(input: &[u8]) -> (v: u64)
    requires
        input@.len() == 11,
    ensures
        v == fixed_decode(input@),
{
    let mut result: u64 = 0;
    let mut i: usize = 0;
    while i < 11
        invariant
            i <= 11,
            input@.len() == 11,
            result == fixed_decode_prefix(input@, i as int),
        decreases 11 - i,
    {
        let code = byte_code(input[i]);
        let shift: u64 = 60 - 6 * (i as u64);
        result = result | ((code as u64) << shift);
        i = i + 1;
    }
    result
}

/// The validating decode path. Accepts at most 11 characters, each an
/// alphabet symbol, and reconstructs the value by OR-ing each character's
/// 6-bit digit in at shift `60 - 6*i`; fewer than 11 characters leave the
/// trailing low-order groups zero. Returns `None` — and no partial value — as
/// soon as the input is longer than 11 characters or holds any character
/// outside the alphabet, a character beyond the byte domain included.
pub fn str_to_u64(input: &str) -> (r: Option<u64>)
    ensures
        r is Some <==> valid_encoded(input@),
        r is Some ==> r == Some(str_decode(input@)),
{
    let n = input.unicode_len();
    if n > 11 {
        return None;
    }
    let mut result: u64 = 0;
    let mut i: usize = 0;
    while i < n
        invariant
            n == input@.len(),
            n <= 11,
            i <= n,
            forall|j: int| 0 <= j < i ==> char_digit(input@[j]) != SENTINEL as int,
            result == checked_decode_prefix(input@, i as int),
        decreases n - i,
    {
        let c = input.get_char(i);
        let code = char_code(c);
        if code == SENTINEL {
            proof {
                assert(!valid_encoded(input@)) by {
                    assert(char_digit(input@[i as int]) == SENTINEL as int);
                }
            }
            return None;
        }
        let shift: u64 = 60 - 6 * (i as u64);
        result = result | ((code as u64) << shift);
        i = i + 1;
    }
    Some(result)
}

/// The 6-bit digit of character `c`, or `SENTINEL` when `c` is not an
/// alphabet symbol. Characters beyond the byte domain are never symbols.
fn char_code(c: char) -> (code: u8)
    ensures
        code as int == char_digit(c),
{
    let u = c as u32;
    if u > 255 {
        SENTINEL
    } else {
        byte_code(u as u8)
    }
}

/// Relies on String::push: appends the given character to the end of the
/// string.
#[verifier::external_body]
fn push_char(s: &mut String, c: char)
    ensures
        final(s)@ == old(s)@.push(c),
{
    s.push(c);
}

/// Each byte of `s` read as a character.
pub open spec fn text_chars(s: Seq<u8>) -> Seq<char> {
    Seq::new(s.len(), |i: int| s[i] as char)
}

/// Each byte of `s` read as a character where it is an alphabet symbol, and
/// the placeholder `?` where it is not.
pub open spec fn lossy_text_chars(s: Seq<u8>) -> Seq<char> {
    Seq::new(
        s.len(),
        |i: int|
            if is_alphabet_byte(s[i] as int) {
                s[i] as char
            } else {
                '?'
            },
    )
}

/// Converts an encoded form to displayable text. Cannot fail: the caller
/// guarantees that every byte is an alphabet symbol, and the alphabet is
/// ASCII, so each byte is its own character. For input whose provenance is
/// not guaranteed, use `to_text_lossy`.
pub fn to_text(input: &[u8]) -> (s: String)
    requires
        forall|i: int| 0 <= i < input@.len() ==> is_alphabet_byte(input@[i] as int),
    ensures
        s@ == text_chars(input@),
{
    let mut s = String::new();
    let mut i: usize = 0;
    while i < input.len()
        invariant
            forall|j: int| 0 <= j < input@.len() ==> is_alphabet_byte(input@[j] as int),
            i <= input@.len(),
            s@ == text_chars(input@).take(i as int),
        decreases input@.len() - i,
    {
        push_char(&mut s, input[i] as char);
        proof {
            assert(s@ =~= text_chars(input@).take(i + 1));
        }
        i = i + 1;
    }
    proof {
        assert(text_chars(input@).take(input@.len() as int) =~= text_chars(input@));
    }
    s
}

/// The defensive text conversion: never fails, whatever the bytes are. Bytes
/// from the alphabet become their own characters; any other byte becomes the
/// placeholder `?` instead.
pub fn to_text_lossy(input: &[u8]) -> (s: String)
    ensures
        s@ == lossy_text_chars(input@),
{
    let mut s = String::new();
    let mut i: usize = 0;
    while i < input.len()
        invariant
            i <= input@.len(),
            s@ == lossy_text_chars(input@).take(i as int),
        decreases input@.len() - i,
    {
        let b = input[i];
        if byte_code(b) != SENTINEL {
            push_char(&mut s, b as char);
        } else {
            push_char(&mut s, '?');
        }
        proof {
            assert(s@ =~= lossy_text_chars(input@).take(i + 1));
        }
        i = i + 1;
    }
    proof {
        assert(lossy_text_chars(input@).take(input@.len() as int) =~= lossy_text_chars(input@));
    }
    s
}

/// Every byte of an encoded form is an alphabet symbol.
pub proof fn lemma_encode_bytes_alphabet(v: u64)
    ensures
        forall|i: int| 0 <= i < 11 ==> is_alphabet_byte(#[trigger] encode_bytes(v)[i] as int),
{
    assert forall|i: int| 0 <= i < 11 implies is_alphabet_byte(
        #[trigger] encode_bytes(v)[i] as int,
    ) by {
        lemma_group_bound(v, i);
        let g = group_of(v, i) as int;
        lemma_symbol_ascii(g);
        lemma_symbol_code_roundtrip(g);
    }
}

/// Round trip: the unchecked decode path inverts encoding. For every value
/// `v`, `decode_fixed` applied to the 11 bytes of `encode(v)` gives back `v`
/// exactly.
pub proof fn lemma_round_trip(v: u64)
    ensures
        fixed_decode(encode_bytes(v)) == v,
{
    let s = encode_bytes(v);
    assert forall|i: int| 0 <= i < 11 implies code_of(#[trigger] s[i] as int) == group_of(
        v,
        i,
    ) as int by {
        lemma_group_bound(v, i);
        let g = group_of(v, i) as int;
        lemma_symbol_ascii(g);
        lemma_symbol_code_roundtrip(g);
    }
    let g0: u64 = group_of(v, 0);
    let g1: u64 = group_of(v, 1);
    let g2: u64 = group_of(v, 2);
    let g3: u64 = group_of(v, 3);
    let g4: u64 = group_of(v, 4);
    let g5: u64 = group_of(v, 5);
    let g6: u64 = group_of(v, 6);
    let g7: u64 = group_of(v, 7);
    let g8: u64 = group_of(v, 8);
    let g9: u64 = group_of(v, 9);
    let g10: u64 = group_of(v, 10);
    reveal_with_fuel(fixed_decode_prefix, 12);
    assert(fixed_decode_prefix(s, 11) == ((((((((((0u64 | (g0 << 60u64)) | (g1 << 54u64)) | (g2
        << 48u64)) | (g3 << 42u64)) | (g4 << 36u64)) | (g5 << 30u64)) | (g6 << 24u64)) | (g7
        << 18u64)) | (g8 << 12u64)) | (g9 << 6u64)) | (g10 << 0u64));
    assert(((((((((((0u64 | (g0 << 60u64)) | (g1 << 54u64)) | (g2 << 48u64)) | (g3 << 42u64)) | (g4
        << 36u64)) | (g5 << 30u64)) | (g6 << 24u64)) | (g7 << 18u64)) | (g8 << 12u64)) | (g9
        << 6u64)) | (g10 << 0u64) == v) by (bit_vector)
        requires
            g0 == (v >> 60u64) & 0x3f,
            g1 == (v >> 54u64) & 0x3f,
            g2 == (v >> 48u64) & 0x3f,
            g3 == (v >> 42u64) & 0x3f,
            g4 == (v >> 36u64) & 0x3f,
            g5 == (v >> 30u64) & 0x3f,
            g6 == (v >> 24u64) & 0x3f,
            g7 == (v >> 18u64) & 0x3f,
            g8 == (v >> 12u64) & 0x3f,
            g9 == (v >> 6u64) & 0x3f,
            g10 == (v >> 0u64) & 0x3f,
    ;
}

/// Canonicity: encoding is injective, so every value has exactly one encoded
/// form and no two values share one.
pub proof fn lemma_encode_injective(v1: u64, v2: u64)
    requires
        encode_bytes(v1) == encode_bytes(v2),
    ensures
        v1 == v2,
{
    lemma_round_trip(v1);
    lemma_round_trip(v2);
}

/// The validating path computes the same value as the unchecked path wherever
/// the characters and the bytes carry the same digits, position by position.
proof fn lemma_decode_prefix_agree(cs: Seq<char>, bs: Seq<u8>, k: int)
    requires
        0 <= k <= 11,
        k <= cs.len(),
        k <= bs.len(),
        forall|i: int| 0 <= i < k ==> char_digit(cs[i]) == code_of(bs[i] as int),
    ensures
        checked_decode_prefix(cs, k) == fixed_decode_prefix(bs, k),
    decreases k,
{
    if k > 0 {
        lemma_decode_prefix_agree(cs, bs, k - 1);
    }
}

/// Round trip through text: the canonical text of any value is accepted by
/// the validating decode path and gives back the value exactly.
pub proof fn lemma_text_round_trip(v: u64)
    ensures
        valid_encoded(text_of(v)),
        str_decode(text_of(v)) == v,
{
    let t = text_of(v);
    let s = encode_bytes(v);
    assert forall|i: int| 0 <= i < 11 implies char_digit(#[trigger] t[i]) == code_of(
        s[i] as int,
    ) && char_digit(t[i]) != SENTINEL as int by {
        lemma_group_bound(v, i);
        let g = group_of(v, i) as int;
        lemma_symbol_ascii(g);
        lemma_symbol_code_roundtrip(g);
    }
    lemma_decode_prefix_agree(t, s, 11);
    lemma_round_trip(v);
}

/// Rejection of characters beyond the byte domain: input holding any
/// character whose code point exceeds 255 is not accepted by the validating
/// decode path, whatever the rest of it holds.
pub proof fn lemma_rejects_wide_char(s: Seq<char>, i: int)
    requires
        0 <= i < s.len(),
        s[i] as int > 255,
    ensures
        !valid_encoded(s),
{
    assert(char_digit(s[i]) == SENTINEL as int);
}

/// Rejection by alphabet membership: input holding any character that is not
/// an alphabet symbol — a byte-domain character included — is not accepted by
/// the validating decode path. The sentinel is never OR'ed into a result.
pub proof fn lemma_rejects_non_alphabet(s: Seq<char>, i: int)
    requires
        0 <= i < s.len(),
        char_digit(s[i]) == SENTINEL as int,
    ensures
        !valid_encoded(s),
{
}

/// The first symbol of every encoded form carries only the top 4 bits of the
/// value, so it is always one of the first 16 alphabet symbols.
pub proof fn lemma_first_symbol_bound(v: u64)
    ensures
        group_of(v, 0) < 16,
        code_of(encode_bytes(v)[0] as int) < 16,
{
    assert((v >> 60u64) & 0x3f < 16) by (bit_vector);
    lemma_symbol_ascii(group_of(v, 0) as int);
    lemma_symbol_code_roundtrip(group_of(v, 0) as int);
}

/// Text conversion is deterministic: the rendered text is a function of the
/// input bytes alone, so converting the same encoded form twice yields the
/// same text both times.
pub proof fn lemma_to_text_deterministic(bytes: Seq<u8>, t1: Seq<char>, t2: Seq<char>)
    requires
        t1 == text_chars(bytes),
        t2 == text_chars(bytes),
    ensures
        t1 == t2,
{
}

/// Encodes `value` and renders the result as text: the canonical 11-character
/// string for `value`, most significant 6-bit group first.
pub fn u64_to_str(value: u64) -> (s: String)
    ensures
        s@ == text_of(value),
{
    let bytes = encode(value);
    proof {
        lemma_encode_bytes_alphabet(value);
    }
    let s = to_text(bytes.as_slice());
    proof {
        assert(s@ =~= text_of(value));
    }
    s
}

} // verus!
