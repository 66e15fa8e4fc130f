//! A fixed-width, reversible textual encoding for 64-bit unsigned integers.
//!
//! Every `u64` value maps to exactly 11 characters drawn from a 64-symbol
//! alphabet (`A`-`Z`, `a`-`z`, `0`-`9`, `-`, `_`), and back. The encoding is a
//! bit-for-bit reinterpretation of the value as eleven base-64 digits, most
//! significant digit first, so each value has exactly one canonical form.

pub mod codec;
pub mod tables;

pub use codec::decode_fixed;
pub use codec::encode;
pub use codec::str_to_u64;
pub use codec::to_text;
pub use codec::to_text_lossy;
pub use codec::u64_to_str;
pub use tables::reverse_lookup;
