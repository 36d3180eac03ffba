//! Base16 (hexadecimal) encoding and decoding of byte sequences.
//!
//! The encoder turns a byte buffer into its hex string, in upper or lower
//! case; the decoder turns a hex string back into bytes, accepting either
//! case and rejecting any character outside the sixteen-symbol alphabet.

pub mod base16;
