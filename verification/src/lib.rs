//! A miniature substitution-permutation-network block cipher over 16-bit
//! blocks with an 80-bit master key, together with two classical
//! key-recovery attacks — linear and differential cryptanalysis — that
//! exploit the fixed 4-bit substitution box to recover one nibble of the
//! final round key from plaintext/ciphertext data.
//!
//! Biases and probabilities are exact rationals with denominator 16 (for
//! the substitution-box analyses) or the pair count (for the attacks), so
//! they are represented throughout by their integer numerators.

pub mod analysis;
pub mod attack;
pub mod cipher;
pub mod errors;
pub mod sbox;
