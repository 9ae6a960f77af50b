//! Certificateless QC-MDPC cryptosystem: GF(2) matrix algebra, circulant
//! polynomial algebra, combinatorial indexing, bit-flipping decoding, key
//! derivation and one-time node-acceptance signatures.

use vstd::prelude::*;

pub mod bits;
pub mod grid;
pub mod binary_matrix_operations;
pub mod elimination;
pub mod decoder;
pub mod certificateless_qc_mdpc;
pub mod error;
pub mod random;
pub mod qc_mdpc;
pub mod mc_eliece;
pub mod polynomial;
pub mod hashing;
pub mod bignum;
pub mod math;

pub use crate::certificateless_qc_mdpc::utils;

verus! {

/// Length of the encryption code in blocks: the inverse of the code rate.
pub const N_0: usize = 2;

/// Size of a circulant block of the encryption code.
pub const P: usize = 8009;

/// Weight of a row of the parity-check matrix.
pub const W: usize = 100;

/// Number of errors added to a code word.
pub const T: usize = 50;

/// Dimension of the secret generator of the signature scheme.
pub const SIG_K: usize = 160;

/// Length of the public parity-check matrix of the signature scheme.
pub const SIG_N: usize = 2000;

/// Length of the secret generator of the signature scheme.
pub const SIG_N_PRIME: usize = 1000;

/// Dimension of the public parity-check matrix of the signature scheme.
pub const SIG_R: usize = 1100;

/// Least weight of an acceptable signature.
pub const SIGNATURE_WEIGHT_INTERVAL_LOW: usize = 470;

/// Greatest weight of an acceptable signature.
pub const SIGNATURE_WEIGHT_INTERVAL_HIGH: usize = 530;

} // verus!
