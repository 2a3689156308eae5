//! Fixed and K-derived constants of the Kyber parameter sets.
//!
//! K ranges over {2, 3, 4}, selecting Kyber512, Kyber768 or Kyber1024.

use vstd::prelude::*;

verus! {

/// Degree of the polynomial ring R_q = Z_q[X]/(X^N + 1).
pub const KYBER_N: usize = 256;

/// The prime modulus q.
pub const KYBER_Q: usize = 3329;

/// Size in bytes of hashes and seeds.
pub const KYBER_SYMBYTES: usize = 32;

/// Size in bytes of a shared secret.
pub const KYBER_SSBYTES: usize = 32;

/// Size in bytes of a packed polynomial (12 bits per coefficient).
pub const KYBER_POLYBYTES: usize = 384;

/// The eta parameter of the second noise distribution, for every K.
pub const KYBER_ETA2: usize = 2;

/// True exactly for the supported security levels.
pub open spec fn valid_k(k: usize) -> bool {
    k == 2 || k == 3 || k == 4
}

/// Size in bytes of a compressed polynomial vector: 10 bits per
/// coefficient for K in {2, 3}, 11 bits for K = 4.
pub fn kyber_polyvec_compressed_bytes(k: usize) -> (r: usize)
    requires
        valid_k(k),
    ensures
        r == if k == 4 { 352 * k } else { 320 * k },
{
    if k == 4 {
        352 * k
    } else {
        320 * k
    }
}

/// Size in bytes of a compressed polynomial: 4 bits per coefficient
/// for K in {2, 3}, 5 bits for K = 4.
pub fn kyber_poly_compressed_bytes(k: usize) -> (r: usize)
    requires
        valid_k(k),
    ensures
        r == if k == 4 { 160usize } else { 128usize },
{
    if k == 4 {
        160
    } else {
        128
    }
}

/// Size in bytes of a packed polynomial vector.
pub fn kyber_polyvec_bytes(k: usize) -> (r: usize)
    requires
        valid_k(k),
    ensures
        r == k * KYBER_POLYBYTES,
{
    k * KYBER_POLYBYTES
}

/// The eta parameter of the first noise distribution: 3 for K = 2,
/// otherwise 2.
pub fn kyber_eta1(k: usize) -> (r: usize)
    requires
        valid_k(k),
    ensures
        r == if k == 2 { 3usize } else { 2usize },
{
    if k == 2 {
        3
    } else {
        2
    }
}

/// Size in bytes of an INDCPA public key: a packed polynomial vector
/// followed by the 32-byte public seed.
pub fn kyber_indcpa_pkbytes(k: usize) -> (r: usize)
    requires
        valid_k(k),
    ensures
        r == k * KYBER_POLYBYTES + KYBER_SYMBYTES,
{
    k * KYBER_POLYBYTES + KYBER_SYMBYTES
}

/// Size in bytes of an INDCPA secret key: a packed polynomial vector.
pub fn kyber_indcpa_skbytes(k: usize) -> (r: usize)
    requires
        valid_k(k),
    ensures
        r == k * KYBER_POLYBYTES,
{
    k * KYBER_POLYBYTES
}

} // verus!
