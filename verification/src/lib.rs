//! Core of a Kyber-style lattice-based key encapsulation mechanism:
//! polynomial arithmetic over Z_q[X]/(X^256+1), the number-theoretic
//! transform, Montgomery/Barrett reductions, compression codecs, noise
//! and uniform sampling, and the INDCPA encryption scheme built on them.

pub mod params;
pub mod reduce;
pub mod ntt;
pub mod poly;
pub mod cbd;
pub mod polyvec;
pub mod symmetric;
pub mod indcpa;
pub mod kem;
