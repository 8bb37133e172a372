//! Mental-poker card protocol: additively homomorphic ElGamal over a
//! prime-order elliptic-curve group, Pedersen vector commitments, and the
//! Bayer-Groth zero-knowledge shuffle argument with its sub-arguments,
//! composed into a card-protocol facade (masking, remasking, reveal tokens,
//! joint-key aggregation, verifiable shuffling).
//!
//! All group and scalar arithmetic is performed by the arkworks BN254
//! implementation behind a small trusted layer; every value is modelled in
//! specifications by its canonical integer (for scalars) or its discrete
//! logarithm (for group elements), both living in the integers modulo the
//! prime group order.

pub mod algebra;
pub mod arguments;
pub mod cards;
pub mod chaum_pedersen;
pub mod codec;
pub mod elgamal;
pub mod error;
pub mod group;
pub mod matrix;
pub mod pedersen;
pub mod permutation;
pub mod sampling;
pub mod schnorr;
pub mod transcript;
pub mod zq;
