//! Core of a lattice-based private information retrieval scheme.
//!
//! A client fetches one record of an untrusted server's database without
//! revealing which one.  The server answers under homomorphic encryption:
//! the query is a pair of seeded RLWE ciphertexts, expanded on the server
//! into first-dimension ciphertexts and GSW bit encryptions; the answer is
//! produced by an inner product with the encoded database, a fold of
//! GSW-selects, rotate-selects, projection, packing and modulus compression.
pub mod arith;
pub mod codec;
pub mod gadget;
pub mod gsw;
pub mod keys;
pub mod params;
pub mod respire;
pub mod ring;
pub mod rlwe;
pub mod rng;
