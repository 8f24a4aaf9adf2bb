//! A polynomial commitment scheme over binary tower fields.
//!
//! A prover commits to a multilinear polynomial with 32-bit tower-field
//! coefficients by Reed-Solomon encoding the rows of its coefficient matrix
//! with an additive NTT and building a Keccak-256 Merkle tree over the encoded
//! columns. An evaluation proof folds the matrix with the Lagrange basis at the
//! head of the point and opens queried columns; the verifier re-encodes the
//! folded vector and checks each opening.
//!
//! - `tower`, `field`: the binary tower fields and their 32- and 128-bit types.
//! - `polyval`: GF(2^128) in the POLYVAL basis (Montgomery form) and the linear
//!   maps to and from the tower basis.
//! - `underlier`, `packed`: the 512-bit underlier and packed tower-field lanes.
//! - `packed_algebra`: 32 lanes of the 128-bit field as an algebra over the 32-bit field.
//! - `ntt`: the additive NTT.
//! - `encoding`: the rate-4 encoder, the coefficient matrix and its folding.
//! - `merkle`: Merkle trees and membership paths.
//! - `pcs`: commit, prove and verify.

pub mod tower;
pub mod field;
pub mod polyval;
pub mod underlier;
pub mod packed;
pub mod packed_algebra;
pub mod ntt;
pub mod encoding;
pub mod merkle;
pub mod pcs;
