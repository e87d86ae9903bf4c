//! Verification engine for a private-transaction scheme: fixed-width
//! elliptic-curve point codecs, a verifying-key document parser, Groth16
//! pairing-based proof verification, an append-only Merkle commitment
//! accumulator, and the commitment/nullifier hash combinators.

pub mod codec;
pub mod field;
pub mod groth16;
pub mod hashing;
pub mod merkle;
pub mod vk;
