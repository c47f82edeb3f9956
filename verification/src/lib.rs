//! Keccak-f[1600] and the SHAKE sponges built on it, with their proofs.
//!
//! - [`permutation`]: the permutation, as specification and as code.
//! - [`permutation_laws`]: what each step of the permutation does to the bits of a state.
//! - [`inverse`]: the inverse of the permutation, and the proof that it is one.
//! - [`keccak`]: the permutation as a value that is handed to a caller's function.
//! - [`sponge`]: what a message is turned into, and which bytes come out, as specification.
//! - [`shake`]: the SHAKE128 and SHAKE256 sponges.
//! - [`laws`]: what a sponge makes of its input byte by byte and block by block, and what holds
//!   between several of its operations.
pub mod inverse;
pub mod keccak;
pub mod laws;
pub mod permutation;
pub mod permutation_laws;
pub mod shake;
pub mod sponge;
mod sponge_lemmas;
