//! The Areion permutations and the hash functions built on them.
//!
//! - [`aes`]: the steps of the AES round function on 16 bytes, as
//!   specification, and the lemmas that its inverse steps invert them.
//! - [`block`]: the 128-bit lane and its operations.
//! - [`permutation`]: the permutations on two and on four lanes, their
//!   inverses, and the Davies-Meyer compression functions.
//! - [`encoding`], [`padding`]: integers as bytes, and the padding of a
//!   message's last block.
//! - [`md`], [`mmo`], [`sponge`], [`haifa`]: the four hash functions. Each
//!   has a `Core` that takes in full blocks and is finalized with the bytes
//!   that are left, and a function `hash` for a whole message.

pub mod aes;
pub mod block;
pub mod encoding;
pub mod haifa;
pub mod md;
pub mod mmo;
pub mod padding;
pub mod permutation;
pub mod sponge;

pub use crate::block::{load, store, zero, AesBlock};
pub use crate::permutation::{
    areion256, areion256_dm, areion512, areion512_dm, inv_areion256, inv_areion512,
};
