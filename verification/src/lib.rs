//! AES-128 block encryption with machine-checked contracts.
//!
//! The cipher is stated as a mathematical function on sequences of sixteen
//! bytes, and every executable function is proved to compute it.

#![allow(unused_imports)]

pub mod block;
pub mod enc;
pub mod gf;
pub mod gf_laws;
pub mod key_expansion;

pub use block::Block;
pub use enc::{encrypt_block, encrypt_blocks_multiple};
