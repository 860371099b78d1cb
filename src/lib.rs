//! A 128-bit-block Feistel cipher and the primitives built on it: a
//! compression hash, a plaintext-feedback chaining codec and a
//! discrete-log signature scheme.

pub mod bignum;
pub mod cipher;
pub mod ds;
pub mod group;
pub mod hash;
pub mod pbc;
pub mod utils;
