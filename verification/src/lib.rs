//! AES-128 in counter mode, verified.
//!
//! `aes` encrypts and decrypts a buffer in place, as a whole or block by
//! block. `rijndael` and `ctr` say in mathematics what the cipher and the
//! mode compute, and hold the laws of the mode; `gf256`, `sbox` and `block`
//! are the field, the substitution box and the byte order underneath.
//! `sisd` is the portable backend of the cipher, `accel` the arithmetic of
//! the accelerated one, and `backend` the choice between the two. `entropy`
//! draws initial counters. `pool` keeps the books of a scoped pool of worker
//! threads, on which the blocks of a buffer can be encrypted in parallel.
pub mod accel;
pub mod aes;
pub mod backend;
pub mod block;
pub mod ctr;
pub mod entropy;
pub mod gf256;
pub mod pool;
pub mod rijndael;
pub mod sbox;
pub mod sisd;
