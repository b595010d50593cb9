//! Initial counters drawn from a generator that the operating system seeds.
use crate::block::le_bytes_to_block;
use rand::{RngCore, SeedableRng};
use rand_chacha::ChaCha20Rng;
use vstd::prelude::*;

verus! {

/// The ChaCha generator with twenty rounds of `rand_chacha`. Nothing of its
/// state is visible here: a value of it is only carried from one call to
/// the next.
#[verifier::external_type_specification]
#[verifier::external_body]
pub struct ExChaCha20Rng(rand_chacha::ChaCha20Rng);

/// `SeedableRng::from_entropy` for `ChaCha20Rng`: a generator seeded from the
/// operating system's entropy source. Nothing is claimed of its state. The
/// call panics where the system can provide no entropy.
#[verifier::external_body]
fn seeded_generator() -> (generator: ChaCha20Rng) {
    ChaCha20Rng::from_entropy()
}

/// `RngCore::fill_bytes` of `ChaCha20Rng` on a buffer of sixteen bytes.
/// Nothing is claimed of the bytes.
#[verifier::external_body]
fn sixteen_bytes(generator: &mut ChaCha20Rng) -> (bytes: [u8; 16]) {
    let mut bytes = [0u8; 16];
    generator.fill_bytes(&mut bytes);
    bytes
}

/// A fresh initial counter: sixteen bytes of a newly seeded generator, read
/// least significant first. No two calls need agree.
pub fn fresh_iv() -> u128 {
    let mut generator = seeded_generator();
    let bytes: [u8; 16] = sixteen_bytes(&mut generator);
    le_bytes_to_block(bytes.as_slice())
}

} // verus!
