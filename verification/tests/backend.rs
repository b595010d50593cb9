use aes_ctr::backend::{select_backend, Backend};
use aes_ctr::block::{block_to_bytes, bytes_to_block, le_bytes_to_block};
use aes_ctr::gf256::times_x;
use aes_ctr::sbox::substitute;
use aes_ctr::sisd::{cipher, key_expansion, RCON};

fn field_product(a: u8, b: u8) -> u8 {
    let mut a = a;
    let mut product = 0u8;
    for bit in 0..8 {
        if b & (1 << bit) != 0 {
            product ^= a;
        }
        a = times_x(a);
    }
    product
}

#[test]
fn doubling_in_the_field() {
    assert_eq!(times_x(0x00), 0x00);
    assert_eq!(times_x(0x01), 0x02);
    assert_eq!(times_x(0x57), 0xae);
    assert_eq!(times_x(0xae), 0x47);
    assert_eq!(times_x(0x47), 0x8e);
    assert_eq!(times_x(0x8e), 0x07);
    assert_eq!(times_x(0x80), 0x1b);
    assert_eq!(times_x(0xff), 0xe5);
    assert_eq!(field_product(0x57, 0x13), 0xfe);
    assert_eq!(field_product(0x57, 0x83), 0xc1);
}

#[test]
fn substitution_of_known_bytes() {
    assert_eq!(substitute(0x00), 0x63);
    assert_eq!(substitute(0x01), 0x7c);
    assert_eq!(substitute(0x53), 0xed);
    assert_eq!(substitute(0x10), 0xca);
    assert_eq!(substitute(0x0f), 0x76);
    assert_eq!(substitute(0xf0), 0x8c);
    assert_eq!(substitute(0xff), 0x16);
}

#[test]
fn substitution_is_inversion_then_the_affine_map() {
    for a in 0..=255u8 {
        let inverse = (0..=255u8).find(|&b| field_product(a, b) == 1).unwrap_or(0);
        let affine = inverse
            ^ inverse.rotate_left(1)
            ^ inverse.rotate_left(2)
            ^ inverse.rotate_left(3)
            ^ inverse.rotate_left(4)
            ^ 0x63;
        assert_eq!(substitute(a), affine);
    }
}

#[test]
fn substitution_is_a_permutation() {
    let mut seen = [false; 256];
    for a in 0..=255u8 {
        seen[substitute(a) as usize] = true;
    }
    assert!(seen.iter().all(|&hit| hit));
}

#[test]
fn round_constants_are_the_powers_of_x() {
    assert_eq!(RCON, [0x01, 0x02, 0x04, 0x08, 0x10, 0x20, 0x40, 0x80, 0x1b, 0x36]);
    let mut power = 1u8;
    for constant in RCON {
        assert_eq!(constant, power);
        power = times_x(power);
    }
}

#[test]
fn block_and_bytes() {
    let block = 0x000102030405060708090a0b0c0d0e0fu128;
    let bytes: [u8; 16] = [0, 1, 2, 3, 4, 5, 6, 7, 8, 9, 10, 11, 12, 13, 14, 15];
    assert_eq!(block_to_bytes(block), bytes);
    assert_eq!(bytes_to_block(&bytes), block);
    assert_eq!(le_bytes_to_block(&bytes), 0x0f0e0d0c0b0a09080706050403020100);
    assert_eq!(block_to_bytes(u128::MAX), [0xff; 16]);
    assert_eq!(bytes_to_block(&[0; 16]), 0);
    let other = 0xf0f1f2f3f4f5f6f7f8f9fafbfcfdfeffu128;
    assert_eq!(block_to_bytes(other), other.to_be_bytes());
    assert_eq!(bytes_to_block(&other.to_be_bytes()), other);
    assert_eq!(le_bytes_to_block(&other.to_le_bytes()), other);
}

#[test]
fn schedule_has_eleven_keys_and_starts_with_the_key() {
    for key in [0u128, 1, u128::MAX, 0x2b7e151628aed2a6abf7158809cf4f3c] {
        let round_keys = key_expansion(key);
        assert_eq!(round_keys.len(), 11);
        assert_eq!(round_keys[0], key);
    }
}

#[test]
fn schedule_of_the_zero_key() {
    let round_keys = key_expansion(0);
    assert_eq!(round_keys[1], 0x62636363626363636263636362636363);
    assert_eq!(round_keys[10], 0xb4ef5bcb3e92e21123e951cf6f8f188e);
}

#[test]
fn cipher_on_the_standard_example() {
    let round_keys = key_expansion(0x000102030405060708090a0b0c0d0e0f);
    assert_eq!(round_keys[10], 0x13111d7fe3944a17f307a78b4d2b30c5);
    assert_eq!(
        cipher(0x00112233445566778899aabbccddeeff, &round_keys),
        0x69c4e0d86a7b0430d8cdb78070b4c55a
    );
}

#[test]
fn cipher_depends_on_every_round_key() {
    let round_keys = key_expansion(0x2b7e151628aed2a6abf7158809cf4f3c);
    let state = 0x6bc1bee22e409f96e93d7e117393172au128;
    let reference = cipher(state, &round_keys);
    for i in 0..11 {
        let mut changed = round_keys;
        changed[i] ^= 1;
        assert_ne!(cipher(state, &changed), reference);
    }
}

#[test]
fn hardware_backend_needs_both_instruction_sets() {
    assert_eq!(select_backend(true, true), Backend::Hardware);
    assert_eq!(select_backend(true, false), Backend::Software);
    assert_eq!(select_backend(false, true), Backend::Software);
    assert_eq!(select_backend(false, false), Backend::Software);
}
