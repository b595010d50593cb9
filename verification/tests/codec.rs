use aes_ctr::aes::{add_keystream, aes_decrypt, aes_encrypt, aes_encrypt_decrypt, AesBlock};
use aes_ctr::entropy::fresh_iv;
use aes_ctr::sisd::{cipher, key_expansion};

const KEY_VALUE: u128 = 0x2b7e151628aed2a6abf7158809cf4f3c;
const KEY: [u8; 16] = KEY_VALUE.to_le_bytes();

fn sample(len: usize) -> Vec<u8> {
    (0..len).map(|i| (i * 7 + 3) as u8).collect()
}

#[test]
fn decrypt_restores_what_encrypt_took() {
    for len in [0usize, 1, 15, 16, 17, 31, 32, 33, 60, 1000] {
        let plain = sample(len);
        let mut buffer = plain.clone();
        let iv = aes_encrypt(&mut buffer, &KEY);
        assert_eq!(buffer.len(), len);
        if len >= 16 {
            assert_ne!(buffer, plain);
        }
        aes_decrypt(&mut buffer, &KEY, iv);
        assert_eq!(buffer, plain);
    }
}

#[test]
fn encrypt_draws_a_fresh_counter_each_time() {
    let mut first = sample(32);
    let mut second = sample(32);
    let iv_first = aes_encrypt(&mut first, &KEY);
    let iv_second = aes_encrypt(&mut second, &KEY);
    assert_ne!(iv_first, iv_second);
    assert_ne!(first, second);
}

#[test]
fn a_given_counter_is_the_one_used_and_returned() {
    let mut buffer = vec![0u8; 16];
    let iv = 0x0123456789abcdef0011223344556677u128;
    let used = aes_encrypt_decrypt(&mut buffer, &KEY, Some(iv));
    assert_eq!(used, iv);
    let keystream = cipher(iv, &key_expansion(KEY_VALUE));
    assert_eq!(buffer, keystream.to_le_bytes().to_vec());
}

#[test]
fn empty_buffer_stays_empty() {
    let mut buffer: Vec<u8> = Vec::new();
    let iv = aes_encrypt(&mut buffer, &KEY);
    assert!(buffer.is_empty());
    aes_decrypt(&mut buffer, &KEY, iv);
    assert!(buffer.is_empty());
    let blocks = AesBlock::decompose(&mut buffer, &KEY, Some(iv));
    assert!(blocks.is_empty());
}

#[test]
fn partial_final_block_takes_the_low_keystream_bytes() {
    let mut buffer = vec![0xaau8; 17];
    aes_encrypt_decrypt(&mut buffer, &KEY, Some(5));
    assert_eq!(buffer.len(), 17);
    let expected: [u8; 17] = [
        0x50, 0x61, 0x6a, 0x3b, 0xd4, 0x95, 0x98, 0xed, 0xdb, 0x26, 0x57, 0x93, 0x8d, 0x72, 0x82,
        0x45, 0x6b,
    ];
    assert_eq!(&buffer[..], &expected[..]);
    let round_keys = key_expansion(KEY_VALUE);
    let second = cipher(6, &round_keys);
    assert_eq!(second, 0x3066e41e679d88b8efeb7b3d4af3f6c1);
    assert_eq!(buffer[16], 0xaa ^ (second & 0xff) as u8);
}

#[test]
fn counter_wraps_around() {
    let mut buffer = vec![0u8; 40];
    aes_encrypt_decrypt(&mut buffer, &KEY, Some(u128::MAX));
    let round_keys = key_expansion(KEY_VALUE);
    let mut expected = Vec::new();
    expected.extend_from_slice(&cipher(u128::MAX, &round_keys).to_le_bytes());
    expected.extend_from_slice(&cipher(0, &round_keys).to_le_bytes());
    expected.extend_from_slice(&cipher(1, &round_keys).to_le_bytes()[..8]);
    assert_eq!(buffer, expected);
    assert_eq!(cipher(u128::MAX, &round_keys), 0x8af2860142f786f409307c1a3f7eaaac);
    assert_eq!(cipher(0, &round_keys), 0x7df76b0c1ab899b33e42f047b91b546f);
    assert_eq!(cipher(1, &round_keys), 0x57127d4034b1bebfaef466b9c7726fc6);
}

#[test]
fn split_at_a_block_boundary_gives_the_same_ciphertext() {
    let plain = sample(75);
    let iv = 0xffffffffffffffffffffffffffffff00u128;
    let mut whole = plain.clone();
    aes_encrypt_decrypt(&mut whole, &KEY, Some(iv));
    for blocks_in_head in 0..=4usize {
        let mut head = plain[..16 * blocks_in_head].to_vec();
        let mut tail = plain[16 * blocks_in_head..].to_vec();
        aes_encrypt_decrypt(&mut head, &KEY, Some(iv));
        aes_encrypt_decrypt(&mut tail, &KEY, Some(iv.wrapping_add(blocks_in_head as u128)));
        head.extend_from_slice(&tail);
        assert_eq!(head, whole);
    }
}

#[test]
fn tasks_in_any_order_give_the_serial_result() {
    let plain = sample(100);
    let iv = 42u128;
    let mut serial = plain.clone();
    aes_encrypt_decrypt(&mut serial, &KEY, Some(iv));

    let orders: [[usize; 7]; 3] = [[0, 1, 2, 3, 4, 5, 6], [6, 5, 4, 3, 2, 1, 0], [3, 0, 6, 1, 5, 2, 4]];
    for order in orders {
        let mut buffer = plain.clone();
        let blocks = AesBlock::decompose(&mut buffer, &KEY, Some(iv));
        assert_eq!(blocks.len(), 7);
        let mut slots: Vec<Option<AesBlock>> = blocks.into_iter().map(Some).collect();
        for i in order {
            let mut block = slots[i].take().unwrap();
            block.encrypt();
        }
        drop(slots);
        assert_eq!(buffer, serial);
    }
}

#[test]
fn decompose_hands_out_the_blocks_in_buffer_order() {
    let mut buffer = sample(50);
    let copy = buffer.clone();
    let iv = u128::MAX - 1;
    let blocks = AesBlock::decompose(&mut buffer, &KEY, Some(iv));
    assert_eq!(blocks.len(), 4);
    let expected_keys = key_expansion(KEY_VALUE);
    for (i, block) in blocks.iter().enumerate() {
        assert_eq!(block.ctr_block, iv.wrapping_add(i as u128));
        let end = (16 * i + 16).min(50);
        assert_eq!(&block.data[..], &copy[16 * i..end]);
        assert_eq!(*block.round_keys, expected_keys);
    }
    assert_eq!(blocks[3].data.len(), 2);
    assert_eq!(blocks[2].ctr_block, 0);
}

#[test]
fn decompose_without_a_counter_counts_up_from_a_fresh_one() {
    let mut buffer = sample(48);
    let plain = buffer.clone();
    let mut blocks = AesBlock::decompose(&mut buffer, &KEY, None);
    assert_eq!(blocks.len(), 3);
    let start = blocks[0].ctr_block;
    assert_eq!(blocks[1].ctr_block, start.wrapping_add(1));
    assert_eq!(blocks[2].ctr_block, start.wrapping_add(2));
    for block in blocks.iter_mut() {
        block.encrypt();
    }
    drop(blocks);
    aes_decrypt(&mut buffer, &KEY, start);
    assert_eq!(buffer, plain);
}

#[test]
fn encrypting_a_block_twice_restores_it() {
    let mut buffer = sample(16);
    let plain = buffer.clone();
    let mut blocks = AesBlock::decompose(&mut buffer, &KEY, Some(9));
    blocks[0].encrypt();
    blocks[0].encrypt();
    drop(blocks);
    assert_eq!(buffer, plain);
}

#[test]
fn fresh_counters_differ() {
    let first = fresh_iv();
    let second = fresh_iv();
    let third = fresh_iv();
    assert!(first != second && second != third && first != third);
}

#[test]
fn keystream_is_added_low_byte_first() {
    let keystream = 0x0f0e0d0c0b0a09080706050403020100u128;
    let mut block = [0u8; 16];
    add_keystream(&mut block, keystream);
    assert_eq!(block, [0, 1, 2, 3, 4, 5, 6, 7, 8, 9, 10, 11, 12, 13, 14, 15]);
    let mut short = [0xffu8; 3];
    add_keystream(&mut short, keystream);
    assert_eq!(short, [0xff, 0xfe, 0xfd]);
    let mut empty: [u8; 0] = [];
    add_keystream(&mut empty, keystream);
    assert_eq!(empty.len(), 0);
}
