use aes_ctr::aes::{aes_encrypt_decrypt, AesBlock};
use aes_ctr::sisd;

const KEY: [u8; 16] = 0x2b7e151628aed2a6abf7158809cf4f3cu128.to_le_bytes();
const IV: u128 = 0xf0f1f2f3f4f5f6f7f8f9fafbfcfdfeff;

// The vectors of NIST SP 800-38A, F.5.1, with each block reversed and the last four bytes
// cut off: the standard lists a block most significant byte first, a buffer holds it least
// significant byte first.
const PLAINTEXT: [u8; 60] = [
    0x2a, 0x17, 0x93, 0x73, 0x11, 0x7e, 0x3d, 0xe9, 0x96, 0x9f, 0x40, 0x2e, 0xe2, 0xbe, 0xc1, 0x6b,
    0x51, 0x8e, 0xaf, 0x45, 0xac, 0x6f, 0xb7, 0x9e, 0x9c, 0xac, 0x03, 0x1e, 0x57, 0x8a, 0x2d, 0xae,
    0xef, 0x52, 0x0a, 0x1a, 0x19, 0xc1, 0xfb, 0xe5, 0x11, 0xe4, 0x5c, 0xa3, 0x46, 0x1c, 0xc8, 0x30,
    0x10, 0x37, 0x6c, 0xe6, 0x7b, 0x41, 0x2b, 0xad, 0x17, 0x9b, 0x4f, 0xdf,
];
const CIPHERTEXT: [u8; 60] = [
    0xce, 0xb6, 0x0d, 0x99, 0x64, 0x68, 0xef, 0x1b, 0x26, 0xe3, 0x20, 0xb6, 0x91, 0x61, 0x4d, 0x87,
    0xff, 0xfd, 0xff, 0xb9, 0x7b, 0x18, 0x17, 0x86, 0xff, 0xfd, 0x70, 0x79, 0x6b, 0xf6, 0x06, 0x98,
    0xab, 0x3e, 0xb0, 0x0d, 0x02, 0x09, 0x4f, 0x5b, 0x5e, 0xd3, 0xd5, 0xdb, 0x3e, 0xdf, 0xe4, 0x5a,
    0xee, 0x9c, 0x00, 0xf3, 0xa0, 0x70, 0x21, 0x79, 0xd1, 0x03, 0xbe, 0x2f,
];

#[test]
fn test_aes_encrypt_decrypt() {
    let mut input = PLAINTEXT.to_vec();

    aes_encrypt_decrypt(&mut input[..], &KEY, Some(IV));

    assert_eq!(
        &input[..],
        &CIPHERTEXT,
        "[ERROR]: Computed ciphertext is not equal to expected ciphertext"
    );

    let mut derived_input = input.clone();

    aes_encrypt_decrypt(&mut derived_input, &KEY, Some(IV));

    assert_eq!(
        &derived_input,
        &PLAINTEXT,
        "[ERROR]: Decryption using IV that was used for encryption does not yeild exactly the plaintext"
    );
}

#[test]
fn test_key_expansion() {
    const KEY: u128 = 0x2b7e151628aed2a6abf7158809cf4f3c;
    const EXPECTED: [u128; 11] = [
        0x2b7e151628aed2a6abf7158809cf4f3c,
        0xa0fafe1788542cb123a339392a6c7605,
        0xf2c295f27a96b9435935807a7359f67f,
        0x3d80477d4716fe3e1e237e446d7a883b,
        0xef44a541a8525b7fb671253bdb0bad00,
        0xd4d1c6f87c839d87caf2b8bc11f915bc,
        0x6d88a37a110b3efddbf98641ca0093fd,
        0x4e54f70e5f5fc9f384a64fb24ea6dc4f,
        0xead27321b58dbad2312bf5607f8d292f,
        0xac7766f319fadc2128d12941575c006e,
        0xd014f9a8c9ee2589e13f0cc8b6630ca6,
    ];

    let first = sisd::key_expansion(KEY);
    let second = sisd::key_expansion(KEY);

    assert_eq!(first, second, "[ERROR]: The two implementation produce different results");
    assert_eq!(
        first, EXPECTED,
        "[ERROR]: Both implementations produce the same result but differ from the expected result"
    );
}

#[test]
fn test_cipher() {
    const KEY: u128 = 0x2b7e151628aed2a6abf7158809cf4f3c;
    const INPUT: u128 = 0x6bc1bee22e409f96e93d7e117393172a;
    const EXPECTED: u128 = 0x3ad77bb40d7a3660a89ecaf32466ef97;

    let first = {
        let rks = sisd::key_expansion(KEY);
        sisd::cipher(INPUT, &rks)
    };

    let second = {
        let rks = sisd::key_expansion(KEY);
        sisd::cipher(INPUT, &rks[..])
    };

    assert_eq!(first, second, "[ERROR]: The two implementation produce different results");
    assert_eq!(
        first, EXPECTED,
        "[ERROR]: Both implementations produce the same result but differ from the expected result"
    );
}

#[test]
fn test_aes_block_par() {
    // In the order of the buffer
    {
        let mut input = PLAINTEXT.to_vec();

        let mut blocks = AesBlock::decompose(&mut input, &KEY, Some(IV));

        blocks.iter_mut().for_each(|b| b.encrypt());

        assert_eq!(&input[..], &CIPHERTEXT[..]);
    }

    // Each block as a task of its own, the tasks taken in another order
    {
        let mut input = PLAINTEXT.to_vec();

        let blocks = AesBlock::decompose(&mut input, &KEY, Some(IV));

        let mut tasks: Vec<Box<dyn FnOnce() + '_>> = Vec::new();
        for mut b in blocks {
            tasks.push(Box::new(move || {
                b.encrypt();
            }));
        }
        tasks.swap(0, 3);
        tasks.swap(1, 2);
        for task in tasks {
            task();
        }

        assert_eq!(&input[..], &CIPHERTEXT[..]);
    }
}
