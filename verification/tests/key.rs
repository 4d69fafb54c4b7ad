use hls_playlist::key::{decrypt_aes_128, decrypt_aes_256_gcm, encrypt_aes_128, encrypt_aes_256_gcm};

#[test]
fn test_encrypt_decrypt_aes_128() {
    let plain_text = b"Hello, World!";
    let key = [0x42; 16];
    let iv = [0x24; 16];

    let cipher_text = encrypt_aes_128(plain_text, &key, &iv).unwrap();
    let decrypted_text = decrypt_aes_128(&cipher_text, &key, &iv).unwrap();

    assert_eq!(plain_text, decrypted_text.as_slice());
}

#[test]
fn test_encrypt_decrypt_aes_128_with_cipher_check() {
    let key = [0x42; 16];
    let iv = [0x24; 16];
    let plaintext = *b"hello world! this is my plaintext.";

    let ct: [u8; 48] = [
        0xc7, 0xfe, 0x24, 0x7e, 0xf9, 0x7b, 0x21, 0xf0, 0x7c, 0xbd, 0xd2, 0x6c, 0xb5, 0xd3, 0x46, 0xbf, 0xd2, 0x78,
        0x67, 0xcb, 0x00, 0xd9, 0x48, 0x67, 0x23, 0xe1, 0x59, 0x97, 0x8f, 0xb9, 0xa5, 0xf9, 0x14, 0xcf, 0xb2, 0x28,
        0xa7, 0x10, 0xde, 0x41, 0x71, 0xe3, 0x96, 0xe7, 0xb6, 0xcf, 0x85, 0x9e,
    ];

    let cipher_text = encrypt_aes_128(&plaintext, &key, &iv).unwrap();

    assert_eq!(cipher_text, &ct[..]);
    let decrypted_text = decrypt_aes_128(&cipher_text, &key, &iv).unwrap();

    assert_eq!(plaintext, decrypted_text.as_slice());
}

#[test]
fn test_aes_256_gcm() {
    let plain_text = b"Hello, World!";
    let key = [0x42; 32];
    let nonce = [0x24; 16];

    let cipher_text = encrypt_aes_256_gcm(plain_text, &key, &nonce).unwrap();
    let decrypted_text = decrypt_aes_256_gcm(&cipher_text, &key).unwrap();

    assert_eq!(plain_text, decrypted_text.as_slice());
}
