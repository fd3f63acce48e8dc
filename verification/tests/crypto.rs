use goodix_info::crypto::{decrypt_image, CryptoError, ImageSession, AES_KEY_LEN};

#[test]
fn image_key_is_second_half_of_d2_material() {
    let session = ImageSession::from_material(
        [
            0x00, 0x01, 0x02, 0x03, 0x04, 0x05, 0x06, 0x07, 0x08, 0x09, 0x0a, 0x0b, 0x0c, 0x0d,
            0x0e, 0x0f, 0x10, 0x11, 0x12, 0x13, 0x14, 0x15, 0x16, 0x17, 0x18, 0x19, 0x1a, 0x1b,
            0x1c, 0x1d, 0x1e, 0x1f,
        ],
    );

    assert_eq!(
        session.image_key(),
        [
            0x10, 0x11, 0x12, 0x13, 0x14, 0x15, 0x16, 0x17, 0x18, 0x19, 0x1a, 0x1b, 0x1c, 0x1d,
            0x1e, 0x1f,
        ]
    );
}

#[test]
fn decrypts_aes128_cbc_with_zero_iv_and_no_padding() {
    let key = [
        0x2b, 0x7e, 0x15, 0x16, 0x28, 0xae, 0xd2, 0xa6, 0xab, 0xf7, 0x15, 0x88, 0x09, 0xcf,
        0x4f, 0x3c,
    ];

    let ciphertext = [
        0x3a, 0xd7, 0x7b, 0xb4, 0x0d, 0x7a, 0x36, 0x60, 0xa8, 0x9e, 0xca, 0xf3, 0x24, 0x66,
        0xef, 0x97,
    ];

    let plaintext = decrypt_image(&ciphertext, &key).unwrap();

    assert_eq!(
        plaintext,
        [
            0x6b, 0xc1, 0xbe, 0xe2, 0x2e, 0x40, 0x9f, 0x96, 0xe9, 0x3d, 0x7e, 0x11, 0x73, 0x93,
            0x17, 0x2a,
        ]
    );
}

#[test]
fn rejects_ciphertext_that_is_not_block_aligned() {
    let key = [0_u8; AES_KEY_LEN];
    let ciphertext = [0_u8; 17];

    assert_eq!(
        decrypt_image(&ciphertext, &key),
        Err(CryptoError::CiphertextNotBlockAligned {
            length: 17,
            block_size: 16,
        })
    );
}
