use polycrypt_rs::crypto::encryption::{
    decrypt, decrypt_text, encrypt, encrypt_text, encrypt_with_iv, frame_ciphertext,
    transform_text, Direction,
};
use polycrypt_rs::error::{ErrorKind, PolyCryptError};

fn counting_iv() -> [u8; 16] {
    [0, 1, 2, 3, 4, 5, 6, 7, 8, 9, 10, 11, 12, 13, 14, 15]
}

fn hello_block() -> Vec<u8> {
    vec![
        0x46, 0x9b, 0x09, 0xa4, 0xa1, 0x18, 0x2e, 0xeb, 0x7f, 0x78, 0x2a, 0x09, 0x5b, 0xaa, 0x83,
        0x19,
    ]
}

fn encrypt_with_any_key(plaintext: &[u8], key: &[u8]) -> Result<Vec<u8>, PolyCryptError> {
    if key.len() != 32 {
        return Err(PolyCryptError::InvalidKeyError(
            "Key must be 32 bytes long".to_string(),
        ));
    }
    let key_array: [u8; 32] = key.try_into().unwrap();
    encrypt(plaintext, &key_array)
}

#[test]
fn test_encrypt_decrypt() {
    let plaintext = b"Hello, world!";
    let key = [0u8; 32];

    let encrypted = encrypt(plaintext, &key).unwrap();
    assert_ne!(encrypted, plaintext);

    let decrypted = decrypt(&encrypted, &key).unwrap();
    assert_eq!(decrypted, plaintext);
}

#[test]
fn test_encryption_error() {
    let plaintext = b"Hello, world!";
    let mut key = [0u8; 32];
    key[..31].copy_from_slice(&[1u8; 31]);

    let result = encrypt_with_any_key(plaintext, &key[..31]);
    assert!(result.is_err());

    let result = encrypt_with_any_key(plaintext, &key);
    assert!(result.is_ok());
}

#[test]
fn test_decryption_error() {
    let invalid_ciphertext = vec![0u8; 15];
    let key = [0u8; 32];

    let result = decrypt(&invalid_ciphertext, &key);
    assert!(result.is_err());
}

#[test]
fn encrypt_with_iv_matches_known_vector() {
    let key = [0u8; 32];
    let iv = counting_iv();
    let buffer = encrypt_with_iv(b"Hello, world!", &key, &iv).unwrap();
    let mut expected = iv.to_vec();
    expected.extend_from_slice(&hello_block());
    assert_eq!(buffer, expected);
}

#[test]
fn encrypt_with_iv_of_empty_plaintext_is_one_padding_block() {
    let key = [0u8; 32];
    let iv = counting_iv();
    let buffer = encrypt_with_iv(b"", &key, &iv).unwrap();
    let block: Vec<u8> = vec![
        0x61, 0x00, 0x66, 0x66, 0x01, 0x0c, 0x43, 0x37, 0x9e, 0xde, 0x85, 0x04, 0x82, 0x13, 0x92,
        0x1f,
    ];
    assert_eq!(buffer.len(), 32);
    assert_eq!(&buffer[..16], &iv[..]);
    assert_eq!(&buffer[16..], &block[..]);
}

#[test]
fn encrypt_with_iv_of_whole_block_adds_padding_block() {
    let key = [0u8; 32];
    let iv = counting_iv();
    let buffer = encrypt_with_iv(b"0123456789abcdef", &key, &iv).unwrap();
    let blocks: Vec<u8> = vec![
        0xef, 0xc3, 0x87, 0xa1, 0x59, 0xcf, 0xa2, 0xf6, 0x2d, 0x64, 0x34, 0x4d, 0x7a, 0x1e, 0x3f,
        0x57, 0x6b, 0x13, 0xcf, 0x7a, 0xb6, 0x54, 0xf7, 0x15, 0xb8, 0x72, 0xbc, 0xc9, 0x20, 0xc0,
        0x95, 0xab,
    ];
    assert_eq!(buffer.len(), 48);
    assert_eq!(&buffer[16..], &blocks[..]);
}

#[test]
fn decrypt_recovers_known_vector() {
    let key = [0u8; 32];
    let mut buffer = counting_iv().to_vec();
    buffer.extend_from_slice(&hello_block());
    let plaintext = decrypt(&buffer, &key).unwrap();
    assert_eq!(plaintext, b"Hello, world!".to_vec());
}

#[test]
fn frame_ciphertext_puts_the_iv_before_the_body() {
    let framed = frame_ciphertext(&[9, 8, 7], &[1, 2]);
    assert_eq!(framed, vec![9, 8, 7, 1, 2]);
    let framed = frame_ciphertext(&[9, 8, 7], &[]);
    assert_eq!(framed, vec![9, 8, 7]);
}

#[test]
fn round_trip_holds_for_many_lengths() {
    let mut key = [0u8; 32];
    for (i, byte) in key.iter_mut().enumerate() {
        *byte = (i * 7 + 3) as u8;
    }
    for len in [0usize, 1, 15, 16, 17, 31, 32, 33, 100, 1000] {
        let plaintext: Vec<u8> = (0..len).map(|i| (i % 251) as u8).collect();
        let buffer = encrypt(&plaintext, &key).unwrap();
        let recovered = decrypt(&buffer, &key).unwrap();
        assert_eq!(recovered, plaintext);
    }
}

#[test]
fn ciphertext_length_is_iv_plus_padded_plaintext() {
    let key = [7u8; 32];
    let cases: [(usize, usize); 9] = [
        (0, 32),
        (1, 32),
        (13, 32),
        (15, 32),
        (16, 48),
        (17, 48),
        (31, 48),
        (32, 64),
        (100, 128),
    ];
    for (len, expected) in cases {
        let plaintext = vec![0x5au8; len];
        let buffer = encrypt(&plaintext, &key).unwrap();
        assert_eq!(buffer.len(), expected);
        assert_eq!(buffer.len(), 16 + 16 * ((len + 1 + 15) / 16));
        assert_eq!(buffer.len() % 16, 0);
    }
}

#[test]
fn two_encryptions_differ_and_both_decrypt() {
    let key = [3u8; 32];
    let plaintext = b"the same plaintext twice";
    let first = encrypt(plaintext, &key).unwrap();
    let second = encrypt(plaintext, &key).unwrap();
    assert_ne!(first, second);
    assert_ne!(&first[..16], &second[..16]);
    assert_eq!(decrypt(&first, &key).unwrap(), plaintext.to_vec());
    assert_eq!(decrypt(&second, &key).unwrap(), plaintext.to_vec());
}

#[test]
fn distinct_ivs_give_distinct_buffers() {
    let key = [0u8; 32];
    let first = encrypt_with_iv(b"secret", &key, &counting_iv()).unwrap();
    let second = encrypt_with_iv(b"secret", &key, &[0xffu8; 16]).unwrap();
    assert_ne!(first, second);
    assert_eq!(decrypt(&first, &key).unwrap(), b"secret".to_vec());
    assert_eq!(decrypt(&second, &key).unwrap(), b"secret".to_vec());
}

#[test]
fn every_buffer_shorter_than_an_iv_is_rejected() {
    let key = [0u8; 32];
    for len in 0usize..16 {
        let buffer = vec![0xabu8; len];
        match decrypt(&buffer, &key) {
            Err(PolyCryptError::DecryptionError(message)) => {
                assert_eq!(message, "Ciphertext too short");
            }
            other => panic!("expected a decryption error, got {:?}", other),
        }
    }
}

#[test]
fn buffer_of_an_iv_alone_is_rejected() {
    let key = [0u8; 32];
    let result = decrypt(&[0u8; 16], &key);
    assert!(matches!(result, Err(PolyCryptError::DecryptionError(_))));
}

#[test]
fn truncated_buffer_is_rejected() {
    let key = [0u8; 32];
    let buffer = encrypt(b"Hello, world!", &key).unwrap();
    let result = decrypt(&buffer[..buffer.len() - 1], &key);
    assert!(matches!(result, Err(PolyCryptError::DecryptionError(_))));
    assert_eq!(result.unwrap_err().kind(), ErrorKind::Decryption);
}

#[test]
fn wrong_key_does_not_recover_the_plaintext() {
    let key = [0u8; 32];
    let other = [1u8; 32];
    let plaintext = b"Hello, world!".to_vec();
    let buffer = encrypt(&plaintext, &key).unwrap();
    match decrypt(&buffer, &other) {
        Ok(garbage) => assert_ne!(garbage, plaintext),
        Err(e) => assert_eq!(e.kind(), ErrorKind::Decryption),
    }
}

#[test]
fn encrypt_text_gives_base64_of_a_ciphertext_buffer() {
    let key = [0u8; 32];
    let out = encrypt_text("secret", &key).unwrap();
    assert_eq!(out.len(), 44);
    let buffer = base64::decode(&out).unwrap();
    assert_eq!(buffer.len(), 32);
    assert_eq!(decrypt(&buffer, &key).unwrap(), b"secret".to_vec());
    assert_eq!(base64::encode(&buffer), out);
}

#[test]
fn decrypt_text_recovers_known_vector() {
    let key = [0u8; 32];
    let out = decrypt_text("AAECAwQFBgcICQoLDA0OD/ZEvxLq1vkptvLd8Gy12SU=", &key).unwrap();
    assert_eq!(out, "secret");
    let out = decrypt_text("AAECAwQFBgcICQoLDA0OD0abCaShGC7rf3gqCVuqgxk=", &key).unwrap();
    assert_eq!(out, "Hello, world!");
}

#[test]
fn decrypt_text_rejects_text_that_is_not_base64() {
    let key = [0u8; 32];
    let result = decrypt_text("not base64 at all!", &key);
    assert!(matches!(
        result,
        Err(PolyCryptError::Base64DecodeError(_))
    ));
    assert_eq!(result.unwrap_err().kind(), ErrorKind::Base64Decode);
}

#[test]
fn decrypt_text_rejects_a_buffer_that_is_too_short() {
    let key = [0u8; 32];
    let result = decrypt_text("AAECAw==", &key);
    assert!(matches!(result, Err(PolyCryptError::DecryptionError(_))));
}

#[test]
fn decrypt_text_rejects_plaintext_that_is_not_utf8() {
    let key = [0u8; 32];
    let result = decrypt_text("AAECAwQFBgcICQoLDA0OD/9MaaOfomipKmNRgZr8qYA=", &key);
    assert!(matches!(result, Err(PolyCryptError::Utf8Error(_))));
    assert_eq!(result.unwrap_err().kind(), ErrorKind::Utf8);
}

#[test]
fn text_round_trip_keeps_text_beyond_ascii() {
    let key = [9u8; 32];
    let text = "gr\u{fc}\u{df}e \u{2014} \u{65e5}\u{672c}\u{8a9e} \u{1f512}";
    let out = transform_text(text, &key, Direction::Encrypt).unwrap();
    assert_ne!(out, text);
    let back = transform_text(&out, &key, Direction::Decrypt).unwrap();
    assert_eq!(back, text);
}

#[test]
fn error_kinds_name_their_variants() {
    let text = "x".to_string();
    assert_eq!(
        PolyCryptError::EncryptionError(text.clone()).kind(),
        ErrorKind::Encryption
    );
    assert_eq!(
        PolyCryptError::DecryptionError(text.clone()).kind(),
        ErrorKind::Decryption
    );
    assert_eq!(
        PolyCryptError::InvalidKeyError(text.clone()).kind(),
        ErrorKind::InvalidKey
    );
    assert_eq!(
        PolyCryptError::InvalidFieldTypeError(text.clone()).kind(),
        ErrorKind::InvalidFieldType
    );
    assert_eq!(
        PolyCryptError::ParseError(text.clone()).kind(),
        ErrorKind::Parse
    );
    assert_eq!(PolyCryptError::IoError(text.clone()).kind(), ErrorKind::Io);
    assert_eq!(
        PolyCryptError::UnknownError(text).kind(),
        ErrorKind::Unknown
    );
}

#[test]
fn describe_puts_the_label_before_the_message() {
    assert_eq!(
        PolyCryptError::EncryptionError("boom".to_string()).describe(),
        "Encryption error: boom"
    );
    assert_eq!(
        PolyCryptError::DecryptionError("Ciphertext too short".to_string()).describe(),
        "Decryption error: Ciphertext too short"
    );
    assert_eq!(
        PolyCryptError::InvalidKeyError("Key must be 32 bytes long".to_string()).describe(),
        "Invalid key: Key must be 32 bytes long"
    );
    assert_eq!(
        PolyCryptError::InvalidFieldTypeError("x".to_string()).describe(),
        "Invalid field type: x"
    );
    assert_eq!(
        PolyCryptError::ParseError("x".to_string()).describe(),
        "Parse error: x"
    );
    assert_eq!(PolyCryptError::IoError("x".to_string()).describe(), "IO error: x");
    assert_eq!(
        PolyCryptError::UnknownError("".to_string()).describe(),
        "Unknown error: "
    );
    let key = [0u8; 32];
    let not_base64 = decrypt_text("***", &key).unwrap_err();
    assert!(not_base64.describe().starts_with("Base64 decode error: "));
    let not_utf8 = decrypt_text("AAECAwQFBgcICQoLDA0OD/9MaaOfomipKmNRgZr8qYA=", &key).unwrap_err();
    assert!(not_utf8.describe().starts_with("UTF-8 conversion error: "));
    let bad_padding = decrypt(&[0u8; 16], &key).unwrap_err();
    assert_eq!(bad_padding.describe(), "Decryption error: Unpad Error");
}
