use polycrypt_rs::crypto::encryption;
use polycrypt_rs::record::JsonValue;
use polycrypt_rs::PolyCryptError;

fn text(s: &str) -> JsonValue {
    JsonValue::String(s.to_string())
}

fn encrypt_with_slice_key(plaintext: &[u8], key: &[u8]) -> Result<Vec<u8>, PolyCryptError> {
    if key.len() != 32 {
        return Err(PolyCryptError::InvalidKeyError(
            "Key must be 32 bytes long".to_string(),
        ));
    }
    let key_array: [u8; 32] = key.try_into().unwrap();
    encryption::encrypt(plaintext, &key_array)
}

#[test]
fn test_encryption() {
    let plaintext = b"Hello, world!";
    let key = [0u8; 32];

    let encrypted = encryption::encrypt(plaintext, &key).unwrap();

    assert_ne!(encrypted, plaintext);
    assert!(encrypted.len() >= plaintext.len() + 16);
    assert_eq!(encrypted.len() % 16, 0);

    let decrypted = encryption::decrypt(&encrypted, &key).unwrap();
    assert_eq!(decrypted, plaintext);
}

#[test]
fn test_field_encryption() {
    let key = [0u8; 32];
    let record = JsonValue::Object(vec![
        ("id".to_string(), text("1234")),
        ("name".to_string(), text("John Doe")),
        (
            "sensitive_data".to_string(),
            text("This is sensitive information"),
        ),
        (
            "array_field".to_string(),
            JsonValue::Array(vec![text("item1"), text("item2"), text("item3")]),
        ),
    ]);
    let fields_to_encrypt = vec!["sensitive_data".to_string(), "array_field".to_string()];

    let encrypted_record = encryption::encrypt_fields(&record, &fields_to_encrypt, &key).unwrap();

    assert_ne!(
        encrypted_record.get("sensitive_data"),
        record.get("sensitive_data")
    );
    assert_ne!(
        encrypted_record.get("array_field"),
        record.get("array_field")
    );

    assert_eq!(encrypted_record.get("id"), record.get("id"));
    assert_eq!(encrypted_record.get("name"), record.get("name"));

    let decrypted_record =
        encryption::decrypt_fields(&encrypted_record, &fields_to_encrypt, &key).unwrap();
    assert_eq!(decrypted_record, record);
}

#[test]
fn test_encryption_error_handling() {
    let plaintext = b"Hello, world!";
    let mut key = [0u8; 32];
    key[..31].copy_from_slice(&[1u8; 31]);

    let result = encrypt_with_slice_key(plaintext, &key[..31]);
    assert!(result.is_err());

    let result = encrypt_with_slice_key(plaintext, &key);
    assert!(result.is_ok());
}
