use polycrypt_rs::bindings::ffi;
use polycrypt_rs::bindings::ffi::{ByteArray, FFIResult};
use polycrypt_rs::crypto::encryption::Direction;
use polycrypt_rs::error::{ErrorKind, PolyCryptError};
use polycrypt_rs::interchange::parse_value;

const RECORD: &str = "{\"id\":\"1234\",\"name\":\"John Doe\",\"sensitive_data\":\"This is sensitive information\",\"array_field\":[\"item1\",\"item2\",\"item3\"]}";
const FIELDS: &str = "[\"sensitive_data\",\"array_field\"]";

fn assert_failure(result: &FFIResult) {
    assert_eq!(result.error_code, -1);
    assert_eq!(result.data.len, 0);
    assert!(result.data.data.is_none());
}

#[test]
fn test_ffi_encrypt_decrypt() {
    let plaintext = b"Hello, world!";
    let key = [0u8; 32];

    let encrypted = ffi::encrypt(plaintext, &key);
    assert_eq!(encrypted.error_code, 0);
    assert_ne!(encrypted.data.len, 0);
    assert!(encrypted.data.data.is_some());

    let decrypted = ffi::decrypt(encrypted.data.data.as_ref().unwrap(), &key);
    assert_eq!(decrypted.error_code, 0);
    assert_ne!(decrypted.data.len, 0);
    assert!(decrypted.data.data.is_some());

    let decrypted_text = decrypted.data.data.as_ref().unwrap();
    assert_eq!(decrypted_text.len(), decrypted.data.len);
    assert_eq!(&decrypted_text[..], plaintext);

    ffi::free_ffi_result(encrypted);
    ffi::free_ffi_result(decrypted);
}

#[test]
fn test_ffi_encrypt_decrypt_fields() {
    let key = [0u8; 32];

    let encrypted = ffi::encrypt_fields(RECORD.as_bytes(), FIELDS.as_bytes(), &key);
    assert_eq!(encrypted.error_code, 0);
    assert_ne!(encrypted.data.len, 0);
    assert!(encrypted.data.data.is_some());

    let decrypted = ffi::decrypt_fields(
        encrypted.data.data.as_ref().unwrap(),
        FIELDS.as_bytes(),
        &key,
    );
    assert_eq!(decrypted.error_code, 0);
    assert_ne!(decrypted.data.len, 0);
    assert!(decrypted.data.data.is_some());

    let given_json = parse_value(RECORD.as_bytes()).unwrap();
    let decrypted_json = parse_value(decrypted.data.data.as_ref().unwrap()).unwrap();
    assert_eq!(given_json, decrypted_json);

    ffi::free_ffi_result(encrypted);
    ffi::free_ffi_result(decrypted);
}

#[test]
fn test_ffi_encrypt_decrypt_fields_in_batch() {
    let key = [0u8; 32];
    let records = "[
        {\"id\":\"1234\",\"name\":\"John Doe\",\"sensitive_data\":\"This is sensitive information\",\"array_field\":[\"item1\",\"item2\",\"item3\"]},
        {\"id\":\"5678\",\"name\":\"Jane Smith\",\"sensitive_data\":\"Another piece of sensitive data\",\"array_field\":[\"item4\",\"item5\",\"item6\"]}
    ]";

    let encrypted = ffi::encrypt_fields_in_batch(records.as_bytes(), FIELDS.as_bytes(), &key);
    assert_eq!(encrypted.error_code, 0);
    assert_ne!(encrypted.data.len, 0);
    assert!(encrypted.data.data.is_some());

    let decrypted = ffi::decrypt_fields_in_batch(
        encrypted.data.data.as_ref().unwrap(),
        FIELDS.as_bytes(),
        &key,
    );
    assert_eq!(decrypted.error_code, 0);
    assert_ne!(decrypted.data.len, 0);
    assert!(decrypted.data.data.is_some());

    let given_json = parse_value(records.as_bytes()).unwrap();
    let decrypted_json = parse_value(decrypted.data.data.as_ref().unwrap()).unwrap();
    assert_eq!(given_json, decrypted_json);

    ffi::free_ffi_result(encrypted);
    ffi::free_ffi_result(decrypted);
}

#[test]
fn to_byte_array_hands_the_vector_over() {
    let array = ffi::to_byte_array(vec![1, 2, 3]);
    assert_eq!(array.len, 3);
    assert_eq!(array.data, Some(vec![1, 2, 3]));
    let empty = ffi::to_byte_array(Vec::new());
    assert_eq!(empty.len, 0);
    assert_eq!(empty.data, Some(Vec::new()));
}

#[test]
fn to_ffi_result_maps_success_to_status_zero() {
    let result = ffi::to_ffi_result(Ok(vec![4, 5]));
    assert_eq!(result.error_code, 0);
    assert_eq!(result.data.len, 2);
    assert_eq!(result.data.data, Some(vec![4, 5]));
}

#[test]
fn to_ffi_result_maps_every_failure_to_the_same_status() {
    let failures = vec![
        PolyCryptError::EncryptionError("a".to_string()),
        PolyCryptError::DecryptionError("b".to_string()),
        PolyCryptError::InvalidKeyError("c".to_string()),
        PolyCryptError::InvalidFieldTypeError("d".to_string()),
        PolyCryptError::ParseError("e".to_string()),
        PolyCryptError::UnknownError("f".to_string()),
    ];
    for failure in failures {
        assert_failure(&ffi::to_ffi_result(Err(failure)));
    }
    assert_failure(&FFIResult::failure());
}

#[test]
fn validate_key_takes_exactly_32_bytes() {
    let key: Vec<u8> = (0u8..32).collect();
    let array = ffi::validate_key(&key).unwrap();
    assert_eq!(&array[..], &key[..]);
    for len in [0usize, 1, 16, 31, 33, 64] {
        match ffi::validate_key(&vec![0u8; len]) {
            Err(failure) => assert_failure(&failure),
            Ok(_) => panic!("a key of {} bytes was accepted", len),
        }
    }
}

#[test]
fn checked_key_reports_an_invalid_key() {
    let result = ffi::checked_key(&[0u8; 31]);
    match result {
        Err(PolyCryptError::InvalidKeyError(message)) => {
            assert_eq!(message, "Key must be 32 bytes long");
        }
        other => panic!("expected an invalid key, got {:?}", other),
    }
    assert_eq!(ffi::checked_key(&[7u8; 32]).unwrap(), [7u8; 32]);
}

#[test]
fn key_of_wrong_length_fails_every_call() {
    let key = [0u8; 31];
    assert_failure(&ffi::encrypt(b"x", &key));
    assert_failure(&ffi::decrypt(&[0u8; 32], &key));
    assert_failure(&ffi::encrypt_fields(RECORD.as_bytes(), FIELDS.as_bytes(), &key));
    assert_failure(&ffi::decrypt_fields(RECORD.as_bytes(), FIELDS.as_bytes(), &key));
    assert_failure(&ffi::encrypt_fields_in_batch(b"[]", FIELDS.as_bytes(), &key));
    assert_failure(&ffi::decrypt_fields_in_batch(b"[]", FIELDS.as_bytes(), &key));
    assert_eq!(
        ffi::try_encrypt(b"x", &key).unwrap_err().kind(),
        ErrorKind::InvalidKey
    );
    assert_eq!(
        ffi::try_decrypt(&[0u8; 32], &key).unwrap_err().kind(),
        ErrorKind::InvalidKey
    );
}

#[test]
fn key_is_checked_before_the_text_is_parsed() {
    let key = [0u8; 5];
    let result = ffi::transform_record_text(b"not json", b"not json", &key, Direction::Encrypt);
    assert_eq!(result.unwrap_err().kind(), ErrorKind::InvalidKey);
    let result = ffi::transform_batch_text(b"not json", b"not json", &key, Direction::Encrypt);
    assert_eq!(result.unwrap_err().kind(), ErrorKind::InvalidKey);
}

#[test]
fn malformed_record_text_is_a_parse_error() {
    let key = [0u8; 32];
    let result = ffi::transform_record_text(b"{\"a\":", FIELDS.as_bytes(), &key, Direction::Encrypt);
    assert!(matches!(result, Err(PolyCryptError::ParseError(_))));
    assert_failure(&ffi::encrypt_fields(b"{\"a\":", FIELDS.as_bytes(), &key));
    assert_failure(&ffi::decrypt_fields(b"\xff", FIELDS.as_bytes(), &key));
}

#[test]
fn malformed_field_list_is_a_parse_error() {
    let key = [0u8; 32];
    for bad in [&b"[\"a\""[..], &b"\"a\""[..], &b"[1]"[..], &b"{}"[..]] {
        let result = ffi::transform_record_text(RECORD.as_bytes(), bad, &key, Direction::Encrypt);
        assert!(matches!(result, Err(PolyCryptError::ParseError(_))));
        assert_failure(&ffi::encrypt_fields(RECORD.as_bytes(), bad, &key));
    }
    assert!(matches!(
        ffi::parse_field_names(b"[\"a\",2]"),
        Err(PolyCryptError::ParseError(_))
    ));
    assert_eq!(
        ffi::parse_field_names(b"[\"a\",\"b\"]").unwrap(),
        vec!["a".to_string(), "b".to_string()]
    );
}

#[test]
fn batch_text_must_be_a_sequence() {
    let key = [0u8; 32];
    let result = ffi::transform_batch_text(RECORD.as_bytes(), FIELDS.as_bytes(), &key, Direction::Encrypt);
    assert!(matches!(result, Err(PolyCryptError::ParseError(_))));
    assert!(matches!(
        ffi::parse_records(b"{}"),
        Err(PolyCryptError::ParseError(_))
    ));
    assert_eq!(ffi::parse_records(b"[{},{}]").unwrap().len(), 2);
}

#[test]
fn decrypt_of_a_short_buffer_fails_at_the_boundary() {
    let key = [0u8; 32];
    assert_failure(&ffi::decrypt(&[0u8; 15], &key));
    assert_eq!(
        ffi::try_decrypt(&[0u8; 15], &key).unwrap_err().kind(),
        ErrorKind::Decryption
    );
}

#[test]
fn decrypt_fields_with_known_vector_gives_exact_text() {
    let key = [0u8; 32];
    let record = "{\"id\":\"1\",\"note\":\"AAECAwQFBgcICQoLDA0OD/ZEvxLq1vkptvLd8Gy12SU=\"}";
    let result = ffi::decrypt_fields(record.as_bytes(), b"[\"note\"]", &key);
    assert_eq!(result.error_code, 0);
    let expected = b"{\"id\":\"1\",\"note\":\"secret\"}".to_vec();
    assert_eq!(result.data.len, expected.len());
    assert_eq!(result.data.data, Some(expected));
}

#[test]
fn invalid_field_type_fails_at_the_boundary() {
    let key = [0u8; 32];
    let record = b"{\"id\":\"1\",\"count\":3}";
    let result = ffi::transform_record_text(record, b"[\"count\"]", &key, Direction::Encrypt);
    assert!(matches!(
        result,
        Err(PolyCryptError::InvalidFieldTypeError(_))
    ));
    assert_failure(&ffi::encrypt_fields(record, b"[\"count\"]", &key));
}

#[test]
fn batch_with_an_invalid_second_record_returns_no_buffer() {
    let key = [0u8; 32];
    let records = b"[{\"s\":\"one\"},{\"s\":2},{\"s\":\"three\"}]";
    let result = ffi::encrypt_fields_in_batch(records, b"[\"s\"]", &key);
    assert_failure(&result);
    let typed = ffi::transform_batch_text(records, b"[\"s\"]", &key, Direction::Encrypt);
    assert_eq!(typed.unwrap_err().kind(), ErrorKind::InvalidFieldType);
}

#[test]
fn missing_field_at_the_boundary_returns_the_record() {
    let key = [0u8; 32];
    let record = b"{\"a\":\"b\",\"c\":[1,2]}";
    let result = ffi::encrypt_fields(record, b"[\"absent\"]", &key);
    assert_eq!(result.error_code, 0);
    assert_eq!(result.data.data, Some(record.to_vec()));
}

#[test]
fn released_buffers_are_consumed() {
    let key = [0u8; 32];
    let result = ffi::encrypt(b"x", &key);
    assert_eq!(result.error_code, 0);
    ffi::free_ffi_result(result);
    let failure = ffi::encrypt(b"x", &[0u8; 3]);
    ffi::free_ffi_result(failure);
    ffi::free_byte_array(ffi::to_byte_array(vec![1, 2, 3]));
    ffi::free_byte_array(ByteArray { data: None, len: 0 });
}

#[test]
fn root_exports_reach_the_boundary_calls() {
    let key = [0u8; 32];
    let encrypted: polycrypt_rs::FFIResult = polycrypt_rs::encrypt(b"abc", &key);
    let decrypted = polycrypt_rs::decrypt(encrypted.data.data.as_ref().unwrap(), &key);
    assert_eq!(decrypted.data.data, Some(b"abc".to_vec()));
    let array: polycrypt_rs::ByteArray = decrypted.data;
    assert_eq!(array.len, 3);
    polycrypt_rs::free_ffi_result(encrypted);
}
