use crate::crypto::encryption;
use crate::crypto::encryption::{
    batch_failure, batch_result, fits_cipher, is_ciphertext_of, opened, record_failure,
    record_result, Direction,
};
use crate::crypto::primitives::KEY_SIZE;
use crate::error::{ErrorKind, PolyCryptError};
use crate::interchange::{
    as_texts, field_names_from, json_parse, json_text, parse_value, records_from, write_value,
};
use crate::record::{item_views, names_of, JsonValue, JsonView};
use vstd::prelude::*;

verus! {

/// A byte buffer that the engine hands to its caller, or the null buffer.
/// The buffer has one owner: it is moved, never copied, and released by
/// being consumed.
#[derive(Debug)]
pub struct ByteArray {
    pub data: Option<Vec<u8>>,
    pub len: usize,
}

/// What every boundary call returns: a buffer that the caller now owns and
/// status 0, or the null buffer and a nonzero status.
#[derive(Debug)]
pub struct FFIResult {
    pub data: ByteArray,
    pub error_code: i32,
}

impl ByteArray {
    /// The null buffer.
    pub open spec fn is_null(&self) -> bool {
        self.data is None && self.len == 0
    }

    /// This is a buffer that holds exactly `bytes`.
    pub open spec fn holds(&self, bytes: Seq<u8>) -> bool {
        self.data matches Some(buffer) && buffer@ == bytes && self.len == bytes.len()
    }

    /// The length recorded is that of the buffer held.
    pub open spec fn wf(&self) -> bool {
        match self.data {
            Some(buffer) => self.len == buffer@.len(),
            None => self.len == 0,
        }
    }
}

impl FFIResult {
    /// A failure: the null buffer and status -1.
    pub open spec fn is_failure(&self) -> bool {
        self.error_code == -1 && self.data.is_null()
    }

    /// A success that carries exactly `bytes`.
    pub open spec fn carries(&self, bytes: Seq<u8>) -> bool {
        self.error_code == 0 && self.data.holds(bytes)
    }

    /// Status 0 goes with a buffer, and any other status with the null
    /// buffer.
    pub open spec fn wf(&self) -> bool {
        self.data.wf() && (self.error_code == 0 <==> self.data.data is Some)
    }

    /// The result of a call that failed.
    pub fn failure() -> (r: FFIResult)
        ensures
            r.is_failure(),
            r.wf(),
    {
        FFIResult { data: ByteArray { data: None, len: 0 }, error_code: -1 }
    }
}

/// Hands a vector over as an owned buffer.
pub fn to_byte_array(vec: Vec<u8>) -> (array: ByteArray)
    ensures
        array.holds(vec@),
        array.data == Some(vec),
        array.wf(),
{
    let len = vec.len();
    ByteArray { data: Some(vec), len }
}

/// Turns the outcome of an in-process call into what crosses the boundary:
/// the output as an owned buffer with status 0, or the null buffer with
/// status -1 whatever the failure was.
pub fn to_ffi_result(result: Result<Vec<u8>, PolyCryptError>) -> (r: FFIResult)
    ensures
        r.wf(),
        match result {
            Ok(data) => r.carries(data@),
            Err(_) => r.is_failure(),
        },
{
    match result {
        Ok(data) => FFIResult { data: to_byte_array(data), error_code: 0 },
        Err(_) => FFIResult::failure(),
    }
}

/// Checks that a key buffer is exactly 32 bytes long and returns it as a key.
pub fn checked_key(key: &[u8]) -> (r: Result<[u8; 32], PolyCryptError>)
    ensures
        match r {
            Ok(array) => key@.len() == 32 && array@ == key@,
            Err(e) => key@.len() != 32 && e.kind() == ErrorKind::InvalidKey,
        },
{
    if key.len() != KEY_SIZE {
        return Err(PolyCryptError::InvalidKeyError("Key must be 32 bytes long".to_string()));
    }
    let mut array = [0u8; 32];
    let mut i: usize = 0;
    while i < 32
        invariant
            i <= 32,
            key@.len() == 32,
            forall|k: int| 0 <= k < i ==> array@[k] == key@[k],
        decreases 32 - i,
    {
        array[i] = key[i];
        i += 1;
    }
    assert(array@ =~= key@);
    Ok(array)
}

/// Checks that a key buffer is exactly 32 bytes long; where it is not, the
/// failure is already in the form that crosses the boundary.
pub fn validate_key(key: &[u8]) -> (r: Result<[u8; 32], FFIResult>)
    ensures
        match r {
            Ok(array) => key@.len() == 32 && array@ == key@,
            Err(failure) => key@.len() != 32 && failure.is_failure() && failure.wf(),
        },
{
    match checked_key(key) {
        Ok(array) => Ok(array),
        Err(_) => Err(FFIResult::failure()),
    }
}

/// Validates the key, then encrypts `plaintext` with a fresh IV.
pub fn try_encrypt(plaintext: &[u8], key: &[u8]) -> (r: Result<Vec<u8>, PolyCryptError>)
    ensures
        match r {
            Ok(buffer) => {
                &&& key@.len() == 32
                &&& fits_cipher(plaintext@.len())
                &&& is_ciphertext_of(buffer@, key@, plaintext@)
            },
            Err(e) => if key@.len() != 32 {
                e.kind() == ErrorKind::InvalidKey
            } else {
                !fits_cipher(plaintext@.len()) && e.kind() == ErrorKind::Encryption
            },
        },
{
    let key_array = match checked_key(key) {
        Ok(array) => array,
        Err(e) => {
            return Err(e);
        },
    };
    encryption::encrypt(plaintext, &key_array)
}

/// Validates the key, then decrypts `ciphertext`.
pub fn try_decrypt(ciphertext: &[u8], key: &[u8]) -> (r: Result<Vec<u8>, PolyCryptError>)
    ensures
        match r {
            Ok(plaintext) => key@.len() == 32 && opened(ciphertext@, key@) == Some(plaintext@),
            Err(e) => if key@.len() != 32 {
                e.kind() == ErrorKind::InvalidKey
            } else {
                opened(ciphertext@, key@) is None && e.kind() == ErrorKind::Decryption
            },
        },
{
    let key_array = match checked_key(key) {
        Ok(array) => array,
        Err(e) => {
            return Err(e);
        },
    };
    encryption::decrypt(ciphertext, &key_array)
}

/// The field names that a field list in interchange text holds, if it is a
/// well-formed sequence of strings.
pub open spec fn parsed_names(fields_text: Seq<u8>) -> Option<Seq<Seq<char>>> {
    match json_parse(fields_text) {
        Some(value) => as_texts(value),
        None => None,
    }
}

/// The class of failure with which a request on one record is turned down
/// before anything is serialized: a key of the wrong length, then a record
/// that does not parse, then a field list that does not, then the failure of
/// the transform itself.
pub open spec fn record_request_failure(
    dir: Direction,
    key: Seq<u8>,
    record_text: Seq<u8>,
    fields_text: Seq<u8>,
) -> Option<ErrorKind> {
    if key.len() != 32 {
        Some(ErrorKind::InvalidKey)
    } else {
        match (json_parse(record_text), parsed_names(fields_text)) {
            (Some(record), Some(names)) => record_failure(dir, key, record, names),
            _ => Some(ErrorKind::Parse),
        }
    }
}

/// A transform of the record in `record_text` exists for which the
/// serializer gives `reply`.
pub open spec fn record_reply(
    dir: Direction,
    key: Seq<u8>,
    record_text: Seq<u8>,
    fields_text: Seq<u8>,
    reply: Option<Seq<u8>>,
) -> bool {
    match (json_parse(record_text), parsed_names(fields_text)) {
        (Some(record), Some(names)) => exists|out: JsonView|
            #[trigger] record_result(dir, key, record, names, out) && json_text(out) == reply,
        _ => false,
    }
}

/// Serves a request on one record: validates the key, parses the record and
/// the field list, transforms the record and serializes the outcome.
pub fn transform_record_text(
    record_text: &[u8],
    fields_text: &[u8],
    key: &[u8],
    dir: Direction,
) -> (r: Result<Vec<u8>, PolyCryptError>)
    ensures
        match r {
            Ok(reply) => {
                &&& record_request_failure(dir, key@, record_text@, fields_text@) is None
                &&& record_reply(dir, key@, record_text@, fields_text@, Some(reply@))
            },
            Err(e) => {
                ||| record_request_failure(dir, key@, record_text@, fields_text@) == Some(e.kind())
                ||| {
                    &&& record_request_failure(dir, key@, record_text@, fields_text@) is None
                    &&& record_reply(dir, key@, record_text@, fields_text@, None)
                    &&& e.kind() == ErrorKind::Unknown
                }
            },
        },
{
    let key_array = match checked_key(key) {
        Ok(array) => array,
        Err(e) => {
            return Err(e);
        },
    };
    let record = match parse_value(record_text) {
        Ok(record) => record,
        Err(e) => {
            return Err(e);
        },
    };
    let fields = match parse_field_names(fields_text) {
        Ok(fields) => fields,
        Err(e) => {
            return Err(e);
        },
    };
    let out = match encryption::transform_fields(&record, fields.as_slice(), &key_array, dir) {
        Ok(out) => out,
        Err(e) => {
            return Err(e);
        },
    };
    write_value(&out)
}

/// Reads a field list from interchange text: a sequence of strings.
pub fn parse_field_names(fields_text: &[u8]) -> (r: Result<Vec<String>, PolyCryptError>)
    ensures
        match r {
            Ok(fields) => parsed_names(fields_text@) == Some(names_of(fields@)),
            Err(e) => parsed_names(fields_text@) is None && e.kind() == ErrorKind::Parse,
        },
{
    let value = match parse_value(fields_text) {
        Ok(value) => value,
        Err(e) => {
            return Err(e);
        },
    };
    match field_names_from(&value) {
        Some(fields) => Ok(fields),
        None => Err(PolyCryptError::ParseError("Field list must be an array of strings".to_string())),
    }
}

/// The records that a batch in interchange text holds, if it is a
/// well-formed sequence.
pub open spec fn parsed_records(records_text: Seq<u8>) -> Option<Seq<JsonView>> {
    match json_parse(records_text) {
        Some(JsonView::Array(records)) => Some(records),
        _ => None,
    }
}

/// The class of failure with which a request on a batch is turned down
/// before anything is serialized, in the same order as for one record.
pub open spec fn batch_request_failure(
    dir: Direction,
    key: Seq<u8>,
    records_text: Seq<u8>,
    fields_text: Seq<u8>,
) -> Option<ErrorKind> {
    if key.len() != 32 {
        Some(ErrorKind::InvalidKey)
    } else {
        match (parsed_records(records_text), parsed_names(fields_text)) {
            (Some(records), Some(names)) => batch_failure(dir, key, records, names),
            _ => Some(ErrorKind::Parse),
        }
    }
}

/// A transform of the batch in `records_text` exists for which the
/// serializer gives `reply`.
pub open spec fn batch_reply(
    dir: Direction,
    key: Seq<u8>,
    records_text: Seq<u8>,
    fields_text: Seq<u8>,
    reply: Option<Seq<u8>>,
) -> bool {
    match (parsed_records(records_text), parsed_names(fields_text)) {
        (Some(records), Some(names)) => exists|outs: Seq<JsonView>|
            #[trigger] batch_result(dir, key, records, names, outs) && json_text(
                JsonView::Array(outs),
            ) == reply,
        _ => false,
    }
}

/// Reads a batch from interchange text: a sequence of records.
pub fn parse_records(records_text: &[u8]) -> (r: Result<Vec<JsonValue>, PolyCryptError>)
    ensures
        match r {
            Ok(records) => parsed_records(records_text@) == Some(item_views(records@)),
            Err(e) => parsed_records(records_text@) is None && e.kind() == ErrorKind::Parse,
        },
{
    let value = match parse_value(records_text) {
        Ok(value) => value,
        Err(e) => {
            return Err(e);
        },
    };
    match records_from(value) {
        Some(records) => Ok(records),
        None => Err(PolyCryptError::ParseError("Batch must be an array of records".to_string())),
    }
}

/// Serves a request on a batch: validates the key, parses the batch and the
/// field list, transforms the batch all or nothing and serializes the
/// outcome as one sequence.
pub fn transform_batch_text(
    records_text: &[u8],
    fields_text: &[u8],
    key: &[u8],
    dir: Direction,
) -> (r: Result<Vec<u8>, PolyCryptError>)
    ensures
        match r {
            Ok(reply) => {
                &&& batch_request_failure(dir, key@, records_text@, fields_text@) is None
                &&& batch_reply(dir, key@, records_text@, fields_text@, Some(reply@))
            },
            Err(e) => {
                ||| batch_request_failure(dir, key@, records_text@, fields_text@) == Some(e.kind())
                ||| {
                    &&& batch_request_failure(dir, key@, records_text@, fields_text@) is None
                    &&& batch_reply(dir, key@, records_text@, fields_text@, None)
                    &&& e.kind() == ErrorKind::Unknown
                }
            },
        },
{
    let key_array = match checked_key(key) {
        Ok(array) => array,
        Err(e) => {
            return Err(e);
        },
    };
    let records = match parse_records(records_text) {
        Ok(records) => records,
        Err(e) => {
            return Err(e);
        },
    };
    let fields = match parse_field_names(fields_text) {
        Ok(fields) => fields,
        Err(e) => {
            return Err(e);
        },
    };
    let outs = match encryption::transform_in_batch(
        records.as_slice(),
        fields.as_slice(),
        &key_array,
        dir,
    ) {
        Ok(outs) => outs,
        Err(e) => {
            return Err(e);
        },
    };
    let ghost out_views = item_views(outs@);
    let out = JsonValue::Array(outs);
    assert(out@ == JsonView::Array(out_views));
    write_value(&out)
}

/// Boundary form of `encrypt`: the ciphertext buffer with status 0, or a
/// failure where the key is not 32 bytes long or the plaintext too long.
pub fn encrypt(plaintext: &[u8], key: &[u8]) -> (r: FFIResult)
    ensures
        r.wf(),
        if key@.len() == 32 && fits_cipher(plaintext@.len()) {
            &&& r.error_code == 0
            &&& r.data.data matches Some(buffer)
            &&& is_ciphertext_of(buffer@, key@, plaintext@)
        } else {
            r.is_failure()
        },
{
    to_ffi_result(try_encrypt(plaintext, key))
}

/// Boundary form of `decrypt`: the plaintext with status 0, or a failure
/// where the key is not 32 bytes long or the buffer does not decrypt.
pub fn decrypt(ciphertext: &[u8], key: &[u8]) -> (r: FFIResult)
    ensures
        r.wf(),
        match opened(ciphertext@, key@) {
            Some(plaintext) if key@.len() == 32 => r.carries(plaintext),
            _ => r.is_failure(),
        },
{
    to_ffi_result(try_decrypt(ciphertext, key))
}

/// What a boundary call on one record returns: a failure where the request
/// is turned down, else the serialized form of a transform of the record,
/// or a failure where the serializer gave none.
pub open spec fn record_call_result(
    dir: Direction,
    key: Seq<u8>,
    record_text: Seq<u8>,
    fields_text: Seq<u8>,
    r: FFIResult,
) -> bool {
    if record_request_failure(dir, key, record_text, fields_text) is Some {
        r.is_failure()
    } else {
        match r.data.data {
            Some(reply) => r.carries(reply@) && record_reply(
                dir,
                key,
                record_text,
                fields_text,
                Some(reply@),
            ),
            None => r.is_failure() && record_reply(dir, key, record_text, fields_text, None),
        }
    }
}

/// What a boundary call on a batch returns, in the same way.
pub open spec fn batch_call_result(
    dir: Direction,
    key: Seq<u8>,
    records_text: Seq<u8>,
    fields_text: Seq<u8>,
    r: FFIResult,
) -> bool {
    if batch_request_failure(dir, key, records_text, fields_text) is Some {
        r.is_failure()
    } else {
        match r.data.data {
            Some(reply) => r.carries(reply@) && batch_reply(
                dir,
                key,
                records_text,
                fields_text,
                Some(reply@),
            ),
            None => r.is_failure() && batch_reply(dir, key, records_text, fields_text, None),
        }
    }
}

/// Boundary form of `encrypt_fields`, on a record and a field list in
/// interchange text.
pub fn encrypt_fields(record: &[u8], fields_to_encrypt: &[u8], key: &[u8]) -> (r: FFIResult)
    ensures
        r.wf(),
        record_call_result(Direction::Encrypt, key@, record@, fields_to_encrypt@, r),
{
    to_ffi_result(transform_record_text(record, fields_to_encrypt, key, Direction::Encrypt))
}

/// Boundary form of `decrypt_fields`, on a record and a field list in
/// interchange text.
pub fn decrypt_fields(encrypted: &[u8], fields_to_decrypt: &[u8], key: &[u8]) -> (r: FFIResult)
    ensures
        r.wf(),
        record_call_result(Direction::Decrypt, key@, encrypted@, fields_to_decrypt@, r),
{
    to_ffi_result(transform_record_text(encrypted, fields_to_decrypt, key, Direction::Decrypt))
}

/// Boundary form of `encrypt_fields_in_batch`.
pub fn encrypt_fields_in_batch(records: &[u8], fields_to_encrypt: &[u8], key: &[u8]) -> (r: FFIResult)
    ensures
        r.wf(),
        batch_call_result(Direction::Encrypt, key@, records@, fields_to_encrypt@, r),
{
    to_ffi_result(transform_batch_text(records, fields_to_encrypt, key, Direction::Encrypt))
}

/// Boundary form of `decrypt_fields_in_batch`.
pub fn decrypt_fields_in_batch(encrypted: &[u8], fields_to_decrypt: &[u8], key: &[u8]) -> (r: FFIResult)
    ensures
        r.wf(),
        batch_call_result(Direction::Decrypt, key@, encrypted@, fields_to_decrypt@, r),
{
    to_ffi_result(transform_batch_text(encrypted, fields_to_decrypt, key, Direction::Decrypt))
}

/// Releases the buffer of a result. The result is consumed: it cannot be
/// read or released again.
pub fn free_ffi_result(result: FFIResult) {
    free_byte_array(result.data);
}

/// Releases a buffer. The buffer is consumed: it cannot be read or released
/// again.
pub fn free_byte_array(arr: ByteArray) {
    let ByteArray { data, len: _ } = arr;
    match data {
        Some(buffer) => {
            let _ = buffer;
        },
        None => {},
    }
}

} // verus!
