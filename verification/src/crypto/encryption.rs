use crate::crypto::codec::{
    base64_decode, base64_sealed, decode_base64, encode_base64, fits_decoder, fits_encoder,
    string_from_utf8,
};
use crate::crypto::primitives::{
    aes256_cbc_pkcs7_decrypt, aes256_cbc_pkcs7_encrypt, cbc_decrypt, cbc_encrypt, cbc_sealed,
    padded_len, random_iv, AES_BLOCK_SIZE,
};
use crate::error::{
    first_failure, lemma_first_failure_at, lemma_no_failure, ErrorKind, PolyCryptError,
};
use crate::record::{
    item_views, key_index, lemma_array_view, lemma_item_views, lemma_key_index,
    lemma_object_view, names_of, JsonValue, JsonView,
};
use vstd::prelude::*;
use vstd::slice::{slice_subrange, slice_to_vec};
use vstd::utf8::{decode_utf8, encode_utf8, encode_utf8_decode_utf8, valid_utf8};

verus! {

/// A ciphertext buffer for `plaintext` under `key`: a 16-byte IV followed by
/// what the cipher produced from the plaintext under that key and IV.
pub open spec fn is_ciphertext_of(buffer: Seq<u8>, key: Seq<u8>, plaintext: Seq<u8>) -> bool {
    &&& buffer.len() == 16 + padded_len(plaintext.len())
    &&& cbc_sealed(key, buffer.subrange(0, 16), plaintext, buffer.subrange(16, buffer.len() as int))
}

/// The ciphertext buffer that a given IV leads to.
pub open spec fn sealed_with(plaintext: Seq<u8>, key: Seq<u8>, iv: Seq<u8>) -> Seq<u8> {
    iv + aes256_cbc_pkcs7_encrypt(key, iv, plaintext)
}

/// What decryption recovers from `buffer` under `key`, if anything.
pub open spec fn opened(buffer: Seq<u8>, key: Seq<u8>) -> Option<Seq<u8>> {
    if buffer.len() < 16 {
        None
    } else {
        aes256_cbc_pkcs7_decrypt(key, buffer.subrange(0, 16), buffer.subrange(16, buffer.len() as int))
    }
}

/// A plaintext can be encrypted when its padded form fits in memory.
pub open spec fn fits_cipher(plaintext_len: nat) -> bool {
    plaintext_len + 16 <= usize::MAX
}

/// Lays out a ciphertext buffer: the IV, then the ciphertext.
pub fn frame_ciphertext(iv: &[u8], body: &[u8]) -> (buffer: Vec<u8>)
    ensures
        buffer@ == iv@ + body@,
{
    let mut buffer: Vec<u8> = Vec::new();
    buffer.extend_from_slice(iv);
    buffer.extend_from_slice(body);
    buffer
}

/// Encrypts `plaintext` under `key` with the IV that the caller supplies, and
/// returns the IV followed by the ciphertext.
pub fn encrypt_with_iv(plaintext: &[u8], key: &[u8; 32], iv: &[u8; 16]) -> (r: Result<Vec<u8>, PolyCryptError>)
    ensures
        match r {
            Ok(buffer) => {
                &&& fits_cipher(plaintext@.len())
                &&& buffer@ == sealed_with(plaintext@, key@, iv@)
                &&& is_ciphertext_of(buffer@, key@, plaintext@)
            },
            Err(e) => !fits_cipher(plaintext@.len()) && e.kind() == ErrorKind::Encryption,
        },
{
    let room = match plaintext.len().checked_add(AES_BLOCK_SIZE) {
        Some(room) => room,
        None => {
            return Err(PolyCryptError::EncryptionError("Plaintext too long".to_string()));
        },
    };
    let mut out: Vec<u8> = vec![0u8; room];
    match cbc_encrypt(key, iv.as_slice(), plaintext, &mut out) {
        Ok(n) => {
            let body = slice_subrange(out.as_slice(), 0, n);
            let buffer = frame_ciphertext(iv.as_slice(), body);
            proof {
                assert(buffer@.subrange(0, 16) == iv@);
                assert(buffer@.subrange(16, buffer@.len() as int) == body@);
            }
            Ok(buffer)
        },
        Err(e) => {
            Err(PolyCryptError::EncryptionError(e.to_string()))
        },
    }
}

/// Encrypts `plaintext` under `key` with a fresh random IV, and returns the IV
/// followed by the ciphertext.
pub fn encrypt(plaintext: &[u8], key: &[u8; 32]) -> (r: Result<Vec<u8>, PolyCryptError>)
    ensures
        match r {
            Ok(buffer) => {
                &&& fits_cipher(plaintext@.len())
                &&& is_ciphertext_of(buffer@, key@, plaintext@)
                &&& buffer@.len() == 16 + 16 * ((plaintext@.len() + 16) / 16)
                &&& buffer@.len() % 16 == 0
            },
            Err(e) => !fits_cipher(plaintext@.len()) && e.kind() == ErrorKind::Encryption,
        },
{
    let iv = random_iv();
    encrypt_with_iv(plaintext, key, &iv)
}

/// Splits the IV from `ciphertext`, decrypts the rest under `key` and removes
/// the padding.
///
/// The scheme is not authenticated: a corrupted buffer whose padding happens
/// to be well-formed decrypts to bytes that were never encrypted.
pub fn decrypt(ciphertext: &[u8], key: &[u8; 32]) -> (r: Result<Vec<u8>, PolyCryptError>)
    ensures
        match r {
            Ok(plaintext) => {
                &&& opened(ciphertext@, key@) == Some(plaintext@)
                &&& ciphertext@.len() >= 32
                &&& ciphertext@.len() % 16 == 0
                &&& plaintext@.len() + 16 < ciphertext@.len() <= plaintext@.len() + 32
            },
            Err(e) => {
                &&& opened(ciphertext@, key@) is None
                &&& e.kind() == ErrorKind::Decryption
                &&& ciphertext@.len() < 16 ==> is_too_short(e)
            },
        },
{
    if ciphertext.len() < AES_BLOCK_SIZE {
        return Err(PolyCryptError::DecryptionError("Ciphertext too short".to_string()));
    }
    let (iv, body) = ciphertext.split_at(AES_BLOCK_SIZE);
    let mut buffer = slice_to_vec(body);
    match cbc_decrypt(key, iv, &mut buffer) {
        Ok(n) => {
            buffer.truncate(n);
            Ok(buffer)
        },
        Err(e) => Err(PolyCryptError::DecryptionError(e.to_string())),
    }
}

/// The failure that a buffer shorter than an IV gives.
pub open spec fn is_too_short(e: PolyCryptError) -> bool {
    e matches PolyCryptError::DecryptionError(message) && message@ == "Ciphertext too short"@
}

/// Which way a transform goes.
#[derive(Clone, Copy, Debug, PartialEq, Eq, Structural)]
pub enum Direction {
    Encrypt,
    Decrypt,
}

/// A text can be encrypted when its ciphertext buffer and the base64 form of
/// that buffer both fit in memory.
pub open spec fn fits_text(text: Seq<char>) -> bool {
    let n = encode_utf8(text).len();
    fits_cipher(n) && fits_encoder(16 + padded_len(n))
}

/// `out` is an encrypted form of `text` under `key`: the base64 form of a
/// ciphertext buffer for the UTF-8 bytes of `text`.
pub open spec fn encrypts_to(text: Seq<char>, key: Seq<u8>, out: Seq<char>) -> bool {
    match base64_decode(out) {
        Some(buffer) => {
            &&& fits_encoder(buffer.len())
            &&& base64_sealed(buffer, out)
            &&& is_ciphertext_of(buffer, key, encode_utf8(text))
        },
        None => false,
    }
}

/// What decrypting the encrypted text `text` under `key` gives: the plain
/// text, or the class of the first step that fails.
pub open spec fn decrypted_text(text: Seq<char>, key: Seq<u8>) -> Result<Seq<char>, ErrorKind> {
    if !fits_decoder(text) {
        Err(ErrorKind::Decryption)
    } else {
        match base64_decode(text) {
            None => Err(ErrorKind::Base64Decode),
            Some(buffer) => match opened(buffer, key) {
                None => Err(ErrorKind::Decryption),
                Some(plain) => if valid_utf8(plain) {
                    Ok(decode_utf8(plain))
                } else {
                    Err(ErrorKind::Utf8)
                },
            },
        }
    }
}

/// Encrypts the UTF-8 bytes of `text` under `key` with a fresh IV and
/// returns the base64 form of the ciphertext buffer.
pub fn encrypt_text(text: &str, key: &[u8; 32]) -> (r: Result<String, PolyCryptError>)
    ensures
        match r {
            Ok(out) => fits_text(text@) && encrypts_to(text@, key@, out@),
            Err(e) => !fits_text(text@) && e.kind() == ErrorKind::Encryption,
        },
{
    let buffer = match encrypt(text.as_bytes(), key) {
        Ok(buffer) => buffer,
        Err(e) => {
            return Err(e);
        },
    };
    if buffer.len() / 3 >= (usize::MAX - 7) / 4 {
        return Err(PolyCryptError::EncryptionError("Ciphertext too long to encode".to_string()));
    }
    Ok(encode_base64(buffer.as_slice()))
}

/// Reads `text` as base64, decrypts the buffer under `key` and returns the
/// plaintext as UTF-8 text.
pub fn decrypt_text(text: &str, key: &[u8; 32]) -> (r: Result<String, PolyCryptError>)
    ensures
        match r {
            Ok(out) => decrypted_text(text@, key@) == Ok::<Seq<char>, ErrorKind>(out@),
            Err(e) => decrypted_text(text@, key@) == Err::<Seq<char>, ErrorKind>(e.kind()),
        },
{
    if text.as_bytes().len() > usize::MAX - 7 {
        return Err(PolyCryptError::DecryptionError("Encoded text too long".to_string()));
    }
    let buffer = match decode_base64(text) {
        Ok(buffer) => buffer,
        Err(e) => {
            return Err(PolyCryptError::Base64DecodeError(e));
        },
    };
    let plain = match decrypt(buffer.as_slice(), key) {
        Ok(plain) => plain,
        Err(e) => {
            return Err(e);
        },
    };
    match string_from_utf8(plain) {
        Ok(out) => {
            proof {
                encode_utf8_decode_utf8(out@);
            }
            Ok(out)
        },
        Err(e) => Err(PolyCryptError::Utf8Error(e)),
    }
}

/// The class of failure that transforming `text` gives, if it fails.
pub open spec fn text_failure(dir: Direction, key: Seq<u8>, text: Seq<char>) -> Option<ErrorKind> {
    match dir {
        Direction::Encrypt => if fits_text(text) {
            None
        } else {
            Some(ErrorKind::Encryption)
        },
        Direction::Decrypt => match decrypted_text(text, key) {
            Ok(_) => None,
            Err(kind) => Some(kind),
        },
    }
}

/// `out` is a text that transforming `text` may give.
pub open spec fn text_result(dir: Direction, key: Seq<u8>, text: Seq<char>, out: Seq<char>) -> bool {
    match dir {
        Direction::Encrypt => encrypts_to(text, key, out),
        Direction::Decrypt => decrypted_text(text, key) == Ok::<Seq<char>, ErrorKind>(out),
    }
}

/// Encrypts or decrypts one text.
pub fn transform_text(text: &str, key: &[u8; 32], dir: Direction) -> (r: Result<String, PolyCryptError>)
    ensures
        match r {
            Ok(out) => text_failure(dir, key@, text@) is None && text_result(dir, key@, text@, out@),
            Err(e) => text_failure(dir, key@, text@) == Some(e.kind()),
        },
{
    match dir {
        Direction::Encrypt => encrypt_text(text, key),
        Direction::Decrypt => decrypt_text(text, key),
    }
}

/// The class of failure that transforming one item gives, if it fails: an
/// item that is no string cannot be transformed.
pub open spec fn item_failure(dir: Direction, key: Seq<u8>, item: JsonView) -> Option<ErrorKind> {
    match item {
        JsonView::String(text) => text_failure(dir, key, text),
        _ => Some(ErrorKind::InvalidFieldType),
    }
}

/// `out` is a value that transforming the item `item` may give.
pub open spec fn item_result(dir: Direction, key: Seq<u8>, item: JsonView, out: JsonView) -> bool {
    match item {
        JsonView::String(text) => out matches JsonView::String(o) && text_result(dir, key, text, o),
        _ => false,
    }
}

/// The failures of the items of a sequence, in order.
pub open spec fn item_failures(dir: Direction, key: Seq<u8>, items: Seq<JsonView>) -> Seq<Option<ErrorKind>> {
    Seq::new(items.len(), |i: int| item_failure(dir, key, items[i]))
}

/// The class of failure that transforming the value of a selected field
/// gives, if it fails: a sequence fails as its first failing item does, any
/// other value as an item.
pub open spec fn value_failure(dir: Direction, key: Seq<u8>, value: JsonView) -> Option<ErrorKind> {
    match value {
        JsonView::Array(items) => first_failure(item_failures(dir, key, items)),
        _ => item_failure(dir, key, value),
    }
}

/// `out` is a value that transforming the value of a selected field may
/// give: a sequence is transformed item by item, in order.
pub open spec fn value_result(dir: Direction, key: Seq<u8>, value: JsonView, out: JsonView) -> bool {
    match value {
        JsonView::Array(items) => {
            &&& out is Array
            &&& out.items().len() == items.len()
            &&& forall|i: int|
                0 <= i < items.len() ==> item_result(dir, key, items[i], #[trigger] out.items()[i])
        },
        _ => item_result(dir, key, value, out),
    }
}

/// Transforms one item: a string, or else a usage error.
pub fn transform_item(item: &JsonValue, key: &[u8; 32], dir: Direction) -> (r: Result<JsonValue, PolyCryptError>)
    ensures
        match r {
            Ok(out) => item_failure(dir, key@, item@) is None && item_result(dir, key@, item@, out@),
            Err(e) => item_failure(dir, key@, item@) == Some(e.kind()),
        },
{
    match item {
        JsonValue::String(text) => match transform_text(text.as_str(), key, dir) {
            Ok(out) => Ok(JsonValue::String(out)),
            Err(e) => Err(e),
        },
        _ => Err(
            PolyCryptError::InvalidFieldTypeError(
                "Field value must be a string or an array of strings".to_string(),
            ),
        ),
    }
}

/// Transforms the value of a selected field: each item of a sequence on its
/// own, any other value as one item. The first failure ends the transform.
pub fn transform_value(value: &JsonValue, key: &[u8; 32], dir: Direction) -> (r: Result<JsonValue, PolyCryptError>)
    ensures
        match r {
            Ok(out) => value_failure(dir, key@, value@) is None && value_result(
                dir,
                key@,
                value@,
                out@,
            ),
            Err(e) => value_failure(dir, key@, value@) == Some(e.kind()),
        },
{
    match value {
        JsonValue::Array(items) => {
            let ghost failures = item_failures(dir, key@, value@.items());
            let mut outs: Vec<JsonValue> = Vec::new();
            let mut i: usize = 0;
            proof {
                lemma_array_view(*items);
            }
            while i < items.len()
                invariant
                    i <= items@.len(),
                    outs@.len() == i,
                    value@ is Array,
                    value@.items().len() == items@.len(),
                    forall|k: int| 0 <= k < items@.len() ==> #[trigger] value@.items()[k] == items@[k]@,
                    failures == item_failures(dir, key@, value@.items()),
                    forall|k: int| 0 <= k < i ==> (#[trigger] failures[k]) is None,
                    forall|k: int|
                        0 <= k < i ==> item_result(dir, key@, value@.items()[k], (#[trigger] outs@[k])@),
                decreases items@.len() - i,
            {
                match transform_item(&items[i], key, dir) {
                    Ok(out) => {
                        outs.push(out);
                    },
                    Err(e) => {
                        proof {
                            assert(value@.items()[i as int] == items@[i as int]@);
                            assert(failures[i as int] == Some(e.kind()));
                            lemma_first_failure_at(failures, i as int);
                        }
                        return Err(e);
                    },
                }
                proof {
                    assert(value@.items()[i as int] == items@[i as int]@);
                    assert(failures[i as int] is None);
                }
                i += 1;
            }
            proof {
                lemma_no_failure(failures);
                lemma_array_view(outs);
            }
            Ok(JsonValue::Array(outs))
        },
        _ => transform_item(value, key, dir),
    }
}

/// The class of failure that transforming the field `name` of a record
/// gives, if it fails. A name that the record lacks never fails.
pub open spec fn field_failure(
    dir: Direction,
    key: Seq<u8>,
    record: JsonView,
    name: Seq<char>,
) -> Option<ErrorKind> {
    match record.get(name) {
        Some(value) => value_failure(dir, key, value),
        None => None,
    }
}

/// The failures of the named fields of a record, in the order of the names.
pub open spec fn field_failures(
    dir: Direction,
    key: Seq<u8>,
    record: JsonView,
    names: Seq<Seq<char>>,
) -> Seq<Option<ErrorKind>> {
    Seq::new(names.len(), |j: int| field_failure(dir, key, record, names[j]))
}

/// The class of failure that transforming a record gives, if it fails: that
/// of the first name, in the order given, whose field fails.
pub open spec fn record_failure(
    dir: Direction,
    key: Seq<u8>,
    record: JsonView,
    names: Seq<Seq<char>>,
) -> Option<ErrorKind> {
    first_failure(field_failures(dir, key, record, names))
}

/// The entry at `i` is one that the names select: its key is among them, and
/// it is the entry that this key stands for.
pub open spec fn selected(entries: Seq<(Seq<char>, JsonView)>, names: Seq<Seq<char>>, i: int) -> bool {
    names.contains(entries[i].0) && key_index(entries, entries[i].0) == Some(i)
}

/// `out` is a record that transforming `record` may give: the same keys in
/// the same order, each selected entry's value transformed, every other
/// value as it was. A value that is no mapping has no fields and stays as it
/// is.
pub open spec fn record_result(
    dir: Direction,
    key: Seq<u8>,
    record: JsonView,
    names: Seq<Seq<char>>,
    out: JsonView,
) -> bool {
    match record {
        JsonView::Object(entries) => {
            &&& out is Object
            &&& out.entries().len() == entries.len()
            &&& forall|i: int|
                0 <= i < entries.len() ==> {
                    &&& (#[trigger] out.entries()[i]).0 == entries[i].0
                    &&& if selected(entries, names, i) {
                        value_result(dir, key, entries[i].1, out.entries()[i].1)
                    } else {
                        out.entries()[i].1 == entries[i].1
                    }
                }
        },
        _ => out == record,
    }
}

/// Transforms the named fields of `record` and returns the new record; the
/// record given is left as it is. Names are taken in order, and the first
/// field that fails ends the transform with its failure.
pub fn transform_fields(
    record: &JsonValue,
    fields: &[String],
    key: &[u8; 32],
    dir: Direction,
) -> (r: Result<JsonValue, PolyCryptError>)
    ensures
        match r {
            Ok(out) => {
                &&& record_failure(dir, key@, record@, names_of(fields@)) is None
                &&& record_result(dir, key@, record@, names_of(fields@), out@)
            },
            Err(e) => record_failure(dir, key@, record@, names_of(fields@)) == Some(e.kind()),
        },
{
    let ghost names = names_of(fields@);
    let ghost failures = field_failures(dir, key@, record@, names);
    match record {
        JsonValue::Object(entries) => {
            let ghost old_entries = record@.entries();
            let mut outs: Vec<(String, JsonValue)> = Vec::new();
            let mut i: usize = 0;
            proof {
                lemma_object_view(*entries);
            }
            while i < entries.len()
                invariant
                    i <= entries@.len(),
                    outs@.len() == i,
                    old_entries.len() == entries@.len(),
                    forall|k: int|
                        0 <= k < entries@.len() ==> #[trigger] old_entries[k] == (
                            entries@[k].0@,
                            entries@[k].1@,
                        ),
                    forall|k: int|
                        0 <= k < i ==> (#[trigger] outs@[k]).0@ == old_entries[k].0 && outs@[k].1@
                            == old_entries[k].1,
                decreases entries@.len() - i,
            {
                outs.push((entries[i].0.clone(), entries[i].1.clone()));
                i += 1;
            }
            let mut j: usize = 0;
            while j < fields.len()
                invariant
                    j <= fields@.len(),
                    names == names_of(fields@),
                    failures == field_failures(dir, key@, record@, names),
                    record@ == JsonView::Object(old_entries),
                    old_entries.len() == entries@.len(),
                    outs@.len() == entries@.len(),
                    forall|k: int|
                        0 <= k < entries@.len() ==> #[trigger] old_entries[k] == (
                            entries@[k].0@,
                            entries@[k].1@,
                        ),
                    forall|k: int| 0 <= k < j ==> (#[trigger] failures[k]) is None,
                    forall|k: int|
                        0 <= k < outs@.len() ==> {
                            &&& (#[trigger] outs@[k]).0@ == old_entries[k].0
                            &&& if selected(old_entries, names.take(j as int), k) {
                                value_result(dir, key@, old_entries[k].1, outs@[k].1@)
                            } else {
                                outs@[k].1@ == old_entries[k].1
                            }
                        },
                decreases fields@.len() - j,
            {
                let ghost name = names[j as int];
                let ghost before = outs@;
                proof {
                    lemma_key_index(old_entries, name);
                }
                match record.position(&fields[j]) {
                    Some(at) => {
                        match transform_value(&entries[at].1, key, dir) {
                            Ok(out) => {
                                outs.set(at, (entries[at].0.clone(), out));
                            },
                            Err(e) => {
                                proof {
                                    assert(failures[j as int] == Some(e.kind()));
                                    lemma_first_failure_at(failures, j as int);
                                }
                                return Err(e);
                            },
                        }
                    },
                    None => {},
                }
                proof {
                    assert(failures[j as int] is None);
                    let wider = names.take(j as int + 1);
                    let narrower = names.take(j as int);
                    assert forall|k: int| 0 <= k < outs@.len() implies {
                        &&& (#[trigger] outs@[k]).0@ == old_entries[k].0
                        &&& if selected(old_entries, wider, k) {
                            value_result(dir, key@, old_entries[k].1, outs@[k].1@)
                        } else {
                            outs@[k].1@ == old_entries[k].1
                        }
                    } by {
                        assert(wider[j as int] == name);
                        assert(forall|m: int| 0 <= m < j ==> wider[m] == #[trigger] narrower[m]);
                        if selected(old_entries, wider, k) {
                            if old_entries[k].0 == name {
                            } else {
                                let m = choose|m: int| 0 <= m < wider.len() && wider[m] == old_entries[k].0;
                                assert(narrower[m] == old_entries[k].0);
                                assert(selected(old_entries, narrower, k));
                                assert(outs@[k] == before[k]);
                            }
                        } else {
                            if selected(old_entries, narrower, k) {
                                let m = choose|m: int| 0 <= m < narrower.len() && narrower[m] == old_entries[k].0;
                                assert(wider[m] == old_entries[k].0);
                            }
                            assert(outs@[k] == before[k]);
                        }
                    }
                }
                j += 1;
            }
            proof {
                assert(names.take(fields@.len() as int) == names);
                lemma_no_failure(failures);
                lemma_object_view(outs);
            }
            Ok(JsonValue::Object(outs))
        },
        _ => {
            proof {
                assert forall|j: int| 0 <= j < failures.len() implies failures[j] is None by {
                    assert(record@.entries().len() == 0);
                }
                lemma_no_failure(failures);
            }
            Ok(record.clone())
        },
    }
}

/// The failures of the records of a batch, in order.
pub open spec fn record_failures(
    dir: Direction,
    key: Seq<u8>,
    records: Seq<JsonView>,
    names: Seq<Seq<char>>,
) -> Seq<Option<ErrorKind>> {
    Seq::new(records.len(), |i: int| record_failure(dir, key, records[i], names))
}

/// The class of failure that transforming a batch gives, if it fails: that
/// of the first record, in order, that fails.
pub open spec fn batch_failure(
    dir: Direction,
    key: Seq<u8>,
    records: Seq<JsonView>,
    names: Seq<Seq<char>>,
) -> Option<ErrorKind> {
    first_failure(record_failures(dir, key, records, names))
}

/// `outs` is a batch that transforming `records` may give: one record for
/// each record given, in the same order, each a transform of its own.
pub open spec fn batch_result(
    dir: Direction,
    key: Seq<u8>,
    records: Seq<JsonView>,
    names: Seq<Seq<char>>,
    outs: Seq<JsonView>,
) -> bool {
    &&& outs.len() == records.len()
    &&& forall|i: int|
        0 <= i < records.len() ==> record_result(dir, key, records[i], names, #[trigger] outs[i])
}

/// Transforms each record of a batch on its own, in order. All or nothing:
/// the first record that fails ends the batch with its failure, and the
/// records transformed so far are dropped.
pub fn transform_in_batch(
    records: &[JsonValue],
    fields: &[String],
    key: &[u8; 32],
    dir: Direction,
) -> (r: Result<Vec<JsonValue>, PolyCryptError>)
    ensures
        match r {
            Ok(outs) => {
                &&& batch_failure(dir, key@, item_views(records@), names_of(fields@)) is None
                &&& batch_result(
                    dir,
                    key@,
                    item_views(records@),
                    names_of(fields@),
                    item_views(outs@),
                )
            },
            Err(e) => batch_failure(dir, key@, item_views(records@), names_of(fields@)) == Some(
                e.kind(),
            ),
        },
{
    let ghost failures = record_failures(dir, key@, item_views(records@), names_of(fields@));
    proof {
        lemma_item_views(records@);
    }
    let mut outs: Vec<JsonValue> = Vec::new();
    let mut i: usize = 0;
    while i < records.len()
        invariant
            i <= records@.len(),
            outs@.len() == i,
            failures == record_failures(dir, key@, item_views(records@), names_of(fields@)),
            item_views(records@).len() == records@.len(),
            forall|k: int| 0 <= k < records@.len() ==> #[trigger] item_views(records@)[k] == records@[k]@,
            forall|k: int| 0 <= k < i ==> (#[trigger] failures[k]) is None,
            forall|k: int|
                0 <= k < i ==> record_result(
                    dir,
                    key@,
                    records@[k]@,
                    names_of(fields@),
                    (#[trigger] outs@[k])@,
                ),
        decreases records@.len() - i,
    {
        match transform_fields(&records[i], fields, key, dir) {
            Ok(out) => {
                outs.push(out);
            },
            Err(e) => {
                proof {
                    assert(failures[i as int] == Some(e.kind()));
                    lemma_first_failure_at(failures, i as int);
                }
                return Err(e);
            },
        }
        proof {
            assert(failures[i as int] is None);
        }
        i += 1;
    }
    proof {
        lemma_no_failure(failures);
        lemma_item_views(outs@);
    }
    Ok(outs)
}

/// Encrypts the named fields of `record`: a string becomes the base64 form
/// of its ciphertext, a sequence of strings a sequence of such forms, each
/// with an IV of its own. Fields not named pass through unchanged, and a
/// name that the record lacks is skipped.
pub fn encrypt_fields(record: &JsonValue, fields_to_encrypt: &[String], key: &[u8; 32]) -> (r: Result<
    JsonValue,
    PolyCryptError,
>)
    ensures
        match r {
            Ok(out) => {
                &&& record_failure(Direction::Encrypt, key@, record@, names_of(fields_to_encrypt@)) is None
                &&& record_result(
                    Direction::Encrypt,
                    key@,
                    record@,
                    names_of(fields_to_encrypt@),
                    out@,
                )
            },
            Err(e) => record_failure(Direction::Encrypt, key@, record@, names_of(fields_to_encrypt@))
                == Some(e.kind()),
        },
{
    transform_fields(record, fields_to_encrypt, key, Direction::Encrypt)
}

/// Decrypts the named fields of `record`: the inverse of `encrypt_fields`.
/// A field that fails to decode or decrypt fails the whole call.
pub fn decrypt_fields(record: &JsonValue, fields_to_decrypt: &[String], key: &[u8; 32]) -> (r: Result<
    JsonValue,
    PolyCryptError,
>)
    ensures
        match r {
            Ok(out) => {
                &&& record_failure(Direction::Decrypt, key@, record@, names_of(fields_to_decrypt@)) is None
                &&& record_result(
                    Direction::Decrypt,
                    key@,
                    record@,
                    names_of(fields_to_decrypt@),
                    out@,
                )
            },
            Err(e) => record_failure(Direction::Decrypt, key@, record@, names_of(fields_to_decrypt@))
                == Some(e.kind()),
        },
{
    transform_fields(record, fields_to_decrypt, key, Direction::Decrypt)
}

/// Encrypts the named fields of each record of a batch, all or nothing.
pub fn encrypt_fields_in_batch(
    records: &[JsonValue],
    fields_to_encrypt: &[String],
    key: &[u8; 32],
) -> (r: Result<Vec<JsonValue>, PolyCryptError>)
    ensures
        match r {
            Ok(outs) => {
                &&& batch_failure(Direction::Encrypt, key@, item_views(records@), names_of(fields_to_encrypt@)) is None
                &&& batch_result(
                    Direction::Encrypt,
                    key@,
                    item_views(records@),
                    names_of(fields_to_encrypt@),
                    item_views(outs@),
                )
            },
            Err(e) => batch_failure(
                Direction::Encrypt,
                key@,
                item_views(records@),
                names_of(fields_to_encrypt@),
            ) == Some(e.kind()),
        },
{
    transform_in_batch(records, fields_to_encrypt, key, Direction::Encrypt)
}

/// Decrypts the named fields of each record of a batch, all or nothing.
pub fn decrypt_fields_in_batch(
    records: &[JsonValue],
    fields_to_decrypt: &[String],
    key: &[u8; 32],
) -> (r: Result<Vec<JsonValue>, PolyCryptError>)
    ensures
        match r {
            Ok(outs) => {
                &&& batch_failure(Direction::Decrypt, key@, item_views(records@), names_of(fields_to_decrypt@)) is None
                &&& batch_result(
                    Direction::Decrypt,
                    key@,
                    item_views(records@),
                    names_of(fields_to_decrypt@),
                    item_views(outs@),
                )
            },
            Err(e) => batch_failure(
                Direction::Decrypt,
                key@,
                item_views(records@),
                names_of(fields_to_decrypt@),
            ) == Some(e.kind()),
        },
{
    transform_in_batch(records, fields_to_decrypt, key, Direction::Decrypt)
}

} // verus!
