use crate::crypto::codec::{base64_decode, fits_decoder};
use crate::crypto::encryption::{
    batch_failure, decrypted_text, encrypts_to, field_failures, is_ciphertext_of, item_failure,
    item_failures, item_result, opened, record_failure, record_failures, record_result, selected,
    value_failure, value_result, Direction,
};
use crate::error::{first_failure, lemma_first_failure, lemma_no_failure, ErrorKind};
use crate::record::{key_index, lemma_key_index, JsonView};
use vstd::prelude::*;
use vstd::utf8::{encode_utf8, encode_utf8_decode_utf8, encode_utf8_valid_utf8};

verus! {

/// Round trip: decryption under the same key recovers the plaintext from
/// every buffer that encryption may return for it.
pub proof fn lemma_decrypt_inverts_encrypt(plaintext: Seq<u8>, key: Seq<u8>, buffer: Seq<u8>)
    requires
        is_ciphertext_of(buffer, key, plaintext),
    ensures
        opened(buffer, key) == Some(plaintext),
{
}

/// Size: a ciphertext buffer is 16 bytes of IV and then the plaintext padded
/// up to the next whole block, so always a multiple of 16 bytes.
pub proof fn lemma_ciphertext_len(plaintext: Seq<u8>, key: Seq<u8>, buffer: Seq<u8>)
    requires
        is_ciphertext_of(buffer, key, plaintext),
    ensures
        buffer.len() == 16 + 16 * ((plaintext.len() + 16) / 16),
        buffer.len() % 16 == 0,
        plaintext.len() + 16 < buffer.len() <= plaintext.len() + 32,
{
}

/// Fresh IVs: two buffers for one plaintext and key that start with
/// different IVs are different buffers, and both decrypt to the plaintext.
pub proof fn lemma_distinct_ivs_distinct_buffers(
    plaintext: Seq<u8>,
    key: Seq<u8>,
    first: Seq<u8>,
    second: Seq<u8>,
)
    requires
        is_ciphertext_of(first, key, plaintext),
        is_ciphertext_of(second, key, plaintext),
        first.subrange(0, 16) != second.subrange(0, 16),
    ensures
        first != second,
        opened(first, key) == Some(plaintext),
        opened(second, key) == Some(plaintext),
{
}

/// Short input: a buffer shorter than an IV never decrypts.
pub proof fn lemma_short_buffer_rejected(buffer: Seq<u8>, key: Seq<u8>)
    requires
        buffer.len() < 16,
    ensures
        opened(buffer, key) is None,
{
}

/// Decrypting an encrypted text under the same key recovers the text.
pub proof fn lemma_decrypt_text_inverts_encrypt_text(text: Seq<char>, key: Seq<u8>, out: Seq<char>)
    requires
        encrypts_to(text, key, out),
    ensures
        decrypted_text(out, key) == Ok::<Seq<char>, ErrorKind>(text),
{
    let buffer = base64_decode(out)->Some_0;
    assert(fits_decoder(out)) by {
        assert(4 * ((buffer.len() + 2) / 3) + 7 <= usize::MAX);
    }
    encode_utf8_valid_utf8(text);
    encode_utf8_decode_utf8(text);
}

/// An encrypted text is longer than the text it stands for, by more than
/// an IV, so never that text itself.
pub proof fn lemma_encrypted_text_differs(text: Seq<char>, key: Seq<u8>, out: Seq<char>)
    requires
        encrypts_to(text, key, out),
    ensures
        encode_utf8(out).len() > encode_utf8(text).len() + 16,
        out != text,
{
    let buffer = base64_decode(out)->Some_0;
    let n = encode_utf8(text).len();
    assert(buffer.len() > n + 16);
    assert(4 * ((buffer.len() + 2) / 3) >= buffer.len());
}

/// Decrypting the encrypted value of a field under the same key recovers
/// the value.
pub proof fn lemma_decrypt_value_inverts_encrypt_value(value: JsonView, key: Seq<u8>, out: JsonView)
    requires
        value_result(Direction::Encrypt, key, value, out),
    ensures
        value_failure(Direction::Decrypt, key, out) is None,
        value_result(Direction::Decrypt, key, out, value),
{
    match value {
        JsonView::Array(items) => {
            let outs = out.items();
            assert forall|i: int| 0 <= i < items.len() implies item_failure(
                Direction::Decrypt,
                key,
                outs[i],
            ) is None && item_result(Direction::Decrypt, key, outs[i], #[trigger] items[i]) by {
                assert(item_result(Direction::Encrypt, key, items[i], outs[i]));
                lemma_decrypt_text_inverts_encrypt_text(
                    items[i]->String_0,
                    key,
                    outs[i]->String_0,
                );
            }
            lemma_no_failure(item_failures(Direction::Decrypt, key, outs));
        },
        JsonView::String(text) => {
            lemma_decrypt_text_inverts_encrypt_text(text, key, out->String_0);
        },
        _ => {},
    }
}

/// Two mappings with the same keys in the same order find every key at the
/// same place.
pub proof fn lemma_key_index_same_keys(
    first: Seq<(Seq<char>, JsonView)>,
    second: Seq<(Seq<char>, JsonView)>,
    name: Seq<char>,
)
    requires
        first.len() == second.len(),
        forall|i: int| 0 <= i < first.len() ==> (#[trigger] first[i]).0 == second[i].0,
    ensures
        key_index(first, name) == key_index(second, name),
{
    lemma_key_index(first, name);
    lemma_key_index(second, name);
    match (key_index(first, name), key_index(second, name)) {
        (Some(i), Some(j)) => {
            if i < j {
                assert(first[i].0 == second[i].0);
            } else if j < i {
                assert(first[j].0 == second[j].0);
            }
        },
        (Some(i), None) => {
            assert(first[i].0 == second[i].0);
        },
        (None, Some(j)) => {
            assert(first[j].0 == second[j].0);
        },
        (None, None) => {},
    }
}

/// Field round trip: decrypting, with the same names and key, any record
/// that encrypting `record` may give succeeds and recovers `record`.
pub proof fn lemma_decrypt_fields_inverts_encrypt_fields(
    record: JsonView,
    names: Seq<Seq<char>>,
    key: Seq<u8>,
    out: JsonView,
)
    requires
        record_result(Direction::Encrypt, key, record, names, out),
    ensures
        record_failure(Direction::Decrypt, key, out, names) is None,
        record_result(Direction::Decrypt, key, out, names, record),
{
    let failures = field_failures(Direction::Decrypt, key, out, names);
    match record {
        JsonView::Object(entries) => {
            let outs = out.entries();
            assert forall|i: int| 0 <= i < outs.len() implies {
                &&& (#[trigger] entries[i]).0 == outs[i].0
                &&& selected(outs, names, i) == selected(entries, names, i)
            } by {
                assert(outs[i].0 == entries[i].0);
                lemma_key_index_same_keys(entries, outs, entries[i].0);
            }
            assert forall|i: int| 0 <= i < outs.len() implies {
                &&& (#[trigger] record.entries()[i]).0 == outs[i].0
                &&& if selected(outs, names, i) {
                    value_result(Direction::Decrypt, key, outs[i].1, record.entries()[i].1)
                } else {
                    record.entries()[i].1 == outs[i].1
                }
            } by {
                assert(outs[i].0 == entries[i].0);
                if selected(outs, names, i) {
                    assert(selected(entries, names, i));
                    lemma_decrypt_value_inverts_encrypt_value(entries[i].1, key, outs[i].1);
                }
            }
            assert forall|j: int| 0 <= j < failures.len() implies failures[j] is None by {
                lemma_key_index_same_keys(entries, outs, names[j]);
                lemma_key_index(entries, names[j]);
                match key_index(entries, names[j]) {
                    Some(i) => {
                        assert(names.contains(entries[i].0));
                        assert(selected(entries, names, i));
                        assert(outs[i].0 == entries[i].0);
                        lemma_decrypt_value_inverts_encrypt_value(entries[i].1, key, outs[i].1);
                    },
                    None => {},
                }
            }
        },
        _ => {
            assert forall|j: int| 0 <= j < failures.len() implies failures[j] is None by {
                assert(out.entries().len() == 0);
            }
        },
    }
    lemma_no_failure(failures);
}

/// Missing fields: where the record has none of the names, the transform
/// succeeds and every record that it may give is the record itself.
pub proof fn lemma_missing_fields_no_op(
    dir: Direction,
    key: Seq<u8>,
    record: JsonView,
    names: Seq<Seq<char>>,
    out: JsonView,
)
    requires
        forall|j: int| 0 <= j < names.len() ==> record.get(#[trigger] names[j]) is None,
        record_result(dir, key, record, names, out),
    ensures
        record_failure(dir, key, record, names) is None,
        out == record,
{
    let failures = field_failures(dir, key, record, names);
    assert forall|j: int| 0 <= j < failures.len() implies failures[j] is None by {
        assert(record.get(names[j]) is None);
    }
    lemma_no_failure(failures);
    match record {
        JsonView::Object(entries) => {
            assert forall|i: int| 0 <= i < entries.len() implies out.entries()[i] == entries[i] by {
                if names.contains(entries[i].0) {
                    let j = choose|j: int| 0 <= j < names.len() && names[j] == entries[i].0;
                    assert(record.get(names[j]) is None);
                    lemma_key_index(entries, names[j]);
                }
                assert(!selected(entries, names, i));
                assert(out.entries()[i].0 == entries[i].0);
            }
            assert(out.entries() =~= entries);
        },
        _ => {},
    }
}

/// Selectivity: under a key that is not among the names, every record that
/// the transform may give holds what the record given holds.
pub proof fn lemma_unselected_field_unchanged(
    dir: Direction,
    key: Seq<u8>,
    record: JsonView,
    names: Seq<Seq<char>>,
    out: JsonView,
    name: Seq<char>,
)
    requires
        record_result(dir, key, record, names, out),
        !names.contains(name),
    ensures
        out.get(name) == record.get(name),
{
    match record {
        JsonView::Object(entries) => {
            let outs = out.entries();
            assert forall|i: int| 0 <= i < entries.len() implies (#[trigger] entries[i]).0
                == outs[i].0 by {
                assert(outs[i].0 == entries[i].0);
            }
            lemma_key_index_same_keys(entries, outs, name);
            lemma_key_index(entries, name);
            match key_index(entries, name) {
                Some(i) => {
                    assert(outs[i].0 == entries[i].0);
                    assert(!selected(entries, names, i));
                },
                None => {},
            }
        },
        _ => {},
    }
}

/// Batch atomicity: a batch in which any record fails has a failure, so the
/// batch call returns that failure and no records.
pub proof fn lemma_failing_record_fails_batch(
    dir: Direction,
    key: Seq<u8>,
    records: Seq<JsonView>,
    names: Seq<Seq<char>>,
    i: int,
)
    requires
        0 <= i < records.len(),
        record_failure(dir, key, records[i], names) is Some,
    ensures
        batch_failure(dir, key, records, names) is Some,
{
    let failures = record_failures(dir, key, records, names);
    lemma_first_failure(failures);
    assert(failures[i] is Some);
}

/// Batch atomicity, the other way: a batch fails only where one of its
/// records fails, and then as the first such record does.
pub proof fn lemma_batch_failure_is_first_record_failure(
    dir: Direction,
    key: Seq<u8>,
    records: Seq<JsonView>,
    names: Seq<Seq<char>>,
)
    ensures
        match batch_failure(dir, key, records, names) {
            Some(kind) => exists|i: int|
                0 <= i < records.len() && #[trigger] record_failure(dir, key, records[i], names)
                    == Some(kind) && forall|j: int|
                    0 <= j < i ==> record_failure(dir, key, records[j], names) is None,
            None => forall|i: int|
                0 <= i < records.len() ==> record_failure(dir, key, records[i], names) is None,
        },
{
    let failures = record_failures(dir, key, records, names);
    lemma_first_failure(failures);
    match first_failure(failures) {
        Some(kind) => {
            let i = choose|i: int|
                0 <= i < failures.len() && #[trigger] failures[i] == Some(kind) && forall|j: int|
                    0 <= j < i ==> failures[j] is None;
            assert(record_failure(dir, key, records[i], names) == Some(kind));
            assert forall|j: int| 0 <= j < i implies record_failure(
                dir,
                key,
                records[j],
                names,
            ) is None by {
                assert(failures[j] is None);
            }
        },
        None => {
            assert forall|i: int| 0 <= i < records.len() implies record_failure(
                dir,
                key,
                records[i],
                names,
            ) is None by {
                assert(failures[i] is None);
            }
        },
    }
}

} // verus!
