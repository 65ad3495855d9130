use aes::Aes256;
use cbc::cipher::block_padding::{Pkcs7, UnpadError};
use cbc::cipher::inout::PadError;
use cbc::cipher::{BlockDecryptMut, BlockEncryptMut, KeyIvInit};
use rand::Rng;
use vstd::prelude::*;

verus! {

/// Size in bytes of one AES block, which is also the size of the IV.
pub const AES_BLOCK_SIZE: usize = 16;

/// Size in bytes of an AES-256 key.
pub const KEY_SIZE: usize = 32;

/// Failure of `encrypt_padded_b2b_mut`; carried through unexamined.
#[verifier::external_type_specification]
#[verifier::external_body]
pub struct ExPadError(PadError);

/// Failure of `decrypt_padded_mut`; carried through unexamined.
#[verifier::external_type_specification]
#[verifier::external_body]
pub struct ExUnpadError(UnpadError);

/// The bytes that AES-256 in CBC mode with PKCS#7 padding produces for
/// `plaintext` under `key` and `iv`.
pub uninterp spec fn aes256_cbc_pkcs7_encrypt(key: Seq<u8>, iv: Seq<u8>, plaintext: Seq<u8>) -> Seq<u8>;

/// The plaintext that AES-256 in CBC mode recovers from `data` under `key`
/// and `iv`, or `None` where `data` is not a whole number of blocks or its
/// PKCS#7 padding is malformed.
pub uninterp spec fn aes256_cbc_pkcs7_decrypt(key: Seq<u8>, iv: Seq<u8>, data: Seq<u8>) -> Option<Seq<u8>>;

/// Length of a message of `n` bytes once PKCS#7 has padded it to whole blocks:
/// the next multiple of 16 strictly above `n`.
pub open spec fn padded_len(n: nat) -> nat {
    16 * (n / 16 + 1)
}

/// What is known of the bytes `out` that the cipher wrote for `plaintext`:
/// they are the cipher's output, they fill whole blocks, and the cipher run
/// backwards recovers the plaintext from them.
pub open spec fn cbc_sealed(key: Seq<u8>, iv: Seq<u8>, plaintext: Seq<u8>, out: Seq<u8>) -> bool {
    &&& out == aes256_cbc_pkcs7_encrypt(key, iv, plaintext)
    &&& out.len() == padded_len(plaintext.len())
    &&& aes256_cbc_pkcs7_decrypt(key, iv, out) == Some(plaintext)
}

/// What is known of a plaintext that the cipher, run backwards, recovered
/// from `data`: `data` is a whole number of blocks, and the plaintext is
/// shorter than it by the padding, 1 to 16 bytes.
pub open spec fn cbc_opened(key: Seq<u8>, iv: Seq<u8>, data: Seq<u8>, plaintext: Seq<u8>) -> bool {
    &&& aes256_cbc_pkcs7_decrypt(key, iv, data) == Some(plaintext)
    &&& data.len() % 16 == 0
    &&& plaintext.len() < data.len() <= plaintext.len() + 16
}

/// Sixteen bytes from `rand::thread_rng()`, drawn with `Rng::fill`. Nothing is
/// claimed of the bytes: they differ from call to call. The generator gives
/// up only where the operating system has no entropy to seed it with.
#[verifier::external_body]
pub(crate) fn random_iv() -> (iv: [u8; 16]) {
    let mut iv = [0u8; 16];
    rand::thread_rng().fill(&mut iv);
    iv
}

/// Runs `cbc::Encryptor::<Aes256>::new(key, iv)` and its
/// `encrypt_padded_b2b_mut::<Pkcs7>(plaintext, out)`.
///
/// Trusted: the call fails exactly when `out` is shorter than the padded
/// message; otherwise it returns the padded length `n` and the first `n`
/// bytes of `out` are the ciphertext, from which `decrypt_padded_mut` under
/// the same key and IV recovers `plaintext`. The length of `out` is unchanged.
#[verifier::external_body]
pub(crate) fn cbc_encrypt(key: &[u8; 32], iv: &[u8], plaintext: &[u8], out: &mut Vec<u8>) -> (r: Result<usize, PadError>)
    requires
        iv@.len() == 16,
        plaintext@.len() + 16 <= usize::MAX,
    ensures
        final(out)@.len() == old(out)@.len(),
        match r {
            Ok(n) => {
                &&& n == padded_len(plaintext@.len())
                &&& n <= old(out)@.len()
                &&& final(out)@.subrange(0, n as int) == aes256_cbc_pkcs7_encrypt(key@, iv@, plaintext@)
                &&& cbc_sealed(key@, iv@, plaintext@, final(out)@.subrange(0, n as int))
            },
            Err(_) => old(out)@.len() < padded_len(plaintext@.len()),
        },
{
    let cipher = cbc::Encryptor::<Aes256>::new(key.into(), iv.into());
    match cipher.encrypt_padded_b2b_mut::<Pkcs7>(plaintext, out) {
        Ok(ciphertext) => Ok(ciphertext.len()),
        Err(e) => Err(e),
    }
}

/// Runs `cbc::Decryptor::<Aes256>::new(key, iv)` and its
/// `decrypt_padded_mut::<Pkcs7>(data)`, which works in place.
///
/// Trusted: on success it returns the plaintext's length `n`, and the first
/// `n` bytes of `data` are the plaintext; it fails where the input is not a
/// positive whole number of blocks or the padding is malformed. The length
/// of `data` is unchanged.
#[verifier::external_body]
pub(crate) fn cbc_decrypt(key: &[u8; 32], iv: &[u8], data: &mut Vec<u8>) -> (r: Result<usize, UnpadError>)
    requires
        iv@.len() == 16,
    ensures
        final(data)@.len() == old(data)@.len(),
        match r {
            Ok(n) => {
                &&& n <= old(data)@.len()
                &&& aes256_cbc_pkcs7_decrypt(key@, iv@, old(data)@) == Some(final(data)@.subrange(0, n as int))
                &&& cbc_opened(key@, iv@, old(data)@, final(data)@.subrange(0, n as int))
            },
            Err(_) => aes256_cbc_pkcs7_decrypt(key@, iv@, old(data)@) is None,
        },
{
    let cipher = cbc::Decryptor::<Aes256>::new(key.into(), iv.into());
    match cipher.decrypt_padded_mut::<Pkcs7>(data) {
        Ok(plaintext) => Ok(plaintext.len()),
        Err(e) => Err(e),
    }
}

} // verus!
