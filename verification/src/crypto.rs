//! The payload envelope: AES-256-GCM under a fresh random nonce, and keys
//! derived from the owner's password with Argon2.

use aes_gcm::aead::{Aead, KeyInit};
use aes_gcm::{Aes256Gcm, Key, Nonce};
use argon2::Argon2;
use rand::RngCore;
use vstd::prelude::*;
use vstd::slice::slice_to_vec;

use crate::store::EdisonError;

verus! {

#[verifier::external_type_specification]
#[verifier::external_body]
pub struct ExAeadError(aes_gcm::Error);

#[verifier::external_type_specification]
#[verifier::external_body]
pub struct ExArgon2Error(argon2::Error);

/// Length of the nonce that opens an envelope.
pub const NONCE_LEN: usize = 12;

/// Longest plaintext AES-GCM accepts, in bytes.
pub const AES_GCM_MAX_PLAINTEXT: u64 = 0x10_0000_0000;

/// The ciphertext (with its tag) that AES-256-GCM makes of `plaintext` under
/// `key` and `nonce`, with no associated data.
pub uninterp spec fn aes256_gcm_seal(key: Seq<u8>, nonce: Seq<u8>, plaintext: Seq<u8>) -> Seq<u8>;

/// What AES-256-GCM decryption of `ciphertext` under `key` and `nonce` gives:
/// the plaintext, or `None` when the ciphertext does not authenticate.
pub uninterp spec fn aes256_gcm_open(key: Seq<u8>, nonce: Seq<u8>, ciphertext: Seq<u8>) -> Option<Seq<u8>>;

/// The 32-byte key that Argon2 with its default parameters derives from
/// `password` and `salt`.
pub uninterp spec fn argon2_key(password: Seq<u8>, salt: Seq<u8>) -> Seq<u8>;

/// Calls `Aead::encrypt` of `Aes256Gcm`. Claimed: up to the crate's length
/// limit the call succeeds with the sealed text, beyond it it fails; and a
/// sealed text opens again, under the same key and nonce, to the plaintext.
#[verifier::external_body]
fn aes_gcm_encrypt(key: &[u8; 32], nonce: &[u8], plaintext: &[u8]) -> (r: Result<Vec<u8>, aes_gcm::Error>)
    requires
        nonce@.len() == 12,
    ensures
        match r {
            Ok(c) => plaintext@.len() <= AES_GCM_MAX_PLAINTEXT && c@ == aes256_gcm_seal(key@, nonce@, plaintext@)
                && aes256_gcm_open(key@, nonce@, c@)
                == Some(plaintext@),
            Err(_) => plaintext@.len() > AES_GCM_MAX_PLAINTEXT,
        },
{
    let cipher = Aes256Gcm::new(Key::<Aes256Gcm>::from_slice(key));
    cipher.encrypt(Nonce::from_slice(nonce), plaintext)
}

/// Calls `Aead::decrypt` of `Aes256Gcm`. Claimed: the call gives exactly
/// what `aes256_gcm_open` names.
#[verifier::external_body]
fn aes_gcm_decrypt(key: &[u8; 32], nonce: &[u8], ciphertext: &[u8]) -> (r: Result<Vec<u8>, aes_gcm::Error>)
    requires
        nonce@.len() == 12,
    ensures
        r matches Ok(p) ==> aes256_gcm_open(key@, nonce@, ciphertext@) == Some(p@),
        r is Err ==> aes256_gcm_open(key@, nonce@, ciphertext@) is None,
{
    let cipher = Aes256Gcm::new(Key::<Aes256Gcm>::from_slice(key));
    cipher.decrypt(Nonce::from_slice(nonce), ciphertext)
}

/// Calls `Argon2::hash_password_into` with the default parameters and a
/// 32-byte output. Claimed: it fails only for a password longer than
/// `u32::MAX` bytes (the salt and output lengths used here are valid), and
/// the key it fills in is the one `argon2_key` names.
#[verifier::external_body]
fn argon2_hash_into(password: &[u8], salt: &[u8; 32]) -> (r: Result<[u8; 32], argon2::Error>)
    ensures
        r is Ok <==> password@.len() <= 0xFFFF_FFFF,
        r matches Ok(k) ==> k@ == argon2_key(password@, salt@),
{
    let mut key = [0u8; 32];
    Argon2::default().hash_password_into(password, salt, &mut key).map(|_| key)
}

/// Calls `RngCore::fill_bytes` on `rand::thread_rng()` to fill `N` bytes
/// (nonces and salts). The bytes are random: nothing is stated of them.
#[verifier::external_body]
pub(crate) fn random_bytes<const N: usize>() -> [u8; N] {
    let mut bytes = [0u8; N];
    rand::thread_rng().fill_bytes(&mut bytes);
    bytes
}

/// Whether `envelope` is a 12-byte nonce followed by the AES-256-GCM sealing
/// of `data` under `key` and that nonce.
pub open spec fn is_envelope_of(envelope: Seq<u8>, key: Seq<u8>, data: Seq<u8>) -> bool {
    &&& envelope.len() >= 12
    &&& envelope.skip(12) == aes256_gcm_seal(key, envelope.take(12), data)
}

/// What opening an envelope under `key` gives.
pub open spec fn open_envelope(envelope: Seq<u8>, key: Seq<u8>) -> Option<Seq<u8>> {
    if envelope.len() < 12 {
        None
    } else {
        aes256_gcm_open(key, envelope.take(12), envelope.skip(12))
    }
}

/// Encrypts `data` under `key` with a fresh random nonce; the nonce leads
/// the envelope.
pub fn encrypt_payload(data: &[u8], key: &[u8; 32]) -> (r: Result<Vec<u8>, EdisonError>)
    ensures
        data@.len() <= AES_GCM_MAX_PLAINTEXT ==> (r matches Ok(c) && is_envelope_of(c@, key@, data@)),
        data@.len() > AES_GCM_MAX_PLAINTEXT ==> r == Err::<Vec<u8>, EdisonError>(EdisonError::EncryptionFailed),
        r matches Ok(c) ==> open_envelope(c@, key@) == Some(data@),
{
    let nonce_bytes: [u8; 12] = random_bytes();
    let nonce = nonce_bytes.as_slice();
    match aes_gcm_encrypt(key, nonce, data) {
        Ok(mut encrypted) => {
            let ghost sealed = encrypted@;
            let mut result = slice_to_vec(nonce);
            result.append(&mut encrypted);
            assert(result@.take(12) =~= nonce@);
            assert(result@.skip(12) =~= sealed);
            Ok(result)
        },
        Err(_) => Err(EdisonError::EncryptionFailed),
    }
}

/// What opening `envelope` under `key` gives: its plaintext, or
/// `DecryptionFailed`.
pub open spec fn decryption(envelope: Seq<u8>, key: Seq<u8>) -> Result<Seq<u8>, EdisonError> {
    match open_envelope(envelope, key) {
        Some(p) => Ok(p),
        None => Err(EdisonError::DecryptionFailed),
    }
}

/// Opens an envelope made by `encrypt_payload`. Anything shorter than a nonce,
/// or that does not authenticate under `key`, is refused.
pub fn decrypt_payload(data: &[u8], key: &[u8; 32]) -> (r: Result<Vec<u8>, EdisonError>)
    ensures
        match r {
            Ok(v) => decryption(data@, key@) == Ok::<Seq<u8>, EdisonError>(v@),
            Err(e) => decryption(data@, key@) == Err::<Seq<u8>, EdisonError>(e),
        },
{
    if data.len() < NONCE_LEN {
        return Err(EdisonError::DecryptionFailed);
    }
    let (nonce_bytes, encrypted) = data.split_at(NONCE_LEN);
    assert(nonce_bytes@ =~= data@.take(12));
    assert(encrypted@ =~= data@.skip(12));
    match aes_gcm_decrypt(key, nonce_bytes, encrypted) {
        Ok(plain) => Ok(plain),
        Err(_) => Err(EdisonError::DecryptionFailed),
    }
}

/// Derives the 32-byte record key from the owner's password and the record's
/// salt with Argon2.
pub fn derive_key(password: &str, salt: &[u8; 32]) -> (r: Result<[u8; 32], EdisonError>)
    ensures
        r is Ok <==> vstd::utf8::encode_utf8(password@).len() <= 0xFFFF_FFFF,
        r matches Ok(k) ==> k@ == argon2_key(vstd::utf8::encode_utf8(password@), salt@),
        r is Err ==> r == Err::<[u8; 32], EdisonError>(EdisonError::KeyDerivationFailed),
{
    match argon2_hash_into(password.as_bytes(), salt) {
        Ok(key) => Ok(key),
        Err(_) => Err(EdisonError::KeyDerivationFailed),
    }
}

/// The envelope law: what `encrypt_payload` returns for `data` under `key`
/// (an envelope that opens to `data`), `decrypt_payload` opens back to `data`
/// under the same key.
pub proof fn lemma_envelope_round_trip(envelope: Seq<u8>, key: Seq<u8>, data: Seq<u8>)
    requires
        open_envelope(envelope, key) == Some(data),
    ensures
        decryption(envelope, key) == Ok::<Seq<u8>, EdisonError>(data),
{
}

} // verus!
