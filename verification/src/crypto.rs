//! Password-based key derivation and authenticated encryption.
//!
//! A per-user symmetric key is derived from the password and a stored random
//! salt with a memory-hard derivation (Argon2id, with the same fixed cost
//! parameters at user creation and at every later seal or open). Entry
//! content is sealed with an authenticated cipher whose ciphertext is
//! self-describing: opening verifies integrity and fails on any tampering,
//! truncation or key mismatch, never returning partial plaintext. The derived
//! key is never persisted; it is recomputed for each operation.

use vstd::prelude::*;
use vstd::utf8::encode_utf8;

verus! {

/// A failed cryptographic operation. Authentication failures, malformed
/// input and tampered ciphertext all collapse into this one uniform value,
/// so a caller learns nothing about which part failed.
#[derive(Clone, Copy, PartialEq, Eq, Structural, Debug)]
pub enum CryptoError {
    /// The operation failed; no detail is disclosed.
    Failed,
}

/// Length in bytes of a derived symmetric key.
pub const KEY_LENGTH: usize = 32;

/// Length in bytes of a stored per-user salt.
pub const SALT_LENGTH: usize = 16;

/// Shortest salt the key derivation accepts.
pub const MIN_SALT_LENGTH: usize = 8;

/// Bytes a sealed ciphertext adds over its plaintext: a 24-byte nonce in
/// front and a 16-byte authentication tag behind.
pub const SEAL_OVERHEAD: usize = 40;

/// Argon2id iteration count used everywhere in this crate.
pub const KDF_ITERATIONS: u32 = 3;

/// Argon2id memory cost (in KiB) used everywhere in this crate.
pub const KDF_MEMORY_KIB: u32 = 65536;

/// Longest password or salt the key derivation accepts, in bytes.
pub const MAX_KDF_INPUT_LEN: usize = 0xFFFF_FFFF;

/// The key that the memory-hard derivation assigns to a password and a salt,
/// at this crate's fixed cost parameters. Deterministic in both arguments.
pub uninterp spec fn derived_key(password: Seq<u8>, salt: Seq<u8>) -> Seq<u8>;

/// What authenticated decryption returns for a key and a ciphertext:
/// the unique plaintext if the ciphertext is genuine under that key, and
/// nothing otherwise. Deterministic in both arguments.
pub uninterp spec fn opened(key: Seq<u8>, ciphertext: Seq<u8>) -> Option<Seq<u8>>;

/// Whether an encoded password hash verifies against a password; false for a
/// malformed hash or an empty password. Deterministic in both arguments.
pub uninterp spec fn hash_matches(hash: Seq<char>, password: Seq<u8>) -> bool;

/// Relies on `orion::kdf::derive_key` (Argon2id): the result is a function
/// of the password and the salt alone once the cost parameters are fixed,
/// and the call fails exactly on an empty password, a salt shorter than
/// [`MIN_SALT_LENGTH`] bytes, or a password or salt longer than
/// [`MAX_KDF_INPUT_LEN`] bytes (the derivation measures both in 32 bits).
#[verifier::external_body]
pub fn derive_key(password: &[u8], salt: &[u8]) -> (r: Result<Vec<u8>, CryptoError>)
    ensures
        match r {
            Ok(k) => {
                &&& k@ == derived_key(password@, salt@)
                &&& k@.len() == KEY_LENGTH
                &&& 0 < password@.len() <= MAX_KDF_INPUT_LEN
                &&& MIN_SALT_LENGTH <= salt@.len() <= MAX_KDF_INPUT_LEN
            },
            Err(_) => password@.len() == 0 || password@.len() > MAX_KDF_INPUT_LEN || salt@.len()
                < MIN_SALT_LENGTH || salt@.len() > MAX_KDF_INPUT_LEN,
        },
{
    let pw = orion::kdf::Password::try_from(password).map_err(|_| CryptoError::Failed)?;
    let st = orion::kdf::Salt::try_from(salt).map_err(|_| CryptoError::Failed)?;
    let cost = orion::kdf::CostParams::new(KDF_ITERATIONS, KDF_MEMORY_KIB, 1).map_err(
        |_| CryptoError::Failed,
    )?;
    match orion::kdf::derive_key(&pw, &st, &cost, KEY_LENGTH as u32) {
        Ok(k) => Ok(k.unprotected_as_ref::<[u8]>().to_vec()),
        Err(_) => Err(CryptoError::Failed),
    }
}

/// Relies on `orion::aead::seal` (XChaCha20-Poly1305 with a fresh random
/// nonce): a sealed ciphertext is 40 bytes longer than its plaintext and
/// opens, under the same key, to exactly that plaintext. The call fails on a
/// key that is not 32 bytes or an empty plaintext, and may fail if no random
/// nonce can be drawn, so success is never promised.
#[verifier::external_body]
pub fn seal(key: &[u8], plaintext: &[u8]) -> (r: Result<Vec<u8>, CryptoError>)
    ensures
        match r {
            Ok(ct) => {
                &&& ct@.len() == plaintext@.len() + SEAL_OVERHEAD
                &&& opened(key@, ct@) == Some(plaintext@)
            },
            Err(_) => true,
        },
        key@.len() != KEY_LENGTH || plaintext@.len() == 0 ==> r is Err,
{
    let sk = orion::aead::SecretKey::try_from(key).map_err(|_| CryptoError::Failed)?;
    orion::aead::seal(&sk, plaintext).map_err(|_| CryptoError::Failed)
}

/// Relies on `orion::aead::open` (XChaCha20-Poly1305): decryption is a
/// function of the key and the ciphertext alone; it returns plaintext exactly
/// when the ciphertext authenticates under the key, and fails on a tampered
/// or truncated ciphertext, a wrong key, or a key that is not 32 bytes.
#[verifier::external_body]
pub fn open(key: &[u8], ciphertext: &[u8]) -> (r: Result<Vec<u8>, CryptoError>)
    ensures
        match r {
            Ok(pt) => {
                &&& opened(key@, ciphertext@) == Some(pt@)
                &&& pt@.len() + SEAL_OVERHEAD == ciphertext@.len()
            },
            Err(_) => opened(key@, ciphertext@) is None,
        },
        key@.len() != KEY_LENGTH || ciphertext@.len() <= SEAL_OVERHEAD ==> r is Err,
{
    let sk = orion::aead::SecretKey::try_from(key).map_err(|_| CryptoError::Failed)?;
    orion::aead::open(&sk, ciphertext).map_err(|_| CryptoError::Failed)
}

/// Relies on `orion::pwhash::hash_password` (Argon2id, fresh random salt):
/// whatever encoded hash comes back verifies against the hashed password.
/// The call fails on an empty password and may fail if no random salt can be
/// drawn.
#[verifier::external_body]
pub fn hash_password(password: &[u8]) -> (r: Result<String, CryptoError>)
    ensures
        match r {
            Ok(h) => hash_matches(h@, password@) && password@.len() > 0,
            Err(_) => true,
        },
        password@.len() == 0 ==> r is Err,
{
    let pw = orion::pwhash::Password::try_from(password).map_err(|_| CryptoError::Failed)?;
    let cost = orion::pwhash::CostParams::new(KDF_ITERATIONS, KDF_MEMORY_KIB, 1).map_err(
        |_| CryptoError::Failed,
    )?;
    match orion::pwhash::hash_password(&pw, &cost) {
        Ok(h) => Ok(h.unprotected_as_ref::<str>().to_string()),
        Err(_) => Err(CryptoError::Failed),
    }
}

/// Relies on `orion::pwhash::hash_password_verify` (Argon2id): verification
/// is a function of the encoded hash and the password alone; a malformed
/// hash or an empty password verifies as false, never as a crash.
#[verifier::external_body]
pub fn verify_password(hash: &str, password: &[u8]) -> (b: bool)
    ensures
        b == hash_matches(hash@, password@),
        password@.len() == 0 ==> !b,
{
    let Ok(stored) = orion::pwhash::PasswordHash::try_from(hash) else {
        return false;
    };
    let Ok(pw) = orion::pwhash::Password::try_from(password) else {
        return false;
    };
    orion::pwhash::hash_password_verify(&stored, &pw).is_ok()
}

/// Relies on `orion::kdf::Salt::generate`: a fresh random salt of 16 bytes;
/// nothing more is known of its value. The call fails only if no random
/// bytes can be drawn.
#[verifier::external_body]
pub fn generate_salt() -> (r: Result<Vec<u8>, CryptoError>)
    ensures
        match r {
            Ok(s) => s@.len() == SALT_LENGTH,
            Err(_) => true,
        },
{
    match orion::kdf::Salt::generate() {
        Ok(s) => Ok(s.as_ref().to_vec()),
        Err(_) => Err(CryptoError::Failed),
    }
}

/// Seals a text message under the key derived from `password` and `salt`.
///
/// On success the ciphertext opens, under the same derived key, to exactly
/// the UTF-8 bytes of `message`. An empty password, a salt shorter than
/// [`MIN_SALT_LENGTH`] bytes or an empty message always fail.
pub fn encrypt_str(message: &str, password: &[u8], salt: &[u8]) -> (r: Result<
    Vec<u8>,
    CryptoError,
>)
    ensures
        match r {
            Ok(ct) => {
                &&& opened(derived_key(password@, salt@), ct@) == Some(encode_utf8(message@))
                &&& ct@.len() == encode_utf8(message@).len() + SEAL_OVERHEAD
            },
            Err(_) => true,
        },
        password@.len() == 0 || password@.len() > MAX_KDF_INPUT_LEN || salt@.len()
            < MIN_SALT_LENGTH || salt@.len() > MAX_KDF_INPUT_LEN || message@.len() == 0 ==> r
            is Err,
{
    let key = derive_key(password, salt)?;
    proof {
        if message@.len() == 0 {
            assert(encode_utf8(message@).len() == 0);
        }
    }
    seal(key.as_slice(), message.as_bytes())
}

/// Opens a ciphertext under the key derived from `password` and `salt` and
/// returns the plaintext bytes.
///
/// Fails exactly when the key cannot be derived (empty or over-long
/// password, short or over-long salt) or the ciphertext does not
/// authenticate under the derived key — that is, it was tampered with,
/// truncated, or sealed under a different key.
pub fn decrypt_str(ciphertext: &[u8], password: &[u8], salt: &[u8]) -> (r: Result<
    Vec<u8>,
    CryptoError,
>)
    ensures
        match r {
            Ok(pt) => {
                &&& opened(derived_key(password@, salt@), ciphertext@) == Some(pt@)
                &&& password@.len() > 0
                &&& salt@.len() >= MIN_SALT_LENGTH
            },
            Err(_) => password@.len() == 0 || password@.len() > MAX_KDF_INPUT_LEN || salt@.len()
                < MIN_SALT_LENGTH || salt@.len() > MAX_KDF_INPUT_LEN || opened(
                derived_key(password@, salt@),
                ciphertext@,
            ) is None,
        },
{
    let key = derive_key(password, salt)?;
    open(key.as_slice(), ciphertext)
}

} // verus!
