use crypto_journal::crypto::decrypt_str;
use crypto_journal::crypto::derive_key;
use crypto_journal::crypto::encrypt_str;
use crypto_journal::crypto::hash_password;
use crypto_journal::crypto::open;
use crypto_journal::crypto::seal;
use crypto_journal::crypto::verify_password;

const SALT: [u8; 16] = [7u8; 16];

#[test]
fn seal_open_round_trip() {
    let key = derive_key(b"pw", &SALT).unwrap();
    let ct = seal(&key, b"some secret text").unwrap();
    let pt = open(&key, &ct).unwrap();
    assert_eq!(pt, b"some secret text");
    assert_eq!(ct.len(), b"some secret text".len() + 40);
}

#[test]
fn derive_key_is_deterministic() {
    let k1 = derive_key(b"pw", &SALT).unwrap();
    let k2 = derive_key(b"pw", &SALT).unwrap();
    assert_eq!(k1, k2);
    assert_eq!(k1.len(), 32);
}

#[test]
fn derive_key_rejects_empty_password_and_short_salt() {
    assert!(derive_key(b"", &SALT).is_err());
    assert!(derive_key(b"pw", &[1u8; 4]).is_err());
}

#[test]
fn tampering_any_byte_fails_open() {
    let key = derive_key(b"pw", &SALT).unwrap();
    let ct = seal(&key, b"attack at dawn").unwrap();
    for i in 0..ct.len() {
        let mut bad = ct.clone();
        bad[i] ^= 0x01;
        assert!(open(&key, &bad).is_err(), "byte {} went unnoticed", i);
    }
}

#[test]
fn truncated_ciphertext_fails_open() {
    let key = derive_key(b"pw", &SALT).unwrap();
    let ct = seal(&key, b"attack at dawn").unwrap();
    assert!(open(&key, &ct[..ct.len() - 1]).is_err());
    assert!(open(&key, &[]).is_err());
}

#[test]
fn wrong_password_or_salt_fails_open() {
    let ct = encrypt_str("secret", b"right", &SALT).unwrap();
    assert!(decrypt_str(&ct, b"right", &SALT).is_ok());
    assert!(decrypt_str(&ct, b"wrong", &SALT).is_err());
    assert!(decrypt_str(&ct, b"right", &[8u8; 16]).is_err());
}

#[test]
fn encrypt_str_round_trips_text() {
    let ct = encrypt_str("hello\nworld\n", b"p@ss1", &SALT).unwrap();
    let pt = decrypt_str(&ct, b"p@ss1", &SALT).unwrap();
    assert_eq!(String::from_utf8(pt).unwrap(), "hello\nworld\n");
}

#[test]
fn encrypt_str_rejects_empty_message() {
    assert!(encrypt_str("", b"pw", &SALT).is_err());
}

#[test]
fn password_hash_verifies_only_the_right_password() {
    let hash = hash_password(b"p@ss1").unwrap();
    assert!(verify_password(&hash, b"p@ss1"));
    assert!(!verify_password(&hash, b"wrong1"));
    assert!(!verify_password(&hash, b""));
    assert!(!verify_password("not an encoded hash", b"p@ss1"));
}

#[test]
fn two_seals_of_the_same_text_differ() {
    // a fresh random nonce every time: equal plaintexts, different ciphertexts
    let key = derive_key(b"pw", &SALT).unwrap();
    let c1 = seal(&key, b"text").unwrap();
    let c2 = seal(&key, b"text").unwrap();
    assert_ne!(c1, c2);
    assert_eq!(open(&key, &c1).unwrap(), open(&key, &c2).unwrap());
}
