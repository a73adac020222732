use aes_gcm::aead::Aead;
use aes_gcm::KeyInit;
use base64::Engine;
use cyu_calendar::codec::{CodecError, Encrypter};

fn key_a() -> Vec<u8> {
    vec![7u8; 32]
}

fn key_b() -> Vec<u8> {
    vec![8u8; 32]
}

#[test]
fn new_accepts_only_256_bit_keys() {
    assert!(Encrypter::new(vec![0u8; 32]).is_some());
    assert!(Encrypter::new(vec![0u8; 31]).is_none());
    assert!(Encrypter::new(vec![0u8; 33]).is_none());
    assert!(Encrypter::new(Vec::new()).is_none());
}

#[test]
fn round_trip_recovers_credentials() {
    let enc = Encrypter::new(key_a()).unwrap();
    let token = enc.encrypt("alice", "s3cret!");
    let (user, pass) = enc.decrypt(&token).unwrap();
    assert_eq!(user, "alice");
    assert_eq!(pass, "s3cret!");
}

#[test]
fn round_trip_with_empty_parts() {
    let enc = Encrypter::new(key_a()).unwrap();
    let token = enc.encrypt("", "");
    let (user, pass) = enc.decrypt(&token).unwrap();
    assert_eq!(user, "");
    assert_eq!(pass, "");
}

#[test]
fn round_trip_keeps_colons_in_password() {
    let enc = Encrypter::new(key_a()).unwrap();
    let token = enc.encrypt("bob", "a:b:c");
    let (user, pass) = enc.decrypt(&token).unwrap();
    assert_eq!(user, "bob");
    assert_eq!(pass, "a:b:c");
}

#[test]
fn username_with_colon_is_misread_as_documented() {
    // The plaintext splits at its first `:`; a username holding one is a
    // documented precondition violation, not an error.
    let enc = Encrypter::new(key_a()).unwrap();
    let token = enc.encrypt("a:b", "c");
    let (user, pass) = enc.decrypt(&token).unwrap();
    assert_eq!(user, "a");
    assert_eq!(pass, "b:c");
}

#[test]
fn two_encryptions_never_repeat() {
    let enc = Encrypter::new(key_a()).unwrap();
    let one = enc.encrypt("alice", "pw");
    let two = enc.encrypt("alice", "pw");
    assert_ne!(one, two);
}

#[test]
fn decrypt_rejects_empty_input() {
    let enc = Encrypter::new(key_a()).unwrap();
    assert_eq!(enc.decrypt("").unwrap_err(), CodecError::Truncated);
}

#[test]
fn decrypt_rejects_invalid_base64() {
    let enc = Encrypter::new(key_a()).unwrap();
    assert_eq!(enc.decrypt("!!!not base64!!!").unwrap_err(), CodecError::Base64);
    // Padding is not part of the token alphabet either.
    assert_eq!(enc.decrypt("QUJD==").unwrap_err(), CodecError::Base64);
}

#[test]
fn decrypt_rejects_short_valid_base64() {
    let enc = Encrypter::new(key_a()).unwrap();
    // Eleven bytes of valid base64url: one byte short of a nonce.
    assert_eq!(enc.decrypt("AAAAAAAAAAAAAAA").unwrap_err(), CodecError::Truncated);
}

#[test]
fn decrypt_rejects_flipped_bit() {
    let enc = Encrypter::new(key_a()).unwrap();
    let token = enc.encrypt("alice", "pw");
    let mut chars: Vec<char> = token.chars().collect();
    let mid = chars.len() / 2;
    chars[mid] = if chars[mid] == 'A' { 'B' } else { 'A' };
    let tampered: String = chars.into_iter().collect();
    assert!(matches!(
        enc.decrypt(&tampered).unwrap_err(),
        CodecError::Crypto | CodecError::Base64 | CodecError::Truncated
    ));
}

#[test]
fn decrypt_rejects_other_key() {
    let enc = Encrypter::new(key_a()).unwrap();
    let other = Encrypter::new(key_b()).unwrap();
    let token = enc.encrypt("alice", "pw");
    assert_eq!(other.decrypt(&token).unwrap_err(), CodecError::Crypto);
}

#[test]
fn decrypt_rejects_plaintext_without_separator() {
    // A token sealed by hand over a plaintext with no `:` must fail closed
    // on the separator, not panic.
    let key = key_a();
    let cipher = aes_gcm::Aes256Gcm::new(aes_gcm::Key::<aes_gcm::Aes256Gcm>::from_slice(&key));
    let nonce_bytes = [9u8; 12];
    let nonce = aes_gcm::Nonce::from_slice(&nonce_bytes);
    let sealed = cipher.encrypt(nonce, b"no separator here".as_slice()).unwrap();
    let mut packed = nonce_bytes.to_vec();
    packed.extend_from_slice(&sealed);
    let token = base64::engine::general_purpose::URL_SAFE_NO_PAD.encode(&packed);
    let enc = Encrypter::new(key).unwrap();
    assert_eq!(enc.decrypt(&token).unwrap_err(), CodecError::Separator);
}

#[test]
fn token_shape_is_nonce_then_ciphertext() {
    // The token must decode, as unpadded base64url, to twelve nonce bytes
    // followed by the sealing of `username:password` under this key.
    let key = key_a();
    let enc = Encrypter::new(key.clone()).unwrap();
    let token = enc.encrypt("alice", "pw");
    let packed = base64::engine::general_purpose::URL_SAFE_NO_PAD.decode(&token).unwrap();
    assert!(packed.len() > 12);
    let cipher = aes_gcm::Aes256Gcm::new(aes_gcm::Key::<aes_gcm::Aes256Gcm>::from_slice(&key));
    let nonce = aes_gcm::Nonce::from_slice(&packed[..12]);
    let plain = cipher.decrypt(nonce, &packed[12..]).unwrap();
    assert_eq!(plain, b"alice:pw");
}

#[test]
fn try_encrypt_accepts_ordinary_credentials() {
    let enc = Encrypter::new(key_a()).unwrap();
    let token = enc.try_encrypt("alice", "pw").unwrap();
    let (user, pass) = enc.decrypt(&token).unwrap();
    assert_eq!(user, "alice");
    assert_eq!(pass, "pw");
}

#[test]
fn encrypt_then_decrypt_helper_round_trips() {
    let enc = Encrypter::new(key_a()).unwrap();
    let (user, pass) = enc.encrypt_then_decrypt("carol", "pw2").unwrap();
    assert_eq!(user, "carol");
    assert_eq!(pass, "pw2");
}
