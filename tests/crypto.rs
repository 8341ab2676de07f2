use mc_connect_core::crypto::{
    create_generator, AesGcmEngine, Algorithm, CryptoError, CryptoKeyPair, Encryptor,
    KeyGenerator, RsaKeyGenerator, RsaKeyPair, Signer, SymmetricCrypto,
};
use mc_connect_core::session::{accept_unwrapped_key, HandshakeError};
use mc_connect_core::wire::{Protocol, SecureConnectPayload};
use std::collections::HashSet;

fn small_pair() -> RsaKeyPair {
    RsaKeyGenerator { bits: 1024 }.generate().unwrap()
}

#[test]
fn aes_open_of_seal_gives_the_message() {
    let e = AesGcmEngine::new_random();
    for msg in [vec![], b"Hello".to_vec(), vec![0xAB; 8192]] {
        let sealed = e.seal(&msg).unwrap();
        assert_eq!(sealed.len(), msg.len() + 12 + 16);
        assert_eq!(e.open(&sealed).unwrap(), msg);
        assert_eq!(SymmetricCrypto::decrypt(&e, &SymmetricCrypto::encrypt(&e, &msg).unwrap()).unwrap(), msg);
    }
}

#[test]
fn aes_short_ciphertext_rejected() {
    let e = AesGcmEngine::new_random();
    for n in 0..12 {
        assert_eq!(e.open(&vec![0u8; n]).unwrap_err(), CryptoError::CiphertextTooShort);
    }
    assert_eq!(e.open(&[0u8; 12]).unwrap_err(), CryptoError::AuthenticationFailed);
}

#[test]
fn aes_tampered_ciphertext_rejected() {
    let e = AesGcmEngine::new_random();
    let sealed = e.seal(b"Hello").unwrap();
    for i in 0..sealed.len() {
        let mut t = sealed.clone();
        t[i] ^= 0x01;
        assert_eq!(e.open(&t).unwrap_err(), CryptoError::AuthenticationFailed);
    }
}

#[test]
fn aes_other_key_rejected() {
    let a = AesGcmEngine::new_random();
    let b = AesGcmEngine::new_random();
    assert_ne!(a.key_bytes(), b.key_bytes());
    assert_eq!(b.open(&a.seal(b"x").unwrap()).unwrap_err(), CryptoError::AuthenticationFailed);
}

#[test]
fn aes_from_key_requires_32_bytes() {
    for n in [0usize, 16, 31, 33, 64] {
        assert_eq!(AesGcmEngine::from_key(&vec![7u8; n]).err().unwrap(), CryptoError::InvalidKeyLength);
    }
    let k = [9u8; 32];
    let e = AesGcmEngine::from_key(&k).unwrap();
    assert_eq!(e.key_bytes(), k.to_vec());
    let f = AesGcmEngine::from_key(&k).unwrap();
    assert_eq!(f.open(&e.seal(b"same key").unwrap()).unwrap(), b"same key".to_vec());
}

#[test]
fn aes_known_answer() {
    // AES-256-GCM, all-zero key and nonce, empty plaintext: the tag alone
    let e = AesGcmEngine::from_key(&[0u8; 32]).unwrap();
    let mut sealed = vec![0u8; 12];
    sealed.extend_from_slice(&[
        0x53, 0x0f, 0x8a, 0xfb, 0xc7, 0x45, 0x36, 0xb9, 0xa9, 0x63, 0xb4, 0xf1, 0xc4, 0xcb, 0x73, 0x8b,
    ]);
    assert_eq!(e.open(&sealed).unwrap(), Vec::<u8>::new());
}

#[test]
fn nonces_do_not_repeat() {
    let e = AesGcmEngine::from_key(&[1u8; 32]).unwrap();
    let mut seen = HashSet::new();
    for _ in 0..100_000 {
        let sealed = e.seal(&[]).unwrap();
        assert!(seen.insert(sealed[..12].to_vec()));
    }
}

#[test]
fn rsa_decrypt_of_encrypt_gives_the_key() {
    let pair = small_pair();
    let public = RsaKeyPair::from_public_der(&pair.public_key_bytes().unwrap()).unwrap();
    for k in [vec![], vec![0x42; 32], vec![0xFF; 117]] {
        let c = public.encrypt(&k).unwrap();
        assert_eq!(c.len(), 128);
        assert_eq!(pair.decrypt(&c).unwrap(), k);
    }
    assert_eq!(public.encrypt(&vec![1u8; 118]).unwrap_err(), CryptoError::RsaEncryptFailed);
    assert_eq!(public.decrypt(&[0u8; 128]).unwrap_err(), CryptoError::MissingPrivateKey);
}

#[test]
fn rsa_der_round_trip() {
    let pair = small_pair();
    let der = pair.private_key_bytes().unwrap();
    let again = RsaKeyPair::from_private_der(&der).unwrap();
    assert_eq!(again.public_key_bytes().unwrap(), pair.public_key_bytes().unwrap());
    assert_eq!(pair.algorithm_name(), "RSA");
    assert_eq!(RsaKeyPair::from_public_der(&[1, 2, 3]).err().unwrap(), CryptoError::KeyDecodingFailed);
    assert_eq!(RsaKeyPair::from_private_der(&[1, 2, 3]).err().unwrap(), CryptoError::KeyDecodingFailed);
}

#[test]
fn rsa_sign_and_verify() {
    let pair = small_pair();
    let sig = pair.sign(b"message").unwrap();
    assert!(pair.verify(b"message", &sig).unwrap());
    assert!(!pair.verify(b"other", &sig).unwrap());
}

#[test]
fn key_generator_defaults_and_bounds() {
    assert_eq!(RsaKeyGenerator::default().bits, 4096);
    assert_eq!(create_generator(Algorithm::Rsa).bits, 4096);
    assert_eq!(RsaKeyGenerator { bits: 512 }.generate().err().unwrap(), CryptoError::UnsupportedKeySize);
    assert_eq!(RsaKeyGenerator { bits: 100000 }.generate().err().unwrap(), CryptoError::UnsupportedKeySize);
}

fn payload() -> SecureConnectPayload {
    SecureConnectPayload { protocol: Protocol::TCP, port: 25565, encrypted_key: vec![], algorithm: "AES-256-GCM".to_string() }
}

#[test]
fn unwrapped_key_of_wrong_length_is_rejected() {
    for n in [0usize, 16, 31, 33] {
        assert_eq!(accept_unwrapped_key(&payload(), Ok(vec![5u8; n])).err().unwrap(), HandshakeError::KeyLengthInvalid);
    }
    assert_eq!(accept_unwrapped_key(&payload(), Err(CryptoError::RsaDecryptFailed)).err().unwrap(), HandshakeError::RsaDecryptFailed);
    let (ctx, proto, port) = accept_unwrapped_key(&payload(), Ok(vec![5u8; 32])).unwrap();
    assert_eq!((proto, port), (Protocol::TCP, 25565));
    assert_eq!(ctx.crypto.unwrap().key_bytes(), vec![5u8; 32]);
}

#[test]
fn keys_travel_as_base64() {
    let pair = small_pair();
    let public_b64 = pair.public_key_b64();
    assert!(public_b64.starts_with("MI"));
    let public = RsaKeyPair::from_public_b64(&public_b64).unwrap();
    assert_eq!(public.public_key_bytes().unwrap(), pair.public_key_bytes().unwrap());
    let private_b64 = pair.private_key_b64().unwrap();
    let again = RsaKeyPair::from_private_b64(&private_b64).unwrap();
    assert_eq!(again.public_key_b64(), public_b64);
    assert_eq!(public.private_key_b64().unwrap_err(), CryptoError::MissingPrivateKey);
    assert_eq!(RsaKeyPair::from_public_b64("not base64!").err().unwrap(), CryptoError::KeyDecodingFailed);
    assert_eq!(RsaKeyPair::from_public_b64("AAAA").err().unwrap(), CryptoError::KeyDecodingFailed);
}
