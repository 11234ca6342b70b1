use secure_vault::crypto::{
    decrypt, derive_key, encrypt, generate_nonce, generate_salt, verify_password, CryptoError,
    KdfParams, SecureKey, KEY_SIZE, NONCE_SIZE, SALT_SIZE, TAG_SIZE,
};

fn small_params() -> KdfParams {
    KdfParams { memory_cost_kb: 64, time_cost: 1, parallelism: 1 }
}

#[test]
fn test_key_derivation() {
    let password = b"test_password_123";
    let salt = generate_salt().unwrap();
    let params = KdfParams::default();

    let key = derive_key(password, &salt, &params).unwrap();
    assert_eq!(key.as_bytes().len(), KEY_SIZE);
}

#[test]
fn test_encryption_decryption() {
    let key = SecureKey::from_bytes([42u8; KEY_SIZE]);
    let nonce = generate_nonce().unwrap();
    let plaintext = b"Hello, World!";

    let ciphertext = encrypt(&key, &nonce, plaintext).unwrap();
    assert_ne!(ciphertext.as_slice(), plaintext);

    let decrypted = decrypt(&key, &nonce, &ciphertext).unwrap();
    assert_eq!(decrypted.as_slice(), plaintext);
}

#[test]
fn test_tampering_detection() {
    let key = SecureKey::from_bytes([42u8; KEY_SIZE]);
    let nonce = generate_nonce().unwrap();
    let plaintext = b"Secret data";

    let mut ciphertext = encrypt(&key, &nonce, plaintext).unwrap();

    ciphertext[0] ^= 1;

    let result = decrypt(&key, &nonce, &ciphertext);
    assert!(result.is_err());
}

#[test]
fn test_password_verification() {
    let password = b"correct_password";
    let salt = generate_salt().unwrap();
    let params = KdfParams::default();

    let key = derive_key(password, &salt, &params).unwrap();

    assert!(verify_password(password, &salt, &key, &params).unwrap());
    assert!(!verify_password(b"wrong_password", &salt, &key, &params).unwrap());
}

#[test]
fn default_params_are_64_mib_3_passes_4_lanes() {
    let p = KdfParams::default();
    assert_eq!(p, KdfParams { memory_cost_kb: 65536, time_cost: 3, parallelism: 4 });
}

#[test]
fn key_round_trips_through_bytes() {
    let bytes = [7u8; KEY_SIZE];
    let key = SecureKey::from_bytes(bytes);
    assert_eq!(key.as_bytes(), &bytes);
}

#[test]
fn derivation_is_deterministic_and_depends_on_password_and_salt() {
    let params = small_params();
    let salt = [1u8; SALT_SIZE];
    let a = derive_key(b"alpha", &salt, &params).unwrap();
    let b = derive_key(b"alpha", &salt, &params).unwrap();
    let c = derive_key(b"beta", &salt, &params).unwrap();
    let d = derive_key(b"alpha", &[2u8; SALT_SIZE], &params).unwrap();
    assert_eq!(a.as_bytes(), b.as_bytes());
    assert_ne!(a.as_bytes(), c.as_bytes());
    assert_ne!(a.as_bytes(), d.as_bytes());
    assert_ne!(&a.as_bytes()[..5], b"alpha");
}

#[test]
fn derivation_rejects_invalid_parameters() {
    let salt = [0u8; SALT_SIZE];
    let cases = [
        KdfParams { memory_cost_kb: 7, time_cost: 1, parallelism: 1 },
        KdfParams { memory_cost_kb: 15, time_cost: 1, parallelism: 2 },
        KdfParams { memory_cost_kb: 64, time_cost: 0, parallelism: 1 },
        KdfParams { memory_cost_kb: 64, time_cost: 1, parallelism: 0 },
        KdfParams { memory_cost_kb: 0x1000_0000, time_cost: 1, parallelism: 0x100_0000 },
    ];
    for params in cases.iter() {
        match derive_key(b"pw", &salt, params) {
            Err(CryptoError::KeyDerivationFailed(msg)) => assert!(!msg.is_empty()),
            _ => panic!("expected KeyDerivationFailed"),
        }
    }
    assert!(derive_key(b"pw", &salt, &KdfParams { memory_cost_kb: 16, time_cost: 1, parallelism: 2 }).is_ok());
}

#[test]
fn ciphertext_is_tag_longer_and_depends_on_key_and_nonce() {
    let key = SecureKey::from_bytes([3u8; KEY_SIZE]);
    let other = SecureKey::from_bytes([4u8; KEY_SIZE]);
    let nonce = [9u8; NONCE_SIZE];
    let c1 = encrypt(&key, &nonce, b"abc").unwrap();
    assert_eq!(c1.len(), 3 + TAG_SIZE);
    let c2 = encrypt(&other, &nonce, b"abc").unwrap();
    let c3 = encrypt(&key, &[8u8; NONCE_SIZE], b"abc").unwrap();
    assert_ne!(c1, c2);
    assert_ne!(c1, c3);
    assert_eq!(encrypt(&key, &nonce, b"abc").unwrap(), c1);
    assert!(matches!(decrypt(&other, &nonce, &c1), Err(CryptoError::DecryptionFailed)));
    assert!(matches!(decrypt(&key, &nonce, &c1[..10]), Err(CryptoError::DecryptionFailed)));
    let empty = encrypt(&key, &nonce, b"").unwrap();
    assert_eq!(empty.len(), TAG_SIZE);
    assert_eq!(decrypt(&key, &nonce, &empty).unwrap(), Vec::<u8>::new());
}

#[test]
fn salts_and_nonces_are_fresh() {
    assert_ne!(generate_salt().unwrap(), generate_salt().unwrap());
    assert_ne!(generate_nonce().unwrap(), generate_nonce().unwrap());
}

#[test]
fn verify_password_with_foreign_key_is_false() {
    let params = small_params();
    let salt = [5u8; SALT_SIZE];
    let key = SecureKey::from_bytes([0u8; KEY_SIZE]);
    assert!(!verify_password(b"anything", &salt, &key, &params).unwrap());
    let bad = KdfParams { memory_cost_kb: 1, time_cost: 1, parallelism: 1 };
    assert!(matches!(verify_password(b"x", &salt, &key, &bad), Err(CryptoError::KeyDerivationFailed(_))));
}

#[test]
fn decrypted_plaintext_reencrypts_to_the_ciphertext() {
    let key = SecureKey::from_bytes([9u8; KEY_SIZE]);
    let nonce = [4u8; NONCE_SIZE];
    let ciphertext = encrypt(&key, &nonce, b"round trip").unwrap();
    let plaintext = decrypt(&key, &nonce, &ciphertext).unwrap();
    assert_eq!(ciphertext.len(), plaintext.len() + TAG_SIZE);
    assert_eq!(encrypt(&key, &nonce, &plaintext).unwrap(), ciphertext);
    assert!(matches!(decrypt(&key, &nonce, &ciphertext[..TAG_SIZE - 1]), Err(CryptoError::DecryptionFailed)));
}
