use secure_vault::container::{VaultContainer, HEADER_SIZE};
use secure_vault::crypto::{decrypt, derive_key, CryptoError, KdfParams, TAG_SIZE};
use secure_vault::vault::{FileEntry, VaultData, VaultError, VaultMetadata, MAGIC_BYTES, VERSION};

fn sample(ct: &[u8]) -> Vec<u8> {
    let mut b = Vec::new();
    b.extend_from_slice(b"SECVAULT");
    b.extend_from_slice(&VERSION.to_le_bytes());
    b.extend_from_slice(&[0x11u8; 32]);
    b.extend_from_slice(&[0x22u8; 12]);
    b.extend_from_slice(&(ct.len() as u64).to_le_bytes());
    b.extend_from_slice(ct);
    b
}

#[test]
fn magic_is_secvault() {
    assert_eq!(&MAGIC_BYTES, b"SECVAULT");
    assert_eq!(HEADER_SIZE, 64);
}

#[test]
fn parse_then_write_gives_the_same_bytes() {
    let bytes = sample(&[1, 2, 3, 4, 5]);
    let c = VaultContainer::from_bytes(&bytes).unwrap();
    assert_eq!(c.to_bytes(), bytes);
}

#[test]
fn trailing_bytes_are_ignored() {
    let bytes = sample(&[9, 9]);
    let mut longer = bytes.clone();
    longer.extend_from_slice(&[7, 7, 7]);
    let c = VaultContainer::from_bytes(&longer).unwrap();
    assert_eq!(c.to_bytes(), bytes);
}

#[test]
fn header_errors_come_in_reading_order() {
    assert!(matches!(VaultContainer::from_bytes(b"SECV"), Err(VaultError::Io(_))));
    assert!(matches!(VaultContainer::from_bytes(b"NOTAVAUL"), Err(VaultError::InvalidFormat)));
    assert!(matches!(VaultContainer::from_bytes(b"NOTAVAULT-and-more"), Err(VaultError::InvalidFormat)));
    assert!(matches!(VaultContainer::from_bytes(b"SECVAULT\x01\x00"), Err(VaultError::Io(_))));
    let mut v2 = sample(&[1]);
    v2[8] = 7;
    match VaultContainer::from_bytes(&v2) {
        Err(VaultError::UnsupportedVersion(v)) => assert_eq!(v, 7),
        _ => panic!("expected UnsupportedVersion"),
    }
    let short = sample(&[1, 2, 3]);
    assert!(matches!(VaultContainer::from_bytes(&short[..40]), Err(VaultError::Io(_))));
    assert!(matches!(VaultContainer::from_bytes(&short[..short.len() - 1]), Err(VaultError::Io(_))));
    let mut huge = sample(&[]);
    huge[56..64].copy_from_slice(&u64::MAX.to_le_bytes());
    assert!(matches!(VaultContainer::from_bytes(&huge), Err(VaultError::Io(_))));
}

#[test]
fn empty_ciphertext_is_a_whole_container() {
    let bytes = sample(&[]);
    assert_eq!(bytes.len(), HEADER_SIZE);
    assert_eq!(VaultContainer::from_bytes(&bytes).unwrap().to_bytes(), bytes);
}

fn small_data(params: KdfParams) -> VaultData {
    VaultData {
        metadata: VaultMetadata { version: VERSION, kdf_params: params, created_at: 42 },
        files: vec![(
            "a.txt".to_string(),
            FileEntry { name: "a.txt".to_string(), size: 3, data: b"abc".to_vec() },
        )],
    }
}

#[test]
fn seal_with_uses_the_given_salt_and_nonce() {
    let params = KdfParams { memory_cost_kb: 64, time_cost: 1, parallelism: 1 };
    let data = small_data(params);
    let salt = [7u8; 32];
    let nonce = [9u8; 12];
    let bytes = VaultContainer::seal_with(&data, b"pw", salt, nonce).unwrap().to_bytes();
    assert_eq!(&bytes[0..8], b"SECVAULT");
    assert_eq!(&bytes[8..12], &VERSION.to_le_bytes());
    assert_eq!(&bytes[12..44], &salt);
    assert_eq!(&bytes[44..56], &nonce);
    let ct = &bytes[HEADER_SIZE..];
    assert_eq!(&bytes[56..64], &(ct.len() as u64).to_le_bytes());
    let key = derive_key(b"pw", &salt, &params).unwrap();
    let plaintext = decrypt(&key, &nonce, ct).unwrap();
    assert_eq!(ct.len(), plaintext.len() + TAG_SIZE);
    let again = VaultContainer::seal_with(&data, b"pw", salt, nonce).unwrap().to_bytes();
    assert_eq!(bytes, again);
}

#[test]
fn seal_with_refuses_invalid_parameters() {
    let data = small_data(KdfParams { memory_cost_kb: 64, time_cost: 0, parallelism: 1 });
    assert!(matches!(
        VaultContainer::seal_with(&data, b"pw", [0u8; 32], [0u8; 12]),
        Err(VaultError::Crypto(CryptoError::KeyDerivationFailed(_)))
    ));
    assert!(matches!(
        VaultContainer::new(&data, b"pw"),
        Err(VaultError::Crypto(CryptoError::KeyDerivationFailed(_)))
    ));
}
