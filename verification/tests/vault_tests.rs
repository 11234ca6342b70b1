use secure_vault::container::VaultContainer;
use secure_vault::crypto::{CryptoError, KdfParams};
use secure_vault::vault::{check_new_password, PasswordProblem, Vault, VaultError};

#[test]
fn test_vault_create_and_save() {
    let password = b"test_password".to_vec();

    let mut vault = Vault::create(password.clone());
    vault.add_file("test.txt".to_string(), b"Hello, World!".to_vec());

    let bytes = vault.save().unwrap();

    let loaded_vault = Vault::open(&bytes, password).unwrap();
    let file = loaded_vault.get_file("test.txt").unwrap();

    assert_eq!(file.data, b"Hello, World!");
}

#[test]
fn test_wrong_password() {
    let password = b"correct_password".to_vec();

    let vault = Vault::create(password);
    let bytes = vault.save().unwrap();

    let result = Vault::open(&bytes, b"wrong_password".to_vec());
    assert!(result.is_err());
}

#[test]
fn test_full_vault_workflow() {
    let password = b"test_password_12345".to_vec();

    let mut vault = Vault::create(password.clone());

    vault.add_file("file1.txt".to_string(), b"Content 1".to_vec());
    vault.add_file("file2.txt".to_string(), b"Content 2".to_vec());

    let bytes = vault.save().unwrap();

    assert!(VaultContainer::from_bytes(&bytes).is_ok());

    let loaded_vault = Vault::open(&bytes, password).unwrap();

    let file1 = loaded_vault.get_file("file1.txt").unwrap();
    assert_eq!(file1.data, b"Content 1");

    let file2 = loaded_vault.get_file("file2.txt").unwrap();
    assert_eq!(file2.data, b"Content 2");

    let files = loaded_vault.list_files();
    assert_eq!(files.len(), 2);
}

#[test]
fn test_wrong_password_fails() {
    let vault = Vault::create(b"correct_password".to_vec());
    let bytes = vault.save().unwrap();

    let result = Vault::open(&bytes, b"wrong_password".to_vec());
    assert!(result.is_err());
}

#[test]
fn test_vault_persistence() {
    let password = b"test_password".to_vec();

    let bytes = {
        let mut vault = Vault::create(password.clone());
        vault.add_file("test.txt".to_string(), b"Test data".to_vec());
        vault.save().unwrap()
    };

    {
        let vault = Vault::open(&bytes, password).unwrap();
        let file = vault.get_file("test.txt").unwrap();
        assert_eq!(file.data, b"Test data");
    }
}

#[test]
fn wrong_password_is_a_decryption_failure() {
    let vault = Vault::create(b"right".to_vec());
    let bytes = vault.save().unwrap();
    match Vault::open(&bytes, b"wrong".to_vec()) {
        Err(VaultError::Crypto(CryptoError::DecryptionFailed)) => {}
        _ => panic!("expected DecryptionFailed"),
    }
}

#[test]
fn add_get_replace_remove() {
    let mut vault = Vault::create(b"pw".to_vec());
    assert!(vault.list_files().is_empty());
    vault.add_file("a".to_string(), b"one".to_vec());
    vault.add_file("b".to_string(), b"two".to_vec());
    vault.add_file("a".to_string(), b"three!".to_vec());
    let files = vault.list_files();
    assert_eq!(files.len(), 2);
    assert_eq!(files[0].name, "a");
    assert_eq!(files[0].data, b"three!");
    assert_eq!(files[0].size, 6);
    assert_eq!(files[1].name, "b");
    let a = vault.get_file("a").unwrap();
    assert_eq!((a.name.as_str(), a.size, a.data.as_slice()), ("a", 6, &b"three!"[..]));
    match vault.get_file("c") {
        Err(VaultError::FileNotFound(n)) => assert_eq!(n, "c"),
        _ => panic!("expected FileNotFound"),
    }
    vault.remove_file("a").unwrap();
    assert!(vault.get_file("a").is_err());
    assert_eq!(vault.get_file("b").unwrap().data, b"two");
    match vault.remove_file("a") {
        Err(VaultError::FileNotFound(n)) => assert_eq!(n, "a"),
        _ => panic!("expected FileNotFound"),
    }
    assert_eq!(vault.list_files().len(), 1);
}

#[test]
fn unicode_names_are_found_exactly() {
    let mut vault = Vault::create(b"pw".to_vec());
    vault.add_file("résumé.pdf".to_string(), vec![1, 2, 3]);
    assert!(vault.get_file("résumé.pdf").is_ok());
    assert!(vault.get_file("resume.pdf").is_err());
    assert!(vault.get_file("résumé.pd").is_err());
}

#[test]
fn changed_password_opens_and_old_does_not() {
    let mut vault = Vault::create(b"old".to_vec());
    vault.add_file("x".to_string(), b"data".to_vec());
    vault.change_password(b"new".to_vec());
    let bytes = vault.save().unwrap();
    assert!(Vault::open(&bytes, b"old".to_vec()).is_err());
    let reopened = Vault::open(&bytes, b"new".to_vec()).unwrap();
    assert_eq!(reopened.get_file("x").unwrap().data, b"data");
}

#[test]
fn saves_differ_but_open_alike() {
    let mut vault = Vault::create(b"pw".to_vec());
    vault.add_file("f".to_string(), b"same".to_vec());
    let b1 = vault.save().unwrap();
    let b2 = vault.save().unwrap();
    assert_ne!(b1, b2);
    assert_eq!(Vault::open(&b1, b"pw".to_vec()).unwrap().get_file("f").unwrap().data, b"same");
    assert_eq!(Vault::open(&b2, b"pw".to_vec()).unwrap().get_file("f").unwrap().data, b"same");
}

#[test]
fn open_reports_header_errors() {
    let vault = Vault::create(b"pw".to_vec());
    let bytes = vault.save().unwrap();
    let mut bad_magic = bytes.clone();
    bad_magic[0] = b'X';
    assert!(matches!(Vault::open(&bad_magic, b"pw".to_vec()), Err(VaultError::InvalidFormat)));
    let mut bad_version = bytes.clone();
    bad_version[8] = 2;
    assert!(matches!(Vault::open(&bad_version, b"pw".to_vec()), Err(VaultError::UnsupportedVersion(2))));
    assert!(matches!(Vault::open(&bytes[..bytes.len() - 1], b"pw".to_vec()), Err(VaultError::Io(_))));
    assert!(matches!(Vault::open(&bytes[..5], b"pw".to_vec()), Err(VaultError::Io(_))));
    let mut tampered = bytes.clone();
    let last = tampered.len() - 1;
    tampered[last] ^= 0x80;
    assert!(matches!(Vault::open(&tampered, b"pw".to_vec()), Err(VaultError::Crypto(CryptoError::DecryptionFailed))));
}

#[test]
fn new_password_checks() {
    assert_eq!(check_new_password(b"abc", b"abc", false), Ok(()));
    assert_eq!(check_new_password(b"abc", b"abd", false), Err(PasswordProblem::Mismatch));
    assert_eq!(check_new_password(b"abc", b"ab", true), Err(PasswordProblem::Mismatch));
    assert_eq!(check_new_password(b"", b"", false), Err(PasswordProblem::Empty));
    assert_eq!(check_new_password(b"", b"", true), Ok(()));
}

#[test]
fn create_at_records_the_clock_seconds() {
    let vault = Vault::create_at(b"pw".to_vec(), Some((1_700_000_000, 999_999_999)));
    assert_eq!(vault.created_at(), 1_700_000_000);
    assert_eq!(vault.kdf_params(), KdfParams::default());
    assert!(vault.list_files().is_empty());
    let before_epoch = Vault::create_at(b"pw".to_vec(), None);
    assert_eq!(before_epoch.created_at(), 0);
}

#[test]
fn create_records_a_time_after_2020() {
    let vault = Vault::create(b"pw".to_vec());
    assert!(vault.created_at() > 1_577_836_800);
}

#[test]
fn every_listed_entry_is_found_under_its_own_name() {
    let mut vault = Vault::create(b"pw".to_vec());
    vault.add_file("x".to_string(), vec![1; 10]);
    vault.add_file("y".to_string(), Vec::new());
    vault.add_file("x".to_string(), vec![2; 3]);
    vault.add_file("z".to_string(), vec![3; 7]);
    vault.remove_file("y").unwrap();
    let bytes = vault.save().unwrap();
    let reopened = Vault::open(&bytes, b"pw".to_vec()).unwrap();
    for v in [&vault, &reopened] {
        let files = v.list_files();
        assert_eq!(files.len(), 2);
        for e in files {
            assert_eq!(e.size, e.data.len() as u64);
            let found = v.get_file(&e.name).unwrap();
            assert_eq!((&found.name, found.size, &found.data), (&e.name, e.size, &e.data));
        }
    }
}

#[test]
fn save_with_writes_the_given_salt_and_nonce_and_opens_again() {
    let mut vault = Vault::create(b"pw".to_vec());
    vault.add_file("f".to_string(), b"content".to_vec());
    let salt = [3u8; 32];
    let nonce = [5u8; 12];
    let bytes = vault.save_with(salt, nonce).unwrap();
    assert_eq!(&bytes[12..44], &salt);
    assert_eq!(&bytes[44..56], &nonce);
    assert_eq!(vault.save_with(salt, nonce).unwrap(), bytes);
    let reopened = Vault::open(&bytes, b"pw".to_vec()).unwrap();
    assert_eq!(reopened.get_file("f").unwrap().data, b"content");
    assert!(!bytes.windows(7).any(|w| w == b"content"));
}
