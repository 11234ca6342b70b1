use std::collections::HashMap;

use secure_vault::crypto::KdfParams;
use secure_vault::payload::{decode_payload, encode_payload};
use secure_vault::vault::{FileEntry, VaultData, VaultError, VaultMetadata};

fn metadata() -> VaultMetadata {
    VaultMetadata {
        version: 1,
        kdf_params: KdfParams { memory_cost_kb: 65536, time_cost: 3, parallelism: 4 },
        created_at: 1_700_000_000,
    }
}

fn entry(name: &str, data: &[u8]) -> (String, FileEntry) {
    (name.to_string(), FileEntry { name: name.to_string(), size: data.len() as u64, data: data.to_vec() })
}

type Wire = (u32, (u32, u32, u32), u64, HashMap<String, (String, u64, Vec<u8>)>);

fn wire(files: &[(&str, &[u8])]) -> Wire {
    let mut map = HashMap::new();
    for (n, d) in files {
        map.insert(n.to_string(), (n.to_string(), d.len() as u64, d.to_vec()));
    }
    (1, (65536, 3, 4), 1_700_000_000, map)
}

#[test]
fn encoding_matches_bincode() {
    let data = VaultData { metadata: metadata(), files: vec![entry("notes.txt", b"hello")] };
    let expected = bincode::serialize(&wire(&[("notes.txt", b"hello")])).unwrap();
    assert_eq!(encode_payload(&data), expected);
    let empty = VaultData { metadata: metadata(), files: vec![] };
    assert_eq!(encode_payload(&empty), bincode::serialize(&wire(&[])).unwrap());
}

#[test]
fn decodes_what_bincode_writes() {
    let bytes = bincode::serialize(&wire(&[("a.txt", b"A"), ("b.txt", b"BB")])).unwrap();
    let data = decode_payload(&bytes).unwrap();
    assert_eq!(data.metadata, metadata());
    assert_eq!(data.files.len(), 2);
    let mut names: Vec<&str> = data.files.iter().map(|(k, _)| k.as_str()).collect();
    names.sort();
    assert_eq!(names, vec!["a.txt", "b.txt"]);
    for (k, e) in data.files.iter() {
        assert_eq!(k, &e.name);
        assert_eq!(e.size as usize, e.data.len());
    }
}

#[test]
fn round_trip_keeps_order_and_contents() {
    let data = VaultData {
        metadata: metadata(),
        files: vec![entry("z", b""), entry("ü", &[0, 255, 7]), entry("m", b"middle")],
    };
    let back = decode_payload(&encode_payload(&data)).unwrap();
    assert_eq!(back.metadata, data.metadata);
    assert_eq!(back.files.len(), 3);
    for i in 0..3 {
        assert_eq!(back.files[i].0, data.files[i].0);
        assert_eq!(back.files[i].1.name, data.files[i].1.name);
        assert_eq!(back.files[i].1.size, data.files[i].1.size);
        assert_eq!(back.files[i].1.data, data.files[i].1.data);
    }
}

#[test]
fn later_duplicate_replaces_earlier() {
    let data = VaultData { metadata: metadata(), files: vec![entry("a", b"1"), entry("b", b"2"), entry("a", b"3")] };
    let back = decode_payload(&encode_payload(&data)).unwrap();
    assert_eq!(back.files.len(), 2);
    assert_eq!(back.files[0].0, "a");
    assert_eq!(back.files[0].1.data, b"3");
    assert_eq!(back.files[1].0, "b");
}

#[test]
fn malformed_payloads_are_serialization_errors() {
    let data = VaultData { metadata: metadata(), files: vec![entry("a", b"xyz")] };
    let bytes = encode_payload(&data);
    for cut in [0usize, 10, 24, 31, bytes.len() - 1] {
        assert!(matches!(decode_payload(&bytes[..cut]), Err(VaultError::Serialization(_))));
    }
    let mut bad_utf8 = bytes.clone();
    bad_utf8[40] = 0xff;
    assert!(matches!(decode_payload(&bad_utf8), Err(VaultError::Serialization(_))));
    let mut longer = bytes.clone();
    longer.extend_from_slice(&[1, 2, 3]);
    assert_eq!(decode_payload(&longer).unwrap().files.len(), 1);
}
