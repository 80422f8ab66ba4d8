use backup_vault::decode_config;
use backup_vault::decode_manifest;
use backup_vault::encode_config;
use backup_vault::encode_manifest;
use backup_vault::hash_bytes;
use backup_vault::BackupError;
use backup_vault::BackupVault;
use backup_vault::VaultConfig;
use backup_vault::VaultFile;
use backup_vault::VaultManifest;

fn vault_with_history() -> BackupVault {
    let mut vault = BackupVault::new(String::from("V"), String::from("p1"));
    let names = vec![String::from("a.txt"), String::from("b.txt")];
    let contents = vec![b"hello".to_vec(), b"other".to_vec()];
    vault.backup_bytes(String::from("1700000000"), &names, &contents);
    vault
}

#[test]
fn manifest_codec_round_trip() {
    let vault = vault_with_history();
    let bytes = vault.manifest_bytes();
    let decoded = decode_manifest(&bytes).expect("an encoded manifest must decode");

    assert_eq!(decoded.snapshots.len(), 1);
    assert_eq!(decoded.files.len(), 2);
    let s0 = &decoded.snapshots[0];
    assert_eq!(s0.snapshot_id, vault.snapshots[0].snapshot_id);
    assert_eq!(s0.snapshot_time, "1700000000");
    assert_eq!(s0.snapshot_files.len(), 2);
    for (a, b) in s0.snapshot_files.iter().zip(vault.snapshots[0].snapshot_files.iter()) {
        assert_eq!(a.file_name, b.file_name);
        assert_eq!(a.file_hash, b.file_hash);
        assert_eq!(a.file_path, b.file_path);
        assert_eq!(a.file_size, b.file_size);
        assert_eq!(a.vault_paths, b.vault_paths);
    }
    // re-encoding the decoded manifest reproduces the bytes
    assert_eq!(encode_manifest(&decoded), bytes);
}

#[test]
fn manifest_rejects_garbage() {
    assert!(decode_manifest(b"junk").is_none());
    assert!(decode_manifest(b"").is_none());
    let vault = vault_with_history();
    let bytes = vault.manifest_bytes();
    // truncated
    assert!(decode_manifest(&bytes[..bytes.len() - 1]).is_none());
    // trailing garbage
    let mut longer = bytes.clone();
    longer.push(b'x');
    assert!(decode_manifest(&longer).is_none());
}

#[test]
fn empty_manifest_encoding() {
    // two counts of zero, each as twenty decimal digits
    let m = VaultManifest { snapshots: vec![], files: vec![] };
    let bytes = encode_manifest(&m);
    assert_eq!(bytes, vec![b'0'; 40]);
    let back = decode_manifest(&bytes).unwrap();
    assert!(back.snapshots.is_empty());
    assert!(back.files.is_empty());
}

#[test]
fn config_encoding_is_length_prefixed() {
    let config = VaultConfig { password_hash: String::from("ab") };
    let bytes = encode_config(&config);
    assert_eq!(bytes, b"00000000000000000002ab".to_vec());
}

#[test]
fn config_codec_round_trip() {
    let config = VaultConfig { password_hash: String::from("$2b$12$abcdefghijk") };
    let bytes = encode_config(&config);
    let back = decode_config(&bytes).unwrap();
    assert_eq!(back.password_hash, config.password_hash);
    assert!(decode_config(b"12:not a real length").is_none());
}

#[test]
fn open_with_wrong_password_is_rejected() {
    let vault = vault_with_history();
    let manifest = vault.manifest_bytes();
    let config = VaultConfig::make("p1").unwrap();
    let config_bytes = encode_config(&config);

    let denied = BackupVault::open_from_bytes(
        String::from("V"),
        String::from("wrong"),
        &config_bytes,
        &manifest,
    );
    assert!(matches!(denied, Err(BackupError::VaultWrongPassword)));

    let opened = BackupVault::open_from_bytes(
        String::from("V"),
        String::from("p1"),
        &config_bytes,
        &manifest,
    )
    .expect("the right password must open the vault");
    assert_eq!(opened.snapshots.len(), 1);
    assert_eq!(opened.files.len(), 2);
    assert_eq!(opened.password, "p1");
}

#[test]
fn open_rejects_unparsable_files() {
    let vault = vault_with_history();
    let manifest = vault.manifest_bytes();
    let config = VaultConfig::make("p1").unwrap();
    let config_bytes = encode_config(&config);

    let bad_config = BackupVault::open_from_bytes(
        String::from("V"),
        String::from("p1"),
        b"not a config",
        &manifest,
    );
    assert!(matches!(bad_config, Err(BackupError::VaultReadError)));

    let bad_manifest = BackupVault::open_from_bytes(
        String::from("V"),
        String::from("p1"),
        &config_bytes,
        b"not a manifest",
    );
    assert!(matches!(bad_manifest, Err(BackupError::VaultReadError)));
}

#[test]
fn open_rejects_duplicate_index_entries() {
    let hash = hash_bytes(b"hello");
    let entry = |name: &str| VaultFile {
        file_name: String::from(name),
        file_hash: hash.clone(),
        file_path: String::from(name),
        file_size: 5,
        vault_paths: vec![hash.clone()],
    };
    let manifest = VaultManifest { snapshots: vec![], files: vec![entry("a"), entry("b")] };
    let bytes = encode_manifest(&manifest);
    let config = VaultConfig::make("p1").unwrap();
    let config_bytes = encode_config(&config);
    let r = BackupVault::open_from_bytes(
        String::from("V"),
        String::from("p1"),
        &config_bytes,
        &bytes,
    );
    assert!(matches!(r, Err(BackupError::VaultReadError)));
}

#[test]
fn crash_before_manifest_rename_keeps_old_history() {
    // The manifest is replaced atomically: blobs of a second backup may
    // already be on disk while the manifest file still holds the previous
    // encoding. The vault must then open with the previous history intact.
    let mut vault = vault_with_history();
    let config = VaultConfig::make("p1").unwrap();
    let config_bytes = encode_config(&config);
    let durable_manifest = vault.manifest_bytes();

    // a second backup runs: blobs are written, then the crash comes before
    // the new manifest bytes replace the durable ones
    let names = vec![String::from("c.txt")];
    let contents = vec![b"new content".to_vec()];
    let _blobs_already_written = vault.backup_bytes(String::from("t2"), &names, &contents);
    let _never_persisted = vault.manifest_bytes();

    let reopened = BackupVault::open_from_bytes(
        String::from("V"),
        String::from("p1"),
        &config_bytes,
        &durable_manifest,
    )
    .expect("the previous manifest must still open");
    assert_eq!(reopened.snapshots.len(), 1);
    assert_eq!(reopened.files.len(), 2);
    assert_eq!(reopened.snapshots[0].snapshot_files[0].file_name, "a.txt");
}
