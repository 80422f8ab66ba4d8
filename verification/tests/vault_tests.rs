use backup_vault::check_digest;
use backup_vault::concat_chunks;
use backup_vault::hash_bytes;
use backup_vault::BackupError;
use backup_vault::BackupVault;
use backup_vault::BlobWrite;

fn fresh_vault() -> BackupVault {
    BackupVault::new(String::from("V"), String::from("p1"))
}

fn lookup_blob(writes: &[BlobWrite], name: &str) -> Vec<u8> {
    for w in writes {
        if w.blob_name == name {
            return w.content.clone();
        }
    }
    panic!("blob {} not stored", name);
}

#[test]
fn two_names_one_content() {
    // Back up a.txt and b.txt, both holding "hello": one stored blob, a
    // snapshot with two entries pointing at it, and both restore to "hello".
    let mut vault = fresh_vault();
    let names = vec![String::from("a.txt"), String::from("b.txt")];
    let contents = vec![b"hello".to_vec(), b"hello".to_vec()];
    let writes = vault.backup_bytes(String::from("t0"), &names, &contents);

    assert_eq!(writes.len(), 1);
    let hash = hash_bytes(b"hello");
    assert_eq!(writes[0].blob_name, hash);
    assert_eq!(writes[0].content, b"hello".to_vec());

    assert_eq!(vault.files.len(), 1);
    assert_eq!(vault.snapshots.len(), 1);
    let snap = &vault.snapshots[0];
    assert_eq!(snap.snapshot_files.len(), 2);
    assert_eq!(snap.snapshot_files[0].file_name, "a.txt");
    assert_eq!(snap.snapshot_files[1].file_name, "b.txt");
    for entry in &snap.snapshot_files {
        assert_eq!(entry.file_hash, hash);
        assert_eq!(entry.vault_paths, vec![hash.clone()]);
        assert_eq!(entry.file_size, 5);
    }

    // persist, reopen with the password, and restore R/a.txt and R/b.txt by
    // concatenating the stored blobs
    let config = backup_vault::VaultConfig::make("p1").unwrap();
    let config_bytes = backup_vault::encode_config(&config);
    let manifest_bytes = vault.manifest_bytes();
    let reopened = BackupVault::open_from_bytes(
        String::from("V"),
        String::from("p1"),
        &config_bytes,
        &manifest_bytes,
    )
    .unwrap();
    let idx = reopened.select_snapshot(&None).unwrap();
    let snap = &reopened.snapshots[idx];
    assert_eq!(snap.snapshot_files.len(), 2);
    for entry in &snap.snapshot_files {
        let mut chunks: Vec<Vec<u8>> = Vec::new();
        for p in &entry.vault_paths {
            chunks.push(lookup_blob(&writes, p));
        }
        let restored = concat_chunks(&chunks);
        assert_eq!(restored, b"hello".to_vec());
    }
}

#[test]
fn dedup_across_backups() {
    // Backing the same content up again, under any name, stores nothing new.
    let mut vault = fresh_vault();
    let names1 = vec![String::from("a.txt")];
    let contents = vec![b"same bytes".to_vec()];
    let first = vault.backup_bytes(String::from("t0"), &names1, &contents);
    assert_eq!(first.len(), 1);

    let names2 = vec![String::from("renamed.txt")];
    let second = vault.backup_bytes(String::from("t1"), &names2, &contents);
    assert_eq!(second.len(), 0);

    assert_eq!(vault.files.len(), 1);
    assert_eq!(vault.snapshots.len(), 2);
    assert_eq!(vault.snapshots[1].snapshot_files[0].file_name, "renamed.txt");
}

#[test]
fn round_trip_restore_distinct_contents() {
    let mut vault = fresh_vault();
    let names = vec![String::from("x.bin"), String::from("y.bin")];
    let contents = vec![vec![0u8, 1, 2, 255], vec![9u8; 1000]];
    let writes = vault.backup_bytes(String::from("t0"), &names, &contents);
    assert_eq!(writes.len(), 2);

    let snap = &vault.snapshots[0];
    for (i, entry) in snap.snapshot_files.iter().enumerate() {
        let mut chunks: Vec<Vec<u8>> = Vec::new();
        for p in &entry.vault_paths {
            chunks.push(lookup_blob(&writes, p));
        }
        assert_eq!(concat_chunks(&chunks), contents[i]);
        // restoring the same snapshot again yields identical bytes
        assert_eq!(concat_chunks(&chunks), concat_chunks(&chunks));
    }
}

#[test]
fn snapshot_selection() {
    let mut vault = fresh_vault();
    assert_eq!(vault.select_snapshot(&None), Err(BackupError::NoSnapshots));

    let names = vec![String::from("a")];
    let contents = vec![b"1".to_vec()];
    vault.backup_bytes(String::from("t0"), &names, &contents);
    let contents2 = vec![b"2".to_vec()];
    vault.backup_bytes(String::from("t1"), &names, &contents2);

    assert_eq!(vault.select_snapshot(&None), Ok(1));
    let id0 = vault.snapshots[0].snapshot_id.clone();
    assert_eq!(vault.select_snapshot(&Some(id0)), Ok(0));
    assert_eq!(
        vault.select_snapshot(&Some(String::from("no-such-id"))),
        Err(BackupError::SnapshotNotFound)
    );
}

#[test]
fn snapshot_ids_are_distinct() {
    let mut vault = fresh_vault();
    let names = vec![String::from("a")];
    let contents = vec![b"1".to_vec()];
    vault.backup_bytes(String::from("t0"), &names, &contents);
    vault.backup_bytes(String::from("t1"), &names, &contents);
    assert_eq!(vault.snapshots[0].snapshot_id.len(), 36);
    assert_ne!(vault.snapshots[0].snapshot_id, vault.snapshots[1].snapshot_id);
}

#[test]
fn digest_shape() {
    let h = hash_bytes(b"hello");
    assert_eq!(h.len(), 64);
    assert_ne!(h, "hello");
    assert_ne!(h, hash_bytes(b"world"));
    assert!(check_digest(&h));
    assert!(!check_digest(&String::from("hello")));
    assert!(!check_digest(&String::from("G").repeat(64)));
    // the digest agrees with the hashing crate itself
    assert_eq!(h, blake3::hash(b"hello").to_hex().to_string());
}
