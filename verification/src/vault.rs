use vstd::prelude::*;
use vstd::string::StrSliceExecFns;

use crate::auth::bcrypt_verdict;
use crate::errors::BackupError;
use crate::hashing::blake3_hex;
use crate::hashing::hash_bytes;
use crate::hashing::is_digest;
use crate::hashing::is_hex_char;

verus! {

/// The mathematical value of one content-bearing entry of a snapshot.
pub struct VaultFileV {
    pub file_name: Seq<char>,
    pub file_hash: Seq<char>,
    pub file_path: Seq<char>,
    pub file_size: u64,
    pub vault_paths: Seq<Seq<char>>,
}

/// One content-bearing entry of a snapshot: the display name, the full
/// content digest (the identity of the content), the source path at backup
/// time, the original size, and the vault-relative locations of the stored
/// bytes.
pub struct VaultFile {
    pub file_name: String,
    pub file_hash: String,
    pub file_path: String,
    pub file_size: u64,
    pub vault_paths: Vec<String>,
}

impl View for VaultFile {
    type V = VaultFileV;

    open spec fn view(&self) -> VaultFileV {
        VaultFileV {
            file_name: self.file_name@,
            file_hash: self.file_hash@,
            file_path: self.file_path@,
            file_size: self.file_size,
            vault_paths: self.vault_paths.deep_view(),
        }
    }
}

/// The mathematical value of one snapshot.
pub struct SnapshotV {
    pub snapshot_id: Seq<char>,
    pub snapshot_time: Seq<char>,
    pub snapshot_files: Seq<VaultFileV>,
}

/// One immutable backup point: a unique identifier, the creation time, and
/// the entries in discovery order. Never mutated once appended.
pub struct Snapshot {
    pub snapshot_id: String,
    pub snapshot_time: String,
    pub snapshot_files: Vec<VaultFile>,
}

/// The views of a sequence of entries.
pub open spec fn files_view(files: Seq<VaultFile>) -> Seq<VaultFileV> {
    files.map_values(|f: VaultFile| f@)
}

impl View for Snapshot {
    type V = SnapshotV;

    open spec fn view(&self) -> SnapshotV {
        SnapshotV {
            snapshot_id: self.snapshot_id@,
            snapshot_time: self.snapshot_time@,
            snapshot_files: files_view(self.snapshot_files@),
        }
    }
}

/// The views of the snapshot history.
pub open spec fn snapshots_view(snaps: Seq<Snapshot>) -> Seq<SnapshotV> {
    snaps.map_values(|s: Snapshot| s@)
}

/// The mathematical value of a vault.
pub struct BackupVaultV {
    pub vault_path: Seq<char>,
    pub password: Seq<char>,
    pub snapshots: Seq<SnapshotV>,
    pub files: Seq<VaultFileV>,
}

/// The aggregate root: the vault directory, the password held only in memory,
/// the append-only snapshot history, and the content index spanning all
/// snapshots (one entry per distinct content digest).
pub struct BackupVault {
    pub vault_path: String,
    pub password: String,
    pub snapshots: Vec<Snapshot>,
    pub files: Vec<VaultFile>,
}

impl View for BackupVault {
    type V = BackupVaultV;

    open spec fn view(&self) -> BackupVaultV {
        BackupVaultV {
            vault_path: self.vault_path@,
            password: self.password@,
            snapshots: snapshots_view(self.snapshots@),
            files: files_view(self.files@),
        }
    }
}

/// A stored blob the caller still has to write: the vault-relative blob name
/// (the full content digest) and the bytes to store under it.
pub struct BlobWrite {
    pub blob_name: String,
    pub content: Vec<u8>,
}

/// The mathematical value of a persisted manifest.
pub struct ManifestV {
    pub snapshots: Seq<SnapshotV>,
    pub files: Seq<VaultFileV>,
}

/// What a vault persists: the snapshot history and the content index. The
/// type structurally has no password field, so no secret can ever reach the
/// manifest file.
pub struct VaultManifest {
    pub snapshots: Vec<Snapshot>,
    pub files: Vec<VaultFile>,
}

impl View for VaultManifest {
    type V = ManifestV;

    open spec fn view(&self) -> ManifestV {
        ManifestV {
            snapshots: snapshots_view(self.snapshots@),
            files: files_view(self.files@),
        }
    }
}

/// An indexed entry is well formed when its digest has the full digest shape
/// and its content is stored as a single blob named by that digest.
pub open spec fn entry_wf(f: VaultFileV) -> bool {
    &&& is_digest(f.file_hash)
    &&& f.vault_paths == seq![f.file_hash]
}

/// The content index holds at most one entry per distinct digest — the
/// central dedup invariant — and only well-formed entries.
pub open spec fn index_wf(files: Seq<VaultFileV>) -> bool {
    &&& forall|i: int, j: int|
        #![trigger files[i].file_hash, files[j].file_hash]
        0 <= i < j < files.len() ==> files[i].file_hash != files[j].file_hash
    &&& forall|i: int| 0 <= i < files.len() ==> entry_wf(#[trigger] files[i])
}

/// Whether some indexed entry has the given content digest.
pub open spec fn index_has(files: Seq<VaultFileV>, h: Seq<char>) -> bool {
    exists|i: int| 0 <= i < files.len() && files[i].file_hash == h
}

/// Relies on uuid::Uuid::new_v4 and its hyphenated textual form: a random
/// version-4 identifier rendered as 36 characters.
#[verifier::external_body]
fn fresh_snapshot_id() -> (r: String)
    ensures
        r@.len() == 36,
{
    uuid::Uuid::new_v4().to_string()
}

/// Whether a string has the shape of a full content digest.
pub fn check_digest(s: &String) -> (r: bool)
    ensures
        r == is_digest(s@),
{
    let slice = s.as_str();
    if slice.unicode_len() != 64 {
        return false;
    }
    let mut i: usize = 0;
    while i < 64
        invariant
            i <= 64,
            slice@ == s@,
            s@.len() == 64,
            forall|j: int| 0 <= j < i ==> is_hex_char(#[trigger] s@[j]),
        decreases 64 - i,
    {
        let c = slice.get_char(i);
        let u = c as u32;
        if !((48 <= u && u <= 57) || (97 <= u && u <= 102)) {
            return false;
        }
        i = i + 1;
    }
    true
}

/// Whether an entry is well formed.
pub fn check_entry(f: &VaultFile) -> (r: bool)
    ensures
        r == entry_wf(f@),
{
    if !check_digest(&f.file_hash) {
        return false;
    }
    if f.vault_paths.len() != 1 {
        proof {
            assert(seq![f@.file_hash].len() == 1);
            assert(f@.vault_paths.len() != 1);
        }
        return false;
    }
    let eq = f.vault_paths[0] == f.file_hash;
    proof {
        if eq {
            assert(f@.vault_paths =~= seq![f@.file_hash]);
        } else {
            assert(f@.vault_paths[0] != f@.file_hash);
        }
    }
    eq
}

/// Whether a whole index is well formed: entries well formed and digests
/// pairwise distinct.
pub fn check_index(files: &Vec<VaultFile>) -> (r: bool)
    ensures
        r == index_wf(files_view(files@)),
{
    let mut i: usize = 0;
    while i < files.len()
        invariant
            i <= files@.len(),
            forall|k: int| 0 <= k < i ==> entry_wf(#[trigger] files_view(files@)[k]),
            forall|k: int, l: int|
                #![trigger files_view(files@)[k].file_hash, files_view(files@)[l].file_hash]
                0 <= k < l < files@.len() && l < i ==> files_view(files@)[k].file_hash
                    != files_view(files@)[l].file_hash,
        decreases files@.len() - i,
    {
        if !check_entry(&files[i]) {
            proof {
                assert(files_view(files@)[i as int] == files@[i as int]@);
            }
            return false;
        }
        let mut j: usize = 0;
        while j < i
            invariant
                j <= i,
                i < files@.len(),
                forall|k: int|
                    0 <= k < j ==> files_view(files@)[k].file_hash != files_view(
                        files@,
                    )[i as int].file_hash,
            decreases i - j,
        {
            if files[j].file_hash == files[i].file_hash {
                proof {
                    assert(files_view(files@)[j as int].file_hash == files_view(
                        files@,
                    )[i as int].file_hash);
                }
                return false;
            }
            j = j + 1;
        }
        i = i + 1;
    }
    true
}

impl BackupVault {
    /// The content index is well formed: at most one entry per digest, each
    /// entry storing its content as the single blob named by the digest.
    pub open spec fn wf(&self) -> bool {
        index_wf(self@.files)
    }

    /// A fresh, empty vault bound to a directory and a password.
    pub fn new(vault_path: String, password: String) -> (r: Self)
        ensures
            r@.vault_path == vault_path@,
            r@.password == password@,
            r@.snapshots == Seq::<SnapshotV>::empty(),
            r@.files == Seq::<VaultFileV>::empty(),
            r.wf(),
    {
        let r = BackupVault { vault_path, password, snapshots: vec![], files: vec![] };
        proof {
            assert(r@.snapshots =~= Seq::<SnapshotV>::empty());
            assert(r@.files =~= Seq::<VaultFileV>::empty());
        }
        r
    }

    /// Looks the digest up in the content index.
    fn find_by_hash(&self, file_hash: &String) -> (r: Option<usize>)
        ensures
            r matches Some(i) ==> i < self@.files.len() && self@.files[i as int].file_hash
                == file_hash@,
            r is None ==> !index_has(self@.files, file_hash@),
    {
        let mut i: usize = 0;
        while i < self.files.len()
            invariant
                i <= self@.files.len(),
                forall|j: int| 0 <= j < i ==> (#[trigger] self@.files[j]).file_hash != file_hash@,
            decreases self@.files.len() - i,
        {
            if self.files[i].file_hash == *file_hash {
                return Some(i);
            }
            i = i + 1;
        }
        None
    }

    /// Whether content with this digest is already stored in the vault.
    pub fn has_content(&self, file_hash: &String) -> (r: bool)
        ensures
            r == index_has(self@.files, file_hash@),
    {
        match self.find_by_hash(file_hash) {
            Some(_) => true,
            None => false,
        }
    }

    /// Resolves one file's content against the content index and returns its
    /// snapshot entry. On a hit nothing changes and the stored location is
    /// reused verbatim; on a miss (`r.1` is true, and only then) the entry is
    /// recorded in the index, and the caller must store the content bytes
    /// under the blob name `file_hash` — once per distinct digest, ever.
    pub fn add_content(
        &mut self,
        file_name: String,
        file_hash: String,
        file_path: String,
        file_size: u64,
    ) -> (r: (VaultFile, bool))
        requires
            old(self).wf(),
            is_digest(file_hash@),
        ensures
            final(self).wf(),
            ({
                let (entry, fresh) = r;
                &&& entry@.file_name == file_name@
                &&& entry@.file_hash == file_hash@
                &&& entry@.file_path == file_path@
                &&& entry@.file_size == file_size
                &&& entry_wf(entry@)
                &&& fresh == !index_has(old(self)@.files, file_hash@)
                &&& (fresh ==> final(self)@.files == old(self)@.files.push(entry@))
                &&& (!fresh ==> final(self)@.files == old(self)@.files)
            }),
            final(self)@.snapshots == old(self)@.snapshots,
            final(self)@.vault_path == old(self)@.vault_path,
            final(self)@.password == old(self)@.password,
    {
        let fresh = match self.find_by_hash(&file_hash) {
            Some(_) => false,
            None => true,
        };
        let mut vp: Vec<String> = Vec::new();
        vp.push(file_hash.clone());
        let entry = VaultFile {
            file_name,
            file_hash: file_hash.clone(),
            file_path,
            file_size,
            vault_paths: vp,
        };
        proof {
            assert(entry@.vault_paths =~= seq![file_hash@]);
        }
        if fresh {
            let mut vp2: Vec<String> = Vec::new();
            vp2.push(file_hash.clone());
            let indexed = VaultFile {
                file_name: entry.file_name.clone(),
                file_hash,
                file_path: entry.file_path.clone(),
                file_size,
                vault_paths: vp2,
            };
            proof {
                assert(indexed@.vault_paths =~= seq![indexed@.file_hash]);
                assert(indexed@ == entry@);
            }
            self.files.push(indexed);
            proof {
                assert(files_view(self.files@) =~= files_view(old(self).files@).push(entry@));
                assert forall|i: int, j: int|
                    0 <= i < j < self@.files.len() implies (#[trigger] self@.files[i]).file_hash
                    != (#[trigger] self@.files[j]).file_hash by {
                    if j < self@.files.len() - 1 {
                        assert(old(self)@.files[i].file_hash != old(self)@.files[j].file_hash);
                    } else {
                        assert(!index_has(old(self)@.files, file_hash@));
                        assert(old(self)@.files[i].file_hash != file_hash@);
                    }
                }
            }
        }
        (entry, fresh)
    }

    /// Appends one immutable snapshot, assigning it a fresh identifier. The
    /// history is append-only: everything already recorded is unchanged.
    pub fn commit_snapshot(&mut self, snapshot_time: String, entries: Vec<VaultFile>) -> (id:
        String)
        requires
            old(self).wf(),
        ensures
            final(self).wf(),
            final(self)@.files == old(self)@.files,
            final(self)@.vault_path == old(self)@.vault_path,
            final(self)@.password == old(self)@.password,
            id@.len() == 36,
            final(self)@.snapshots == old(self)@.snapshots.push(
                (SnapshotV {
                    snapshot_id: id@,
                    snapshot_time: snapshot_time@,
                    snapshot_files: files_view(entries@),
                }),
            ),
    {
        let id = fresh_snapshot_id();
        let snap = Snapshot {
            snapshot_id: id.clone(),
            snapshot_time,
            snapshot_files: entries,
        };
        self.snapshots.push(snap);
        proof {
            assert(snapshots_view(self.snapshots@) =~= snapshots_view(old(self).snapshots@).push(
                (SnapshotV {
                    snapshot_id: id@,
                    snapshot_time: snapshot_time@,
                    snapshot_files: files_view(entries@),
                }),
            ));
        }
        id
    }

    /// Resolves a snapshot selector: a given identifier selects the first
    /// snapshot bearing it (`SnapshotNotFound` when none does); no identifier
    /// selects the most recently appended snapshot (`NoSnapshots` when the
    /// history is empty).
    #[verifier::loop_isolation(false)]
    pub fn select_snapshot(&self, selector: &Option<String>) -> (r: Result<usize, BackupError>)
        ensures
            match selector {
                Some(id) => {
                    &&& (r matches Ok(i) ==> i < self@.snapshots.len()
                        && self@.snapshots[i as int].snapshot_id == id@ && (forall|j: int|
                        0 <= j < i ==> (#[trigger] self@.snapshots[j]).snapshot_id != id@))
                    &&& (r matches Err(e) ==> e == BackupError::SnapshotNotFound && (forall|
                        j: int,
                    |
                        0 <= j < self@.snapshots.len() ==> (
                        #[trigger] self@.snapshots[j]).snapshot_id != id@))
                },
                None => {
                    &&& (self@.snapshots.len() == 0 ==> r == Err::<usize, BackupError>(
                        BackupError::NoSnapshots,
                    ))
                    &&& (self@.snapshots.len() > 0 ==> (r matches Ok(i) && i + 1
                        == self@.snapshots.len()))
                },
            },
    {
        match selector {
            Some(id) => {
                let mut i: usize = 0;
                while i < self.snapshots.len()
                    invariant
                        i <= self@.snapshots.len(),
                        forall|j: int|
                            0 <= j < i ==> (#[trigger] self@.snapshots[j]).snapshot_id != id@,
                    decreases self@.snapshots.len() - i,
                {
                    if self.snapshots[i].snapshot_id == *id {
                        proof {
                            assert(self@.snapshots[i as int] == self.snapshots@[i as int]@);
                        }
                        return Ok(i);
                    }
                    proof {
                        assert(self@.snapshots[i as int] == self.snapshots@[i as int]@);
                    }
                    i = i + 1;
                }
                Err(BackupError::SnapshotNotFound)
            },
            None => {
                if self.snapshots.len() == 0 {
                    Err(BackupError::NoSnapshots)
                } else {
                    Ok(self.snapshots.len() - 1)
                }
            },
        }
    }

    /// Backs a set of in-memory contents up as one snapshot: hashes each
    /// content, deduplicates against the content index spanning all
    /// snapshots, appends the snapshot, and returns the blobs that must be
    /// stored — exactly one per content digest never seen before this call,
    /// none for a digest already stored.
    pub fn backup_bytes(
        &mut self,
        snapshot_time: String,
        names: &Vec<String>,
        contents: &Vec<Vec<u8>>,
    ) -> (writes: Vec<BlobWrite>)
        requires
            old(self).wf(),
            names@.len() == contents@.len(),
        ensures
            final(self).wf(),
            final(self)@.vault_path == old(self)@.vault_path,
            final(self)@.password == old(self)@.password,
            final(self)@.snapshots.len() == old(self)@.snapshots.len() + 1,
            final(self)@.snapshots.drop_last() == old(self)@.snapshots,
            ({
                let snap = final(self)@.snapshots.last();
                &&& snap.snapshot_time == snapshot_time@
                &&& snap.snapshot_id.len() == 36
                &&& snap.snapshot_files.len() == names@.len()
                &&& forall|i: int|
                    0 <= i < names@.len() ==> {
                        let e = #[trigger] snap.snapshot_files[i];
                        &&& e.file_name == names@[i]@
                        &&& e.file_path == names@[i]@
                        &&& e.file_hash == blake3_hex(contents@[i]@)
                        &&& e.file_size == contents@[i]@.len()
                        &&& entry_wf(e)
                    }
            }),
            forall|h: Seq<char>|
                index_has(old(self)@.files, h) ==> index_has(final(self)@.files, h),
            forall|i: int|
                0 <= i < contents@.len() ==> index_has(
                    final(self)@.files,
                    blake3_hex(#[trigger] contents@[i]@),
                ),
            forall|k: int|
                0 <= k < writes@.len() ==> {
                    let w = #[trigger] writes@[k];
                    &&& w.blob_name@ == blake3_hex(w.content@)
                    &&& !index_has(old(self)@.files, w.blob_name@)
                    &&& exists|i: int|
                        0 <= i < contents@.len() && (#[trigger] contents@[i]@) == w.content@
                },
            forall|k1: int, k2: int|
                #![trigger writes@[k1].blob_name, writes@[k2].blob_name]
                0 <= k1 < k2 < writes@.len() ==> writes@[k1].blob_name@ != writes@[k2].blob_name@,
            forall|i: int|
                0 <= i < contents@.len() && !index_has(
                    old(self)@.files,
                    blake3_hex(#[trigger] contents@[i]@),
                ) ==> exists|k: int|
                    0 <= k < writes@.len() && (#[trigger] writes@[k].blob_name@) == blake3_hex(
                        contents@[i]@,
                    ),
    {
        let mut entries: Vec<VaultFile> = Vec::new();
        let mut writes: Vec<BlobWrite> = Vec::new();
        let mut i: usize = 0;
        while i < names.len()
            invariant
                old(self).wf(),
                names@.len() == contents@.len(),
                i <= names@.len(),
                self.wf(),
                self@.vault_path == old(self)@.vault_path,
                self@.password == old(self)@.password,
                self@.snapshots == old(self)@.snapshots,
                entries@.len() == i,
                forall|j: int|
                    0 <= j < i ==> {
                        let e = #[trigger] files_view(entries@)[j];
                        &&& e.file_name == names@[j]@
                        &&& e.file_path == names@[j]@
                        &&& e.file_hash == blake3_hex(contents@[j]@)
                        &&& e.file_size == contents@[j]@.len()
                        &&& entry_wf(e)
                    },
                forall|h: Seq<char>| index_has(old(self)@.files, h) ==> index_has(self@.files, h),
                forall|j: int|
                    0 <= j < i ==> index_has(self@.files, blake3_hex(#[trigger] contents@[j]@)),
                forall|k: int|
                    0 <= k < writes@.len() ==> {
                        let w = #[trigger] writes@[k];
                        &&& w.blob_name@ == blake3_hex(w.content@)
                        &&& !index_has(old(self)@.files, w.blob_name@)
                        &&& index_has(self@.files, w.blob_name@)
                        &&& exists|j: int|
                            0 <= j < contents@.len() && (#[trigger] contents@[j]@) == w.content@
                    },
                forall|k1: int, k2: int|
                    #![trigger writes@[k1].blob_name, writes@[k2].blob_name]
                    0 <= k1 < k2 < writes@.len() ==> writes@[k1].blob_name@
                        != writes@[k2].blob_name@,
                forall|h: Seq<char>|
                    #![trigger index_has(self@.files, h)]
                    index_has(self@.files, h) && !index_has(old(self)@.files, h) ==> exists|k: int|
                        0 <= k < writes@.len() && (#[trigger] writes@[k].blob_name@) == h,
            decreases names@.len() - i,
        {
            let content = &contents[i];
            let file_hash = hash_bytes(content.as_slice());
            let name = names[i].clone();
            let path = names[i].clone();
            let ghost pre_files = self@.files;
            let ghost pre_writes = writes@;
            let (entry, fresh) = self.add_content(name, file_hash.clone(), path, content.len() as u64);
            proof {
                if fresh {
                    assert forall|h: Seq<char>| index_has(pre_files, h) implies index_has(
                        self@.files,
                        h,
                    ) by {
                        let x = choose|x: int|
                            0 <= x < pre_files.len() && pre_files[x].file_hash == h;
                        assert(self@.files[x] == pre_files[x]);
                    }
                    assert(self@.files[pre_files.len() as int] == entry@);
                    assert(index_has(self@.files, entry@.file_hash));
                }
            }
            if fresh {
                let mut copied: Vec<u8> = Vec::new();
                crate::codec::extend_bytes(&mut copied, content.as_slice());
                proof {
                    assert(copied@ =~= contents@[i as int]@);
                }
                writes.push(BlobWrite { blob_name: file_hash, content: copied });
                proof {
                    assert(writes@.drop_last() == pre_writes);
                    assert(writes@.last().blob_name@ == entry@.file_hash);
                    assert forall|k: int| 0 <= k < writes@.len() - 1 implies (
                    #[trigger] writes@[k].blob_name)@ != writes@[writes@.len() - 1].blob_name@ by {
                        assert(writes@[k] == pre_writes[k]);
                        assert(index_has(pre_files, pre_writes[k].blob_name@));
                    }
                }
            }
            proof {
                assert forall|h: Seq<char>|
                    index_has(self@.files, h) && !index_has(old(self)@.files, h) implies exists|
                    k: int,
                |
                    0 <= k < writes@.len() && (#[trigger] writes@[k].blob_name@) == h by {
                    let x = choose|x: int|
                        0 <= x < self@.files.len() && self@.files[x].file_hash == h;
                    if x < pre_files.len() {
                        assert(pre_files[x] == self@.files[x]);
                        assert(index_has(pre_files, h));
                        let k = choose|k: int|
                            0 <= k < pre_writes.len() && (#[trigger] pre_writes[k].blob_name@)
                                == h;
                        assert(writes@[k].blob_name@ == h);
                    } else {
                        assert(self@.files == pre_files.push(entry@));
                        assert(h == entry@.file_hash);
                        assert(writes@[writes@.len() - 1].blob_name@ == h);
                    }
                }
            }
            let ghost pre_entries = entries@;
            let ghost eview = entry@;
            entries.push(entry);
            proof {
                assert(forall|j: int| 0 <= j < i ==> entries@[j] == pre_entries[j]);
                assert(entries@[i as int]@ == eview);
                assert(forall|j: int|
                    0 <= j < i ==> files_view(entries@)[j] == files_view(pre_entries)[j]);
                assert(files_view(entries@)[i as int] == eview);
                assert(eview.file_name == names@[i as int]@);
                assert(eview.file_path == names@[i as int]@);
                assert(eview.file_hash == blake3_hex(contents@[i as int]@));
                assert(eview.file_size == contents@[i as int]@.len());
                assert(entry_wf(eview));
                assert forall|j: int| 0 <= j < i + 1 implies {
                    let e = #[trigger] files_view(entries@)[j];
                    &&& e.file_name == names@[j]@
                    &&& e.file_path == names@[j]@
                    &&& e.file_hash == blake3_hex(contents@[j]@)
                    &&& e.file_size == contents@[j]@.len()
                    &&& entry_wf(e)
                } by {
                    if j < i {
                        assert(files_view(entries@)[j] == files_view(pre_entries)[j]);
                    } else {
                        assert(files_view(entries@)[j] == eview);
                    }
                }
            }
            i = i + 1;
        }
        let id = self.commit_snapshot(snapshot_time, entries);
        proof {
            assert(self@.snapshots.drop_last() =~= old(self)@.snapshots);
        }
        writes
    }
}

impl BackupVault {
    /// The bytes to persist as the manifest file: the snapshot history and
    /// the content index, encoded in the manifest format — and nothing else,
    /// in particular never the password, which the manifest value
    /// structurally cannot hold.
    pub fn manifest_bytes(&self) -> (r: Vec<u8>)
        ensures
            r@ == crate::codec::enc_manifest(
                (ManifestV { snapshots: self@.snapshots, files: self@.files }),
            ),
            crate::codec::parse_manifest(r@) == Some(
                (ManifestV { snapshots: self@.snapshots, files: self@.files }),
            ),
    {
        let mut out: Vec<u8> = Vec::new();
        crate::codec::encode_snapshots_field(&mut out, &self.snapshots);
        crate::codec::encode_files_field(&mut out, &self.files);
        proof {
            assert(out@ =~= crate::codec::enc_manifest(
                (ManifestV { snapshots: self@.snapshots, files: self@.files }),
            ));
            crate::codec::lemma_manifest_round_trip(
                (ManifestV { snapshots: self@.snapshots, files: self@.files }),
            );
        }
        out
    }

    /// Opens a vault from the bytes of its config file and manifest file.
    /// The password is verified against the stored hash; `VaultWrongPassword`
    /// comes back exactly when the config parses and the hash verdict is a
    /// mismatch — never for any other reason. Unparsable or ill-formed
    /// config or manifest bytes give `VaultReadError`; with the right
    /// password and a well-formed manifest the vault is returned, populated
    /// with the persisted history and index.
    pub fn open_from_bytes(
        vault_path: String,
        password: String,
        config_bytes: &[u8],
        manifest_bytes: &[u8],
    ) -> (r: Result<BackupVault, BackupError>)
        ensures
            (r == Err::<BackupVault, BackupError>(BackupError::VaultWrongPassword)) <==> (
            crate::codec::parse_config(config_bytes@) matches Some(h) && bcrypt_verdict(
                password@,
                h,
            ) == Some(false)),
            crate::codec::parse_config(config_bytes@) is None ==> r == Err::<
                BackupVault,
                BackupError,
            >(BackupError::VaultReadError),
            r matches Ok(v) ==> {
                &&& v.wf()
                &&& v@.vault_path == vault_path@
                &&& v@.password == password@
                &&& (crate::codec::parse_config(config_bytes@) matches Some(h) && bcrypt_verdict(
                    password@,
                    h,
                ) == Some(true))
                &&& (crate::codec::parse_manifest(manifest_bytes@) matches Some(m) && v@.snapshots
                    == m.snapshots && v@.files == m.files)
            },
            (crate::codec::parse_config(config_bytes@) matches Some(h) && bcrypt_verdict(
                password@,
                h,
            ) == Some(true) && (crate::codec::parse_manifest(manifest_bytes@) matches Some(m)
                && index_wf(m.files))) ==> r is Ok,
            r matches Err(e) ==> (e == BackupError::VaultWrongPassword || e
                == BackupError::VaultReadError),
    {
        let config = match crate::codec::decode_config(config_bytes) {
            Some(c) => c,
            None => {
                return Err(BackupError::VaultReadError);
            },
        };
        let ok = match config.verify_password(password.as_str()) {
            Ok(b) => b,
            Err(e) => {
                return Err(e);
            },
        };
        if !ok {
            return Err(BackupError::VaultWrongPassword);
        }
        let m = match crate::codec::decode_manifest(manifest_bytes) {
            Some(m) => m,
            None => {
                return Err(BackupError::VaultReadError);
            },
        };
        if !check_index(&m.files) {
            return Err(BackupError::VaultReadError);
        }
        Ok(BackupVault { vault_path, password, snapshots: m.snapshots, files: m.files })
    }
}

/// Dedup idempotence: when every content's digest is already in the index —
/// as after backing the very same contents up once before — a backup of those
/// contents must store no new blob. The preconditions are the facts
/// `backup_bytes` ensures of its result.
pub proof fn lemma_dedup_idempotent(
    old_files: Seq<VaultFileV>,
    contents: Seq<Vec<u8>>,
    writes: Seq<BlobWrite>,
)
    requires
        forall|k: int|
            0 <= k < writes.len() ==> exists|i: int|
                0 <= i < contents.len() && (#[trigger] contents[i]@) == (
                #[trigger] writes[k]).content@,
        forall|k: int|
            0 <= k < writes.len() ==> (#[trigger] writes[k]).blob_name@ == blake3_hex(
                writes[k].content@,
            ),
        forall|k: int|
            0 <= k < writes.len() ==> !index_has(old_files, (#[trigger] writes[k]).blob_name@),
        forall|i: int|
            0 <= i < contents.len() ==> index_has(old_files, blake3_hex(#[trigger] contents[i]@)),
    ensures
        writes.len() == 0,
{
    if writes.len() > 0 {
        let w = writes[0];
        let i = choose|i: int| 0 <= i < contents.len() && contents[i]@ == w.content@;
        assert(index_has(old_files, blake3_hex(contents[i]@)));
        assert(w.blob_name@ == blake3_hex(contents[i]@));
        assert(false);
    }
}

/// Round-trip restore: an entry stores its content as the single blob named
/// by the content's digest, so concatenating the stored blobs named by
/// `vault_paths` reproduces the backed-up bytes — provided the digest has no
/// collision between the stored bytes and the backed-up bytes, which is what
/// a collision-resistant digest is chosen for.
pub proof fn lemma_restore_round_trip(
    entry: VaultFileV,
    content: Seq<u8>,
    store: Map<Seq<char>, Seq<u8>>,
)
    requires
        entry_wf(entry),
        entry.file_hash == blake3_hex(content),
        store.contains_key(entry.file_hash),
        blake3_hex(store[entry.file_hash]) == entry.file_hash,
        store[entry.file_hash] != content ==> blake3_hex(store[entry.file_hash]) != blake3_hex(
            content,
        ),
    ensures
        entry.vault_paths.len() == 1,
        store.contains_key(entry.vault_paths[0]),
        seq![store[entry.vault_paths[0]]].flatten() == content,
{
    assert(entry.vault_paths[0] == entry.file_hash);
    assert(store[entry.file_hash] == content);
    seq![store[entry.file_hash]].lemma_flatten_one_element();
    assert(seq![store[entry.file_hash]].first() == store[entry.file_hash]);
}

} // verus!
