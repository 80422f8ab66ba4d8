mod auth;
mod codec;
mod crypto;
mod errors;
mod hashing;
mod vault;

pub use auth::VaultConfig;
pub use codec::decode_config;
pub use codec::decode_manifest;
pub use codec::encode_config;
pub use codec::encode_manifest;
pub use crypto::CryptoModule;
pub use crypto::CryptoModuleV;
pub use errors::BackupError;
pub use errors::CryptoError;
pub use hashing::hash_bytes;
pub use hashing::ContentHasher;
pub use vault::check_digest;
pub use vault::check_entry;
pub use vault::check_index;
pub use vault::BackupVault;
pub use vault::BackupVaultV;
pub use vault::BlobWrite;
pub use vault::ManifestV;
pub use vault::Snapshot;
pub use vault::SnapshotV;
pub use vault::VaultFile;
pub use vault::VaultFileV;
pub use vault::VaultManifest;

use vstd::prelude::*;

verus! {

/// Concatenates the byte chunks of a stored file, in order, into one buffer.
pub fn concat_chunks(chunks: &Vec<Vec<u8>>) -> (r: Vec<u8>)
    ensures
        r@ == chunks@.map_values(|c: Vec<u8>| c@).flatten(),
{
    let mut out: Vec<u8> = Vec::new();
    let mut i: usize = 0;
    while i < chunks.len()
        invariant
            i <= chunks@.len(),
            out@ == chunks@.take(i as int).map_values(|c: Vec<u8>| c@).flatten(),
        decreases chunks@.len() - i,
    {
        let mut j: usize = 0;
        let chunk = &chunks[i];
        while j < chunk.len()
            invariant
                j <= chunk@.len(),
                chunk == chunks@[i as int],
                i < chunks@.len(),
                out@ == chunks@.take(i as int).map_values(|c: Vec<u8>| c@).flatten() + chunk@.take(j as int),
            decreases chunk@.len() - j,
        {
            out.push(chunk[j]);
            j = j + 1;
        }
        proof {
            assert(chunk@.take(chunk@.len() as int) =~= chunk@);
            assert(chunks@.take(i + 1).map_values(|c: Vec<u8>| c@) =~= chunks@.take(i as int).map_values(|c: Vec<u8>| c@).push(chunk@));
            chunks@.take(i as int).map_values(|c: Vec<u8>| c@).lemma_flatten_push(chunk@);
        }
        i = i + 1;
    }
    proof {
        assert(chunks@.take(chunks@.len() as int) =~= chunks@);
    }
    out
}

} // verus!
