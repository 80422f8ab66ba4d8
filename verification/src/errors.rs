use vstd::prelude::*;

verus! {

/// Errors of the vault engine.
///
/// `VaultWrongPassword` is kept distinct from every other error so that a
/// caller can branch between "create a new vault" and "abort".
#[derive(Debug, Clone, Copy, PartialEq, Eq, Structural)]
pub enum BackupError {
    VaultDoesNotExist,
    VaultReadError,
    VaultCreationError,
    VaultWrongPassword,
    VaultFileOpenError,
    VaultFileReadError,
    VaultFileCopyError,
    SnapshotNotFound,
    NoSnapshots,
}

/// Errors of the cryptographic context.
#[derive(Debug, Clone, Copy, PartialEq, Eq, Structural)]
pub enum CryptoError {
    DecryptionError,
    KeyDerivationError,
}

} // verus!
