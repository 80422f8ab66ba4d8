use vstd::prelude::*;

use crate::errors::BackupError;

verus! {

/// What bcrypt's verification routine answers for a password and a stored
/// hash string: `Some(true)` on a match, `Some(false)` on a mismatch, `None`
/// when the stored hash does not parse as a bcrypt hash. A deterministic
/// function of the two strings.
pub uninterp spec fn bcrypt_verdict(pass: Seq<char>, hash: Seq<char>) -> Option<bool>;

/// Relies on bcrypt::hash with the default cost: a fresh salted slow hash of
/// the password, which bcrypt::verify accepts for the same password.
#[verifier::external_body]
fn bcrypt_hash_password(password: &str) -> (r: Option<String>)
    ensures
        r matches Some(h) ==> bcrypt_verdict(password@, h@) == Some(true),
{
    bcrypt::hash(password, bcrypt::DEFAULT_COST).ok()
}

/// Relies on bcrypt::verify: checks the password against a stored hash in
/// constant time; errs exactly when the stored hash is malformed.
#[verifier::external_body]
fn bcrypt_check(password: &str, hash: &str) -> (r: Option<bool>)
    ensures
        r matches Some(b) ==> bcrypt_verdict(password@, hash@) == Some(b),
        r is None ==> bcrypt_verdict(password@, hash@) is None,
{
    bcrypt::verify(password, hash).ok()
}

/// The persisted configuration of a vault: only the salted slow hash of its
/// password, never the password itself.
pub struct VaultConfig {
    pub password_hash: String,
}

impl VaultConfig {
    /// Builds the configuration for a new vault: hashes the password, so that
    /// verification against the stored hash later accepts exactly it.
    pub fn make(password: &str) -> (r: Result<VaultConfig, BackupError>)
        ensures
            r matches Ok(c) ==> bcrypt_verdict(password@, c.password_hash@) == Some(true),
            r matches Err(e) ==> e == BackupError::VaultCreationError,
    {
        match bcrypt_hash_password(password) {
            Some(h) => Ok(VaultConfig { password_hash: h }),
            None => Err(BackupError::VaultCreationError),
        }
    }

    /// Verifies a password against the stored hash. `Ok(b)` is bcrypt's
    /// verdict; `VaultReadError` exactly when the stored hash is malformed.
    pub fn verify_password(&self, password: &str) -> (r: Result<bool, BackupError>)
        ensures
            r matches Ok(b) ==> bcrypt_verdict(password@, self.password_hash@) == Some(b),
            r matches Err(e) ==> e == BackupError::VaultReadError && bcrypt_verdict(
                password@,
                self.password_hash@,
            ) is None,
    {
        match bcrypt_check(password, self.password_hash.as_str()) {
            Some(b) => Ok(b),
            None => Err(BackupError::VaultReadError),
        }
    }
}

} // verus!
