use vstd::prelude::*;
use vstd::slice::slice_to_vec;
use vstd::slice::slice_subrange;
use sodiumoxide::crypto::pwhash;
use sodiumoxide::crypto::secretbox;

use crate::errors::CryptoError;
use crate::codec::extend_bytes;

verus! {

/// Number of bytes in a key-derivation salt.
pub const SALT_LEN: usize = 32;

/// Number of bytes in a secretbox nonce.
pub const NONCE_LEN: usize = 24;

/// Number of bytes in a derived symmetric key.
pub const KEY_LEN: usize = 32;

/// Number of bytes the authentication tag adds to a ciphertext.
pub const MAC_LEN: usize = 16;

/// Number of bytes in an exported context: salt followed by nonce.
pub const EXPORT_LEN: usize = 56;

/// The key that the password-hashing KDF derives from a password and a salt.
/// The derivation is deterministic: the same password and salt always give
/// the same key.
pub uninterp spec fn derived_key(pass: Seq<u8>, salt: Seq<u8>) -> Seq<u8>;

/// The ciphertext (tag included) that authenticated encryption produces for a
/// message under a nonce and key; a deterministic function of the three.
pub uninterp spec fn sealed(m: Seq<u8>, nonce: Seq<u8>, key: Seq<u8>) -> Seq<u8>;

/// What authenticated decryption returns for a ciphertext under a nonce and
/// key: the plaintext when the tag verifies, `None` otherwise.
pub uninterp spec fn opened(c: Seq<u8>, nonce: Seq<u8>, key: Seq<u8>) -> Option<Seq<u8>>;

/// Relies on sodiumoxide::init: readies libsodium; returns whether it succeeded.
#[verifier::external_body]
fn sodium_init() -> bool {
    sodiumoxide::init().is_ok()
}

/// Relies on sodiumoxide::crypto::pwhash::gen_salt: a random salt of SALTBYTES (32) bytes.
#[verifier::external_body]
fn sodium_gen_salt() -> (r: Vec<u8>)
    ensures
        r@.len() == SALT_LEN,
{
    pwhash::gen_salt().0.to_vec()
}

/// Relies on sodiumoxide::crypto::secretbox::gen_nonce: a random nonce of NONCEBYTES (24) bytes.
#[verifier::external_body]
fn sodium_gen_nonce() -> (r: Vec<u8>)
    ensures
        r@.len() == NONCE_LEN,
{
    secretbox::gen_nonce().0.to_vec()
}

/// Relies on sodiumoxide::crypto::pwhash::derive_key with the interactive
/// limits: fills the 32-byte buffer deterministically from password and salt;
/// fails only when libsodium reports a resource failure.
#[verifier::external_body]
fn sodium_derive_key(pass: &[u8], salt: &[u8]) -> (r: Option<Vec<u8>>)
    requires
        salt@.len() == SALT_LEN,
    ensures
        r matches Some(k) ==> k@ == derived_key(pass@, salt@) && k@.len() == KEY_LEN,
{
    let salt = pwhash::Salt::from_slice(salt)?;
    let mut buf = [0u8; 32];
    match pwhash::derive_key(&mut buf, pass, &salt, pwhash::OPSLIMIT_INTERACTIVE, pwhash::MEMLIMIT_INTERACTIVE) {
        Ok(k) => Some(k.to_vec()),
        Err(()) => None,
    }
}

/// Relies on sodiumoxide::crypto::secretbox::seal: seals a message under a
/// nonce and key, appending a 16-byte tag, such that `open` under the same
/// nonce and key returns the message.
#[verifier::external_body]
fn sodium_seal(m: &[u8], nonce: &[u8], key: &[u8]) -> (r: Vec<u8>)
    requires
        nonce@.len() == NONCE_LEN,
        key@.len() == KEY_LEN,
    ensures
        r@ == sealed(m@, nonce@, key@),
        r@.len() == m@.len() + MAC_LEN,
        opened(r@, nonce@, key@) == Some(m@),
{
    let nonce = secretbox::Nonce::from_slice(nonce).unwrap();
    let key = secretbox::Key::from_slice(key).unwrap();
    secretbox::seal(m, &nonce, &key)
}

/// Relies on sodiumoxide::crypto::secretbox::open: verifies the tag and
/// decrypts; returns `None` exactly when verification fails.
#[verifier::external_body]
fn sodium_open(c: &[u8], nonce: &[u8], key: &[u8]) -> (r: Option<Vec<u8>>)
    requires
        nonce@.len() == NONCE_LEN,
        key@.len() == KEY_LEN,
    ensures
        r matches Some(p) ==> opened(c@, nonce@, key@) == Some(p@),
        r is None ==> opened(c@, nonce@, key@) is None,
{
    let nonce = secretbox::Nonce::from_slice(nonce).unwrap();
    let key = secretbox::Key::from_slice(key).unwrap();
    secretbox::open(c, &nonce, &key).ok()
}

/// The mathematical value of a crypto context: its key, nonce and salt bytes.
pub struct CryptoModuleV {
    pub key: Seq<u8>,
    pub nonce: Seq<u8>,
    pub salt: Seq<u8>,
}

/// A symmetric crypto context: a key derived from a password and salt by a
/// memory/CPU-hard KDF, plus the nonce used for sealing. The key is never
/// exported; `export` carries only salt and nonce.
pub struct CryptoModule {
    key: Vec<u8>,
    nonce: Vec<u8>,
    salt: Vec<u8>,
}

impl View for CryptoModule {
    type V = CryptoModuleV;

    closed spec fn view(&self) -> CryptoModuleV {
        CryptoModuleV { key: self.key@, nonce: self.nonce@, salt: self.salt@ }
    }
}

impl CryptoModule {
    /// Field lengths are as the primitives demand, and the key is the one the
    /// KDF derives: it is never an independent secret.
    pub open spec fn wf(&self) -> bool {
        self@.key.len() == KEY_LEN && self@.nonce.len() == NONCE_LEN && self@.salt.len() == SALT_LEN
    }

    /// Creates a context with a fresh random salt and nonce; the key is
    /// derived from the password and that salt.
    pub fn new(pass: &[u8]) -> (r: Result<CryptoModule, CryptoError>)
        ensures
            r matches Ok(c) ==> c.wf() && c@.key == derived_key(pass@, c@.salt),
            r matches Err(e) ==> e == CryptoError::KeyDerivationError,
    {
        if !sodium_init() {
            return Err(CryptoError::KeyDerivationError);
        }
        let salt = sodium_gen_salt();
        let nonce = sodium_gen_nonce();
        match sodium_derive_key(pass, salt.as_slice()) {
            Some(key) => Ok(CryptoModule { key, nonce, salt }),
            None => Err(CryptoError::KeyDerivationError),
        }
    }

    /// Rebuilds a context from a password and an exported salt‖nonce pair.
    /// The key depends only on the password and the imported salt, so the
    /// same password and export always reproduce the key of the exporting
    /// context.
    pub fn import(pass: &[u8], data: &[u8]) -> (r: Result<CryptoModule, CryptoError>)
        requires
            data@.len() == EXPORT_LEN,
        ensures
            r matches Ok(c) ==> c.wf() && c@.salt == data@.take(SALT_LEN as int)
                && c@.nonce == data@.skip(SALT_LEN as int)
                && c@.key == derived_key(pass@, data@.take(SALT_LEN as int)),
            r matches Err(e) ==> e == CryptoError::KeyDerivationError,
    {
        if !sodium_init() {
            return Err(CryptoError::KeyDerivationError);
        }
        let salt = slice_to_vec(slice_subrange(data, 0, SALT_LEN));
        let nonce = slice_to_vec(slice_subrange(data, SALT_LEN, EXPORT_LEN));
        proof {
            assert(data@.subrange(SALT_LEN as int, EXPORT_LEN as int) =~= data@.skip(SALT_LEN as int));
        }
        match sodium_derive_key(pass, salt.as_slice()) {
            Some(key) => Ok(CryptoModule { key, nonce, salt }),
            None => Err(CryptoError::KeyDerivationError),
        }
    }

    /// Exports salt‖nonce as one fixed-size byte vector; the key is excluded.
    pub fn export(&self) -> (r: Vec<u8>)
        requires
            self.wf(),
        ensures
            r@ == self@.salt + self@.nonce,
            r@.len() == EXPORT_LEN,
    {
        let mut out: Vec<u8> = Vec::new();
        extend_bytes(&mut out, self.salt.as_slice());
        extend_bytes(&mut out, self.nonce.as_slice());
        proof {
            assert(Seq::<u8>::empty() + self@.salt + self@.nonce =~= self@.salt + self@.nonce);
        }
        out
    }

    /// Authenticated encryption: seals the plaintext under this context's
    /// nonce and key. Decrypting the result with the same context returns the
    /// plaintext.
    pub fn encrypt(&self, plaintext: &[u8]) -> (r: Vec<u8>)
        requires
            self.wf(),
        ensures
            r@ == sealed(plaintext@, self@.nonce, self@.key),
            r@.len() == plaintext@.len() + MAC_LEN,
            opened(r@, self@.nonce, self@.key) == Some(plaintext@),
    {
        sodium_seal(plaintext, self.nonce.as_slice(), self.key.as_slice())
    }

    /// Authenticated decryption: returns the plaintext exactly when the tag
    /// verifies under this context's nonce and key, and `DecryptionError`
    /// otherwise — never unauthenticated bytes.
    pub fn decrypt(&self, ciphertext: &[u8]) -> (r: Result<Vec<u8>, CryptoError>)
        requires
            self.wf(),
        ensures
            r matches Ok(p) ==> opened(ciphertext@, self@.nonce, self@.key) == Some(p@),
            r matches Err(e) ==> e == CryptoError::DecryptionError
                && opened(ciphertext@, self@.nonce, self@.key) is None,
    {
        match sodium_open(ciphertext, self.nonce.as_slice(), self.key.as_slice()) {
            Some(p) => Ok(p),
            None => Err(CryptoError::DecryptionError),
        }
    }
}

} // verus!
