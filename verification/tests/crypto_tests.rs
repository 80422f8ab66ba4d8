use backup_vault::CryptoError;
use backup_vault::CryptoModule;

use sodiumoxide::crypto::secretbox;

#[test]
fn basic_setup() {
    let key = secretbox::gen_key();
    let nonce = secretbox::gen_nonce();

    let plaintext = b"some data";
    let ciphertext = secretbox::seal(plaintext, &nonce, &key);
    let their_plaintext = secretbox::open(&ciphertext, &nonce, &key).unwrap();

    assert_eq!(plaintext, &their_plaintext[..])
}

#[test]
fn happy_path() {
    let pass = "password12345";
    let pass_u8 = pass.as_bytes();

    let crypto1 = CryptoModule::new(pass_u8).unwrap();
    let plaintext = b"Lorem ipsum dolor sit amet, consectetur adipiscing elit.";
    let ciphertext = crypto1.encrypt(plaintext);

    let byte_array = crypto1.export();

    let crypto2 = CryptoModule::import(pass_u8, &byte_array).unwrap();
    let plaintext2 = crypto2.decrypt(&ciphertext).unwrap_or(Vec::new());

    assert_eq!(plaintext, &plaintext2[..])
}

#[test]
fn wrong_password() {
    let pass = "password12345";
    let pass_u8 = pass.as_bytes();

    let pass2 = "password54321";
    let pass2_u8 = pass2.as_bytes();

    let plaintext = b"Lorem ipsum dolor sit amet, consectetur adipiscing elit.";

    let crypto1 = CryptoModule::new(pass_u8).unwrap();
    let ciphertext = crypto1.encrypt(plaintext);

    let byte_array = crypto1.export();

    let crypto2 = CryptoModule::import(pass2_u8, &byte_array).unwrap();
    let plaintext2 = crypto2.decrypt(&ciphertext);
    let err = plaintext2.expect_err("Decryption should fail");

    assert_eq!(err, CryptoError::DecryptionError)
}

#[test]
fn key_conversion() {
    let key = secretbox::gen_key();
    let key_array = key.0;

    assert_eq!(key, secretbox::Key(key_array));
}

#[test]
fn nonce_conversion() {
    let nonce = secretbox::gen_nonce();
    let nonce_array = nonce.0;

    assert_eq!(nonce, secretbox::Nonce(nonce_array));
}

#[test]
fn ciphertext_is_not_plaintext() {
    let crypto = CryptoModule::new(b"pw").unwrap();
    let plaintext = b"attack at dawn";
    let ciphertext = crypto.encrypt(plaintext);
    assert_eq!(ciphertext.len(), plaintext.len() + 16);
    assert_ne!(&ciphertext[..plaintext.len()], &plaintext[..]);
    let round = crypto.decrypt(&ciphertext).unwrap();
    assert_eq!(&round[..], &plaintext[..]);
}

#[test]
fn tampered_ciphertext_is_rejected() {
    let crypto = CryptoModule::new(b"pw").unwrap();
    let mut ciphertext = crypto.encrypt(b"payload");
    let last = ciphertext.len() - 1;
    ciphertext[last] = ciphertext[last].wrapping_add(1);
    assert_eq!(crypto.decrypt(&ciphertext), Err(CryptoError::DecryptionError));
}

#[test]
fn export_has_no_key_material() {
    let crypto = CryptoModule::new(b"pw").unwrap();
    let exported = crypto.export();
    assert_eq!(exported.len(), 56);
    // the same export re-imported under the same password reproduces the key
    let crypto2 = CryptoModule::import(b"pw", &exported).unwrap();
    let c = crypto.encrypt(b"msg");
    assert_eq!(crypto2.decrypt(&c).unwrap(), b"msg".to_vec());
}
