//! Trusted wrappers around the cryptographic primitives the envelope uses:
//! the operating system's random source, PBKDF2-HMAC-SHA256 key derivation,
//! and AES-256-GCM authenticated encryption. Each wrapper's contract states
//! what the underlying crate's source shows; everything built on top of them
//! is verified.

use aes_gcm::aead::{Aead, KeyInit};
use aes_gcm::{Aes256Gcm, Key, Nonce};
use rand::rngs::OsRng;
use rand::RngCore;
use vstd::prelude::*;

verus! {

/// The 32-byte key that PBKDF2-HMAC-SHA256 derives from a password, a salt
/// and a round count: a pure function of those three arguments.
pub uninterp spec fn pbkdf2_key(password: Seq<char>, salt: Seq<u8>, iterations: u32) -> Seq<u8>;

/// The ciphertext-and-tag that AES-256-GCM produces for a key, a nonce and a
/// plaintext: a pure function of those three arguments.
pub uninterp spec fn aes_gcm_seal(key: Seq<u8>, nonce: Seq<u8>, plaintext: Seq<u8>) -> Seq<u8>;

/// Relies on rand's `OsRng::fill_bytes`: fills the buffer from the operating
/// system's cryptographically secure random source. Nothing is promised of
/// the values, only of the length.
#[verifier::external_body]
pub fn random_bytes(n: usize) -> (r: Vec<u8>)
    ensures
        r@.len() == n,
{
    let mut buf = vec![0u8; n];
    OsRng.fill_bytes(&mut buf);
    buf
}

/// Relies on pbkdf2's `pbkdf2_hmac` with sha2's `Sha256`: it fills the output
/// buffer with a value determined by password, salt and round count alone,
/// named `pbkdf2_key` here.
#[verifier::external_body]
pub fn derive_key_bytes(password: &str, salt: &Vec<u8>, iterations: u32) -> (r: Vec<u8>)
    ensures
        r@ == pbkdf2_key(password@, salt@, iterations),
        r@.len() == 32,
{
    let mut key = [0u8; 32];
    pbkdf2::pbkdf2_hmac::<sha2::Sha256>(
        password.as_bytes(),
        salt.as_slice(),
        iterations,
        &mut key,
    );
    key.to_vec()
}

/// Relies on aes_gcm's `Aes256Gcm` `encrypt`: deterministic in key, nonce and
/// plaintext, it appends the 16-byte authentication tag to the ciphertext and
/// fails only when the plaintext exceeds the cipher's message limit, which
/// the precondition rules out.
#[verifier::external_body]
pub fn aead_seal(key: &Vec<u8>, nonce: &Vec<u8>, plaintext: &Vec<u8>) -> (r: Vec<u8>)
    requires
        key@.len() == 32,
        nonce@.len() == 12,
        plaintext@.len() <= 0xFFFF_FFFF,
    ensures
        r@ == aes_gcm_seal(key@, nonce@, plaintext@),
        r@.len() == plaintext@.len() + 16,
{
    let cipher = Aes256Gcm::new(Key::<Aes256Gcm>::from_slice(key.as_slice()));
    cipher.encrypt(Nonce::from_slice(nonce.as_slice()), plaintext.as_slice()).unwrap()
}

/// Relies on aes_gcm's `Aes256Gcm` `decrypt`: it splits off and verifies the
/// trailing 16-byte tag, returns the unique plaintext whose encryption under
/// the same key and nonce equals the ciphertext, and rejects everything else.
#[verifier::external_body]
pub fn aead_open(key: &Vec<u8>, nonce: &Vec<u8>, ciphertext: &Vec<u8>) -> (r: Option<Vec<u8>>)
    requires
        key@.len() == 32,
        nonce@.len() == 12,
    ensures
        r is Some ==> r->0@.len() + 16 == ciphertext@.len() && ciphertext@ == aes_gcm_seal(
            key@,
            nonce@,
            r->0@,
        ),
        forall|p: Seq<u8>|
            p.len() <= 0xFFFF_FFFF && ciphertext@ == #[trigger] aes_gcm_seal(key@, nonce@, p)
                ==> r is Some && r->0@ == p,
{
    let cipher = Aes256Gcm::new(Key::<Aes256Gcm>::from_slice(key.as_slice()));
    cipher.decrypt(Nonce::from_slice(nonce.as_slice()), ciphertext.as_slice()).ok()
}

} // verus!
