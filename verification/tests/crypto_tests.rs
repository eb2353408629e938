//! Tests for the crypto envelope: round trips, wrong passwords, salt and
//! nonce freshness, tamper rejection, and malformed envelopes.

use base64::engine::general_purpose::STANDARD;
use base64::Engine;
use secrets_manager::crypto::{
    decrypt_payload, decrypt_project, encrypt_payload, encrypt_project, validate_password,
};
use secrets_manager::errors::VaultError;
use secrets_manager::models::{EncryptedProject, Project};

#[test]
fn test_encrypt_decrypt() {
    let mut project = Project::new("test_project".to_string());
    project.add_secret("API_KEY".to_string(), "secret123".to_string());
    project.add_secret("DB_URL".to_string(), "postgres://localhost".to_string());

    let password = "test_password";
    let encrypted = encrypt_project(&project, password).unwrap();
    let decrypted = decrypt_project(&encrypted, password).unwrap();

    assert_eq!(project.name, decrypted.name);
    assert_eq!(project.secrets, decrypted.secrets);
}

#[test]
fn test_wrong_password() {
    let project = Project::new("test_project".to_string());
    let password = "correct_password";
    let encrypted = encrypt_project(&project, password).unwrap();

    assert!(decrypt_project(&encrypted, "wrong_password").is_err());
}

#[test]
fn wrong_password_is_authentication_failure() {
    let mut project = Project::new("auth".to_string());
    project.add_secret("K".to_string(), "V".to_string());
    let encrypted = encrypt_project(&project, "first password").unwrap();
    let err = decrypt_project(&encrypted, "second password").unwrap_err();
    assert_eq!(err, VaultError::AuthenticationFailed);
}

#[test]
fn payload_round_trip() {
    let payload: Vec<u8> = b"arbitrary payload bytes \xf0\x9f\x92\xbb".to_vec();
    let env = encrypt_payload(&payload, "pw").unwrap();
    let back = decrypt_payload(&env, "pw").unwrap();
    assert_eq!(back, payload);
}

#[test]
fn salt_and_nonce_are_fresh_every_time() {
    let mut project = Project::new("fresh".to_string());
    project.add_secret("A".to_string(), "B".to_string());
    let password = "same password";
    let e1 = encrypt_project(&project, password).unwrap();
    let e2 = encrypt_project(&project, password).unwrap();
    assert_ne!(e1.salt, e2.salt);
    assert_ne!(e1.nonce, e2.nonce);
    assert_ne!(e1.encrypted_data, e2.encrypted_data);
}

#[test]
fn envelope_fields_are_base64_of_raw_sizes() {
    let project = Project::new("sizes".to_string());
    let env = encrypt_project(&project, "pw").unwrap();
    assert_eq!(STANDARD.decode(&env.salt).unwrap().len(), 16);
    assert_eq!(STANDARD.decode(&env.nonce).unwrap().len(), 12);
    // ciphertext carries a 16-byte tag beyond the plaintext
    assert!(STANDARD.decode(&env.encrypted_data).unwrap().len() > 16);
}

#[test]
fn tampered_ciphertext_is_rejected() {
    let mut project = Project::new("tamper".to_string());
    project.add_secret("API_KEY".to_string(), "abc123".to_string());
    let env = encrypt_project(&project, "pw").unwrap();

    let ct = STANDARD.decode(&env.encrypted_data).unwrap();
    for pos in [0, ct.len() / 2, ct.len() - 1] {
        let mut bad = ct.clone();
        bad[pos] ^= 0x01;
        let tampered = EncryptedProject {
            encrypted_data: STANDARD.encode(&bad),
            salt: env.salt.clone(),
            nonce: env.nonce.clone(),
        };
        let err = decrypt_project(&tampered, "pw").unwrap_err();
        assert_eq!(err, VaultError::AuthenticationFailed);
    }
}

#[test]
fn malformed_envelope_bad_base64() {
    let env = EncryptedProject {
        encrypted_data: "!!!not base64!!!".to_string(),
        salt: "also not base64!".to_string(),
        nonce: "nope".to_string(),
    };
    let err = decrypt_project(&env, "pw").unwrap_err();
    assert_eq!(err, VaultError::MalformedEnvelope);
}

#[test]
fn malformed_envelope_wrong_salt_length() {
    let project = Project::new("lengths".to_string());
    let mut env = encrypt_project(&project, "pw").unwrap();
    env.salt = STANDARD.encode([0u8; 8]);
    let err = decrypt_project(&env, "pw").unwrap_err();
    assert_eq!(err, VaultError::MalformedEnvelope);
}

#[test]
fn corrupt_data_when_payload_is_not_a_project() {
    let payload: Vec<u8> = b"this is not a serialized project".to_vec();
    let env = encrypt_payload(&payload, "pw").unwrap();
    let err = decrypt_project(&env, "pw").unwrap_err();
    assert_eq!(err, VaultError::CorruptData);
}

#[test]
fn validate_password_accepts_and_rejects() {
    let mut project = Project::new("validate".to_string());
    project.add_secret("K".to_string(), "V".to_string());
    let env = encrypt_project(&project, "right").unwrap();
    assert!(validate_password(&env, "right"));
    assert!(!validate_password(&env, "wrong"));
}

#[test]
fn error_messages_name_no_secrets() {
    assert_eq!(VaultError::NotFound.message(), "project not found");
    assert_eq!(VaultError::AlreadyExists.message(), "project already exists");
    assert_eq!(
        VaultError::AuthenticationFailed.message(),
        "authentication failed: wrong password or corrupted data"
    );
    assert_eq!(VaultError::MalformedEnvelope.message(), "stored envelope is malformed");
    assert_eq!(VaultError::CorruptData.message(), "decrypted data is corrupt");
    assert_eq!(VaultError::InvalidName.message(), "project name is not allowed");
    assert_eq!(
        VaultError::PayloadTooLarge.message(),
        "project payload is too large to encrypt"
    );
    assert_eq!(VaultError::IoError.message(), "filesystem operation failed");
}
