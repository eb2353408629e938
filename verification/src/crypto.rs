//! The crypto envelope: key derivation from a master password, and
//! authenticated encryption and decryption of a serialized project payload.
//! Wrong passwords and tampered ciphertext are indistinguishable by design:
//! both surface as `AuthenticationFailed`.

use crate::b64::{b64_decode, b64_encode, b64_of};
use crate::errors::VaultError;
use crate::models::{EncryptedProject, EnvelopeView, Project, ProjectView};
use crate::payload::{parse_project, ser_project, serialize_project};
use crate::primitives::{
    aead_open, aead_seal, aes_gcm_seal, derive_key_bytes, pbkdf2_key, random_bytes,
};
use crate::text::bytes_to_string;
use vstd::prelude::*;
use vstd::string::StrSliceExecFns;
use vstd::utf8::{decode_utf8, encode_utf8, valid_utf8};

verus! {

/// The PBKDF2-HMAC-SHA256 round count for key derivation.
pub const KDF_ITERATIONS: u32 = 100000;

/// The longest plaintext a single envelope encrypts, well under the
/// cipher's message limit.
pub const MAX_PLAINTEXT: usize = 0xFFFF_FFFF;

/// The byte payload a project encrypts to: its serialized text as UTF-8.
pub open spec fn project_payload(q: ProjectView) -> Seq<u8> {
    encode_utf8(ser_project(q))
}

/// The three envelope fields decode to raw salt, nonce and ciphertext of
/// the right shapes.
pub open spec fn envelope_decodes(env: EnvelopeView) -> bool {
    exists|salt: Seq<u8>, nonce: Seq<u8>, ct: Seq<u8>|
        #![auto]
        salt.len() == 16 && nonce.len() == 12 && env.salt == b64_of(salt) && env.nonce == b64_of(
            nonce,
        ) && env.encrypted_data == b64_of(ct)
}

/// The envelope authenticates exactly this plaintext under this password:
/// its ciphertext is the AES-256-GCM sealing of the plaintext under the
/// key derived from the password and the envelope's own salt, with the
/// envelope's own nonce.
pub open spec fn envelope_seals(env: EnvelopeView, plaintext: Seq<u8>, password: Seq<char>) -> bool {
    exists|salt: Seq<u8>, nonce: Seq<u8>|
        #![auto]
        salt.len() == 16 && nonce.len() == 12 && env.salt == b64_of(salt) && env.nonce == b64_of(
            nonce,
        ) && env.encrypted_data == b64_of(
            aes_gcm_seal(pbkdf2_key(password, salt, KDF_ITERATIONS), nonce, plaintext),
        )
}

/// Derive the symmetric key from a password and salt; deterministic, so a
/// stored salt recovers the same key later.
fn derive_key(password: &str, salt: &Vec<u8>) -> (r: Vec<u8>)
    ensures
        r@ == pbkdf2_key(password@, salt@, KDF_ITERATIONS),
        r@.len() == 32,
{
    derive_key_bytes(password, salt, KDF_ITERATIONS)
}

/// Encrypt a byte payload under a password: fresh random salt and nonce,
/// PBKDF2 key derivation, AES-256-GCM sealing, base64 encoding.
pub fn encrypt_payload(plaintext: &Vec<u8>, password: &str) -> (r: Result<
    EncryptedProject,
    VaultError,
>)
    ensures
        r is Ok <==> plaintext@.len() <= MAX_PLAINTEXT,
        r is Err ==> r->Err_0 == VaultError::PayloadTooLarge,
        r is Ok ==> envelope_seals(r->Ok_0@, plaintext@, password@),
{
    if plaintext.len() > MAX_PLAINTEXT {
        return Err(VaultError::PayloadTooLarge);
    }
    let salt = random_bytes(16);
    let nonce = random_bytes(12);
    let key = derive_key(password, &salt);
    let ciphertext = aead_seal(&key, &nonce, plaintext);
    let env = EncryptedProject {
        encrypted_data: b64_encode(&ciphertext),
        salt: b64_encode(&salt),
        nonce: b64_encode(&nonce),
    };
    proof {
        assert(envelope_seals(env@, plaintext@, password@)) by {
            assert(salt@.len() == 16 && nonce@.len() == 12 && env@.salt == b64_of(salt@)
                && env@.nonce == b64_of(nonce@) && env@.encrypted_data == b64_of(
                aes_gcm_seal(pbkdf2_key(password@, salt@, KDF_ITERATIONS), nonce@, plaintext@),
            ));
        }
    }
    Ok(env)
}

/// Decrypt an envelope under a password. Structural defects in the
/// envelope are `MalformedEnvelope`; a failed authentication tag, whether
/// from a wrong password or altered ciphertext, is `AuthenticationFailed`,
/// and no plaintext is ever returned in that case. Any payload the
/// envelope authenticates is returned exactly.
pub fn decrypt_payload(encrypted: &EncryptedProject, password: &str) -> (r: Result<
    Vec<u8>,
    VaultError,
>)
    ensures
        (r is Err && r->Err_0 == VaultError::MalformedEnvelope) <==> !envelope_decodes(encrypted@),
        r is Err ==> r->Err_0 == VaultError::MalformedEnvelope || r->Err_0
            == VaultError::AuthenticationFailed,
        r is Ok ==> envelope_seals(encrypted@, r->Ok_0@, password@),
        forall|p: Seq<u8>|
            p.len() <= MAX_PLAINTEXT && #[trigger] envelope_seals(encrypted@, p, password@)
                ==> r is Ok && r->Ok_0@ == p,
{
    let salt_dec = b64_decode(encrypted.salt.as_str());
    let salt = match salt_dec {
        Some(s) => s,
        None => {
            proof {
                lemma_not_decodes_salt(encrypted@);
            }
            return Err(VaultError::MalformedEnvelope);
        },
    };
    if salt.len() != 16 {
        proof {
            lemma_not_decodes_salt(encrypted@);
        }
        return Err(VaultError::MalformedEnvelope);
    }
    let nonce_dec = b64_decode(encrypted.nonce.as_str());
    let nonce = match nonce_dec {
        Some(nv) => nv,
        None => {
            proof {
                lemma_not_decodes_nonce(encrypted@);
            }
            return Err(VaultError::MalformedEnvelope);
        },
    };
    if nonce.len() != 12 {
        proof {
            lemma_not_decodes_nonce(encrypted@);
        }
        return Err(VaultError::MalformedEnvelope);
    }
    let ct_dec = b64_decode(encrypted.encrypted_data.as_str());
    let ciphertext = match ct_dec {
        Some(c) => c,
        None => {
            proof {
                lemma_not_decodes_ct(encrypted@);
            }
            return Err(VaultError::MalformedEnvelope);
        },
    };
    let key = derive_key(password, &salt);
    proof {
        assert(envelope_decodes(encrypted@)) by {
            assert(salt@.len() == 16 && nonce@.len() == 12 && encrypted@.salt == b64_of(salt@)
                && encrypted@.nonce == b64_of(nonce@) && encrypted@.encrypted_data == b64_of(
                ciphertext@,
            ));
        }
    }
    match aead_open(&key, &nonce, &ciphertext) {
        Some(plaintext) => {
            proof {
                assert(envelope_seals(encrypted@, plaintext@, password@)) by {
                    assert(salt@.len() == 16 && nonce@.len() == 12 && encrypted@.salt == b64_of(
                        salt@,
                    ) && encrypted@.nonce == b64_of(nonce@) && encrypted@.encrypted_data == b64_of(
                        aes_gcm_seal(
                            pbkdf2_key(password@, salt@, KDF_ITERATIONS),
                            nonce@,
                            plaintext@,
                        ),
                    ));
                }
                assert forall|p: Seq<u8>|
                    p.len() <= MAX_PLAINTEXT && #[trigger] envelope_seals(encrypted@, p, password@)
                    implies plaintext@ == p by {
                    let (s0, n0) = choose|s0: Seq<u8>, n0: Seq<u8>|
                        #![auto]
                        s0.len() == 16 && n0.len() == 12 && encrypted@.salt == b64_of(s0)
                            && encrypted@.nonce == b64_of(n0) && encrypted@.encrypted_data
                            == b64_of(
                            aes_gcm_seal(pbkdf2_key(password@, s0, KDF_ITERATIONS), n0, p),
                        );
                    assert(salt@ == s0 && nonce@ == n0);
                    assert(ciphertext@ == aes_gcm_seal(
                        pbkdf2_key(password@, s0, KDF_ITERATIONS),
                        n0,
                        p,
                    ));
                }
            }
            Ok(plaintext)
        },
        None => {
            proof {
                assert forall|p: Seq<u8>|
                    !(p.len() <= MAX_PLAINTEXT && #[trigger] envelope_seals(
                        encrypted@,
                        p,
                        password@,
                    )) by {
                    if p.len() <= MAX_PLAINTEXT && envelope_seals(encrypted@, p, password@) {
                        let (s0, n0) = choose|s0: Seq<u8>, n0: Seq<u8>|
                            #![auto]
                            s0.len() == 16 && n0.len() == 12 && encrypted@.salt == b64_of(s0)
                                && encrypted@.nonce == b64_of(n0) && encrypted@.encrypted_data
                                == b64_of(
                                aes_gcm_seal(pbkdf2_key(password@, s0, KDF_ITERATIONS), n0, p),
                            );
                        assert(salt@ == s0 && nonce@ == n0);
                        assert(ciphertext@ == aes_gcm_seal(
                            pbkdf2_key(password@, s0, KDF_ITERATIONS),
                            n0,
                            p,
                        ));
                    }
                }
            }
            Err(VaultError::AuthenticationFailed)
        },
    }
}

/// When the salt field does not decode to 16 raw bytes, the envelope does
/// not decode at all.
proof fn lemma_not_decodes_salt(env: EnvelopeView)
    requires
        forall|s: Seq<u8>| s.len() == 16 ==> env.salt != #[trigger] b64_of(s),
    ensures
        !envelope_decodes(env),
{
}

/// When the nonce field does not decode to 12 raw bytes, the envelope does
/// not decode at all.
proof fn lemma_not_decodes_nonce(env: EnvelopeView)
    requires
        forall|nv: Seq<u8>| nv.len() == 12 ==> env.nonce != #[trigger] b64_of(nv),
    ensures
        !envelope_decodes(env),
{
}

/// When the data field does not decode, the envelope does not decode.
proof fn lemma_not_decodes_ct(env: EnvelopeView)
    requires
        forall|c: Seq<u8>| env.encrypted_data != #[trigger] b64_of(c),
    ensures
        !envelope_decodes(env),
{
}

/// Encrypt a whole project: serialize it, then seal the payload.
pub fn encrypt_project(project: &Project, password: &str) -> (r: Result<
    EncryptedProject,
    VaultError,
>)
    requires
        project@.wf(),
    ensures
        r is Ok <==> project_payload(project@).len() <= MAX_PLAINTEXT,
        r is Err ==> r->Err_0 == VaultError::PayloadTooLarge,
        r is Ok ==> envelope_seals(r->Ok_0@, project_payload(project@), password@),
{
    let payload = serialize_project(project);
    let bytes = payload.as_str().as_bytes_vec();
    encrypt_payload(&bytes, password)
}

/// Decrypt a whole project: open the envelope, then parse the payload.
/// A payload that is not a canonical serialized project is `CorruptData`;
/// any well-formed project the envelope authenticates is returned exactly.
pub fn decrypt_project(encrypted: &EncryptedProject, password: &str) -> (r: Result<
    Project,
    VaultError,
>)
    ensures
        (r is Err && r->Err_0 == VaultError::MalformedEnvelope) <==> !envelope_decodes(encrypted@),
        r is Err ==> r->Err_0 == VaultError::MalformedEnvelope || r->Err_0
            == VaultError::AuthenticationFailed || r->Err_0 == VaultError::CorruptData,
        r is Ok ==> r->Ok_0@.wf() && envelope_seals(
            encrypted@,
            project_payload(r->Ok_0@),
            password@,
        ),
        forall|q: ProjectView|
            q.wf() && project_payload(q).len() <= MAX_PLAINTEXT && #[trigger] envelope_seals(
                encrypted@,
                project_payload(q),
                password@,
            ) ==> r is Ok && r->Ok_0@ == q,
{
    let bytes = match decrypt_payload(encrypted, password) {
        Ok(b) => b,
        Err(e) => {
            return Err(e);
        },
    };
    proof {
        assert forall|q: ProjectView|
            q.wf() && project_payload(q).len() <= MAX_PLAINTEXT && #[trigger] envelope_seals(
                encrypted@,
                project_payload(q),
                password@,
            ) implies bytes@ == project_payload(q) && valid_utf8(bytes@) && decode_utf8(bytes@)
            == ser_project(q) by {
            vstd::utf8::encode_utf8_valid_utf8(ser_project(q));
            vstd::utf8::encode_utf8_decode_utf8(ser_project(q));
        }
    }
    let text = match bytes_to_string(&bytes) {
        Some(t) => t,
        None => {
            return Err(VaultError::CorruptData);
        },
    };
    match parse_project(text.as_str()) {
        Some(p) => {
            proof {
                vstd::utf8::decode_utf8_encode_utf8(bytes@);
                assert(bytes@ == encode_utf8(text@));
                assert(bytes@ == project_payload(p@));
            }
            Ok(p)
        },
        None => Err(VaultError::CorruptData),
    }
}

/// Try a password against an envelope without handing the plaintext on:
/// true exactly when decryption succeeds end to end.
pub fn validate_password(encrypted: &EncryptedProject, password: &str) -> (r: bool)
    ensures
        forall|q: ProjectView|
            q.wf() && project_payload(q).len() <= MAX_PLAINTEXT && #[trigger] envelope_seals(
                encrypted@,
                project_payload(q),
                password@,
            ) ==> r,
        r ==> exists|q: ProjectView|
            q.wf() && #[trigger] envelope_seals(encrypted@, project_payload(q), password@),
{
    decrypt_project(encrypted, password).is_ok()
}

} // verus!
