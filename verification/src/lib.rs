//! A local, password-protected vault of named projects.
//!
//! Each project is a set of key-value secrets. A project is serialized to a
//! JSON payload, encrypted under a key derived from a master password, and
//! persisted as a self-contained envelope of ciphertext, salt and nonce.
//! The storage layer maps project names to envelope files and keeps every
//! operation inside the storage root. All file and terminal I/O is left to
//! the surrounding application; this crate only computes, and every function
//! in it carries a verified contract.

pub mod b64;
pub mod cli;
pub mod clock;
pub mod crypto;
pub mod envelope;
pub mod envfile;
pub mod errors;
pub mod export;
pub mod gitignore;
pub mod json;
pub mod lines;
pub mod models;
pub mod payload;
pub mod primitives;
pub mod storage;
pub mod text;
