//! Core of an offline password vault.
//!
//! - `record`: the plaintext record (entries, fields, tags, instants).
//! - `wire`, `record_codec`: the canonical byte encoding of the record,
//!   with proofs that decoding inverts encoding and that the encoding of a
//!   decoded record reproduces its input.
//! - `envelope`: the stored header (format, cipher, Argon2id parameters) and
//!   the sealed payload, with the associated data bound to the ciphertext.
//! - `container`: the vault file (magic, version line, envelope).
//! - `crypto`: the outside key derivation, AEAD and random sources.
//! - `vault`: create, unlock, save and change-passphrase.
//! - `generator`: the password generator.
//! - `atomic_write`: the decisions of the atomic file replacement.
//! - `error`: the failure kinds.

pub mod atomic_write;
pub mod container;
pub mod crypto;
pub mod envelope;
pub mod error;
pub mod generator;
pub mod record;
pub mod record_codec;
pub mod vault;
pub mod wire;
