//! The failures that the vault core reports. None of them carries a
//! passphrase, a key or plaintext.

use vstd::prelude::*;

verus! {

#[derive(Debug, Clone, PartialEq, Eq)]
pub enum VaultError {
    /// The file does not start with the vault magic.
    NotAVault,
    /// The version line names a format this library does not read.
    UnsupportedVersion(String),
    /// No line break ends the version line.
    BadHeader,
    /// Nothing follows the version line.
    Truncated,
    /// The envelope or the plaintext record does not decode.
    CorruptRecord,
    /// Wrong passphrase, or the file was altered: deliberately one kind.
    AuthFailure,
    /// The key-derivation parameters are outside policy.
    KdfRefused,
    /// The key-derivation backend failed.
    KdfInternal,
    /// Reading or writing the file failed.
    Io(String),
    /// A save was abandoned before anything was replaced.
    WriteAborted,
    /// The password generator was asked for no output or a one-symbol alphabet.
    GeneratorRefused,
}

/// The human-readable text of a failure; it holds no secret.
pub open spec fn error_text(e: VaultError) -> Seq<char> {
    match e {
        VaultError::NotAVault => "not a vault file"@,
        VaultError::UnsupportedVersion(v) => "unsupported vault version: "@ + v@,
        VaultError::BadHeader => "malformed vault header"@,
        VaultError::Truncated => "vault file is truncated"@,
        VaultError::CorruptRecord => "vault contents are corrupt"@,
        VaultError::AuthFailure => "wrong passphrase or altered file"@,
        VaultError::KdfRefused => "key-derivation parameters refused"@,
        VaultError::KdfInternal => "key derivation failed"@,
        VaultError::Io(c) => "i/o error: "@ + c@,
        VaultError::WriteAborted => "save abandoned; the file was left as it was"@,
        VaultError::GeneratorRefused => "generator needs a length and at least two symbols"@,
    }
}

impl VaultError {
    /// The text shown for this failure.
    pub fn message(&self) -> (r: String)
        ensures
            r@ == error_text(*self),
    {
        match self {
            VaultError::NotAVault => String::from_str("not a vault file"),
            VaultError::UnsupportedVersion(v) => {
                let mut m = String::from_str("unsupported vault version: ");
                m.append(v.as_str());
                m
            },
            VaultError::BadHeader => String::from_str("malformed vault header"),
            VaultError::Truncated => String::from_str("vault file is truncated"),
            VaultError::CorruptRecord => String::from_str("vault contents are corrupt"),
            VaultError::AuthFailure => String::from_str("wrong passphrase or altered file"),
            VaultError::KdfRefused => String::from_str("key-derivation parameters refused"),
            VaultError::KdfInternal => String::from_str("key derivation failed"),
            VaultError::Io(c) => {
                let mut m = String::from_str("i/o error: ");
                m.append(c.as_str());
                m
            },
            VaultError::WriteAborted => String::from_str("save abandoned; the file was left as it was"),
            VaultError::GeneratorRefused => String::from_str("generator needs a length and at least two symbols"),
        }
    }
}

} // verus!
