//! The outside cryptography the vault relies on: Argon2id key derivation,
//! XChaCha20-Poly1305 sealing and opening, and the random sources. Each
//! item states what the library assumes of the call it makes.

use argon2::{Algorithm, Argon2, Params};
use chacha20poly1305::aead::{Aead, OsRng, Payload};
use chacha20poly1305::{AeadCore, KeyInit, XChaCha20Poly1305, XNonce};
use rand::Rng;
use zeroize::Zeroize;
use vstd::prelude::*;

verus! {

/// Messages of this many bytes or more are refused by XChaCha20-Poly1305
/// (the 32-bit block counter would wrap).
pub const AEAD_MAX_MSG: u64 = 274877906880;

/// The outcome of Argon2id (version 0x13) on a password, a salt, the memory
/// cost in KiB, the number of passes, the number of lanes and the key length:
/// the key, or `None` where the parameters or inputs are out of range.
pub uninterp spec fn argon2id_key(
    password: Seq<u8>,
    salt: Seq<u8>,
    memory: u32,
    iterations: u32,
    lanes: u32,
    key_len: u16,
) -> Option<Seq<u8>>;

/// Largest number of Argon2 lanes.
pub const MAX_LANES: u32 = 0xFFFFFF;

/// Whether Argon2id accepts its inputs: at least 8 KiB of memory and 8 KiB
/// per lane, at least one pass, 1 to 2^24 - 1 lanes, a key of at least 4
/// bytes, a password of at most 2^32 - 1 bytes and a salt of 8 to 2^32 - 1
/// bytes.
pub open spec fn argon2_accepts(
    password_len: nat,
    salt_len: nat,
    memory: u32,
    iterations: u32,
    lanes: u32,
    key_len: u16,
) -> bool {
    &&& memory >= 8
    &&& memory >= 8 * lanes
    &&& iterations >= 1
    &&& 1 <= lanes <= MAX_LANES
    &&& key_len >= 4
    &&& password_len <= 0xFFFF_FFFF
    &&& 8 <= salt_len <= 0xFFFF_FFFF
}

/// The ciphertext-and-tag that XChaCha20-Poly1305 produces for a key, a
/// nonce, a message and associated data.
pub uninterp spec fn xchacha_sealed(
    key: Seq<u8>,
    nonce: Seq<u8>,
    msg: Seq<u8>,
    aad: Seq<u8>,
) -> Seq<u8>;

/// Relies on argon2's `Params::new`, `Argon2::new` and
/// `Argon2::hash_password_into`: the outcome depends on the inputs alone; it
/// is an error exactly when `Params::new` or the input checks of
/// `hash_password_into` refuse (see `argon2_accepts`), and otherwise a key
/// of the requested length. `Params::new` computes `8 * lanes` before it
/// checks the lane limit, so `requires` keeps the lane count within it.
#[verifier::external_body]
pub(crate) fn argon2id(
    password: &[u8],
    salt: &[u8],
    memory: u32,
    iterations: u32,
    lanes: u32,
    key_len: u16,
) -> (r: Result<Vec<u8>, ()>)
    requires
        lanes <= MAX_LANES,
    ensures
        r is Ok <==> argon2_accepts(password@.len(), salt@.len(), memory, iterations, lanes, key_len),
        match argon2id_key(password@, salt@, memory, iterations, lanes, key_len) {
            Some(k) => r matches Ok(x) && x@ == k,
            None => r is Err,
        },
        r matches Ok(x) ==> x@.len() == key_len,
{
    let params = Params::new(memory, iterations, lanes, Some(key_len as usize)).map_err(|_| ())?;
    let argon = Argon2::new(Algorithm::Argon2id, argon2::Version::V0x13, params);
    let mut key = vec![0u8; key_len as usize];
    argon.hash_password_into(password, salt, &mut key).map_err(|_| ())?;
    Ok(key)
}

/// Relies on chacha20poly1305's `XChaCha20Poly1305::new_from_slice` and
/// `Aead::encrypt`: with a 32-byte key, encryption fails only for messages
/// of `AEAD_MAX_MSG` bytes or more; the output is the message XORed with
/// the keystream followed by a 16-byte tag, so one key and nonce never seal
/// two messages to the same output.
#[verifier::external_body]
pub(crate) fn xchacha_seal(key: &[u8], nonce: &[u8; 24], msg: &[u8], aad: &[u8]) -> (r: Result<
    Vec<u8>,
    (),
>)
    requires
        key@.len() == 32,
    ensures
        r is Ok <==> msg@.len() < AEAD_MAX_MSG,
        r matches Ok(c) ==> c@ == xchacha_sealed(key@, nonce@, msg@, aad@),
        r matches Ok(c) ==> c@.len() == msg@.len() + 16,
        r matches Ok(c) ==> forall|m: Seq<u8>|
            m.len() < AEAD_MAX_MSG && #[trigger] xchacha_sealed(key@, nonce@, m, aad@) == c@ ==> m
                == msg@,
{
    let cipher = XChaCha20Poly1305::new_from_slice(key).map_err(|_| ())?;
    cipher.encrypt(&XNonce::from(*nonce), Payload { msg, aad }).map_err(|_| ())
}

/// Relies on chacha20poly1305's `XChaCha20Poly1305::new_from_slice` and
/// `Aead::decrypt`: with a 32-byte key it returns a message exactly when
/// the input is the sealing of that message under the same key, nonce and
/// associated data (the tag is checked, then the keystream is XORed off).
#[verifier::external_body]
pub(crate) fn xchacha_open(key: &[u8], nonce: &[u8; 24], sealed: &[u8], aad: &[u8]) -> (r: Result<
    Vec<u8>,
    (),
>)
    requires
        key@.len() == 32,
    ensures
        r matches Ok(m) ==> m@.len() < AEAD_MAX_MSG && xchacha_sealed(key@, nonce@, m@, aad@)
            == sealed@,
        r matches Ok(x) ==> forall|m: Seq<u8>|
            m.len() < AEAD_MAX_MSG && #[trigger] xchacha_sealed(key@, nonce@, m, aad@) == sealed@
                ==> m == x@,
        r is Err ==> forall|m: Seq<u8>|
            m.len() < AEAD_MAX_MSG ==> #[trigger] xchacha_sealed(key@, nonce@, m, aad@) != sealed@,
{
    let cipher = XChaCha20Poly1305::new_from_slice(key).map_err(|_| ())?;
    cipher.decrypt(&XNonce::from(*nonce), Payload { msg: sealed, aad }).map_err(|_| ())
}

/// Relies on zeroize's `Zeroize` for `Vec<u8>`: every byte, spare capacity
/// included, is overwritten with zeros by writes the optimiser keeps, then
/// the vector is cleared.
#[verifier::external_body]
pub(crate) fn wipe(bytes: &mut Vec<u8>)
    ensures
        final(bytes)@.len() == 0,
{
    bytes.zeroize();
}

/// Relies on chacha20poly1305's `AeadCore::generate_nonce` with the
/// operating system's generator; nothing is promised of the value.
#[verifier::external_body]
pub(crate) fn random_nonce() -> (r: [u8; 24]) {
    XChaCha20Poly1305::generate_nonce(&mut OsRng).into()
}

/// Relies on rand's `fill` (thread-local generator seeded from the
/// operating system); nothing is promised of the value.
#[verifier::external_body]
pub(crate) fn random_salt() -> (r: [u8; 16]) {
    let mut salt = [0u8; 16];
    rand::fill(&mut salt);
    salt
}

/// Relies on rand's `Rng::random_range` on the thread-local generator: a
/// draw in `0..n`, without modulo bias. It panics on an empty range, which
/// `requires` leaves out.
#[verifier::external_body]
pub(crate) fn random_below(n: usize) -> (r: usize)
    requires
        n > 0,
    ensures
        r < n,
{
    rand::rng().random_range(0..n)
}

/// Relies on chrono's `Utc::now` and `DateTime::timestamp_nanos_opt`: the
/// current instant in nanoseconds since the epoch, `None` outside the years
/// that fit; nothing else is promised of it.
#[verifier::external_body]
pub(crate) fn clock_nanos() -> (r: Option<i64>) {
    chrono::Utc::now().timestamp_nanos_opt()
}

} // verus!
