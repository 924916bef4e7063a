//! The vault's lifecycle: key derivation under a parameter policy, sealing
//! and opening the record, and create / unlock / save / change-passphrase.
//! The caller reads the file and receives the exact bytes to write, which
//! it puts in place through the steps of `atomic_write`.

use crate::container::{container_database, container_of, emit_container, has_magic, lemma_container_round_trip, no_newline, parse_container, version_line};
use crate::crypto::{AEAD_MAX_MSG, MAX_LANES, argon2_accepts, argon2id, argon2id_key, clock_nanos, random_nonce, random_salt, wipe, xchacha_open, xchacha_seal, xchacha_sealed};
use crate::envelope::{BlobView, CipherData, Database, DatabaseView, KdfData, KdfView, Version, XChaCha20Poly1305BlobV1, aad_of, decode_blob, decoded_blob, enc_blob, encode_aad, encode_blob, lemma_blob_round_trip};
use crate::error::VaultError;
use crate::record::{Data, DataView, Timestamp};
use crate::record_codec::{decode_data, decoded_record, enc_data, encode_data, lemma_record_round_trip};
use vstd::prelude::*;
use vstd::utf8::*;

verus! {

/// Largest accepted Argon2id memory cost: 1 GiB, in KiB.
pub const MAX_MEMORY_KIB: u32 = 1048576;

/// Largest accepted number of Argon2id passes.
pub const MAX_ITERATIONS: u32 = 64;

/// The key length XChaCha20-Poly1305 expects.
pub const KEY_LEN: u16 = 32;

/// Parameters of a new vault: 64 MiB, two passes, two lanes, a 32-byte key.
pub const DEFAULT_MEMORY_KIB: u32 = 65536;

pub const DEFAULT_ITERATIONS: u32 = 2;

pub const DEFAULT_LANES: u32 = 2;

pub open spec fn kdf_in_policy(k: KdfView) -> bool {
    &&& k.memory <= MAX_MEMORY_KIB
    &&& k.iterations <= MAX_ITERATIONS
    &&& k.key_len == KEY_LEN
    &&& 1 <= k.parallelism <= MAX_LANES
}

/// The key a passphrase derives under the stored parameters.
pub open spec fn derived(k: KdfView, password: Seq<char>) -> Result<Seq<u8>, VaultError> {
    if !kdf_in_policy(k) {
        Err(VaultError::KdfRefused)
    } else {
        match argon2id_key(
            encode_utf8(password),
            k.salt,
            k.memory,
            k.iterations,
            k.parallelism,
            k.key_len,
        ) {
            Some(key) => Ok(key),
            None => Err(VaultError::KdfInternal),
        }
    }
}

/// The message that a sealed payload opens to, if any.
pub open spec fn aead_opened(key: Seq<u8>, nonce: Seq<u8>, sealed: Seq<u8>, aad: Seq<u8>) -> Option<
    Seq<u8>,
> {
    if exists|m: Seq<u8>| m.len() < AEAD_MAX_MSG && #[trigger] xchacha_sealed(key, nonce, m, aad) == sealed {
        Some(choose|m: Seq<u8>| m.len() < AEAD_MAX_MSG && #[trigger] xchacha_sealed(key, nonce, m, aad) == sealed)
    } else {
        None
    }
}

/// What unlocking the envelope `db` with `password` gives.
pub open spec fn decrypted(db: DatabaseView, password: Seq<char>) -> Result<DataView, VaultError> {
    match derived(db.kdf, password) {
        Err(e) => Err(e),
        Ok(key) => match decoded_blob(db.blob) {
            None => Err(VaultError::CorruptRecord),
            Some(b) => match aead_opened(key, b.nonce, b.ciphertext, aad_of(db)) {
                None => Err(VaultError::AuthFailure),
                Some(plain) => match decoded_record(plain) {
                    Some(d) => Ok(d),
                    None => Err(VaultError::CorruptRecord),
                },
            },
        },
    }
}

/// The payload that sealing `d` into `db` with `password` and `nonce` gives.
pub open spec fn sealed_payload(d: DataView, db: DatabaseView, password: Seq<char>, nonce: Seq<u8>) -> Result<
    Seq<u8>,
    VaultError,
> {
    match derived(db.kdf, password) {
        Err(e) => Err(e),
        Ok(key) => if enc_data(d).len() < AEAD_MAX_MSG {
            Ok(
                enc_blob(
                    BlobView {
                        nonce,
                        ciphertext: xchacha_sealed(key, nonce, enc_data(d), aad_of(db)),
                    },
                ),
            )
        } else {
            Err(VaultError::WriteAborted)
        },
    }
}

/// Derives the key for `password`; refuses parameters outside policy
/// (memory above 1 GiB, more than 64 passes, a key length other than the
/// cipher's 32 bytes, a lane count outside 1 to 2^24 - 1). Within policy it
/// fails with `KdfInternal` exactly when Argon2 refuses the inputs.
pub fn derive_key(kdf: &KdfData, password: &str) -> (r: Result<Vec<u8>, VaultError>)
    ensures
        match derived(kdf@, password@) {
            Ok(k) => r matches Ok(x) && x@ == k && x@.len() == KEY_LEN,
            Err(e) => r == Err::<Vec<u8>, VaultError>(e),
        },
        kdf_in_policy(kdf@) ==> (r is Ok <==> argon2_accepts(
            encode_utf8(password@).len(),
            kdf@.salt.len(),
            kdf@.memory,
            kdf@.iterations,
            kdf@.parallelism,
            kdf@.key_len,
        )),
{
    match kdf {
        KdfData::Argon2Id { salt, memory, iterations, key_len, parallelism } => {
            if *memory > MAX_MEMORY_KIB || *iterations > MAX_ITERATIONS || *key_len != KEY_LEN
                || *parallelism == 0 || *parallelism > MAX_LANES {
                return Err(VaultError::KdfRefused);
            }
            match argon2id(password.as_bytes(), salt.as_slice(), *memory, *iterations, *parallelism, *key_len) {
                Ok(key) => Ok(key),
                Err(_) => Err(VaultError::KdfInternal),
            }
        },
    }
}

/// Opens the envelope's payload with `password` and decodes the record.
/// Wrong passphrase and altered file are the one `AuthFailure`.
pub fn decrypt_database(db: &Database, password: &str) -> (r: Result<Data, VaultError>)
    ensures
        match decrypted(db@, password@) {
            Ok(d) => r matches Ok(x) && x@ == d,
            Err(e) => r == Err::<Data, VaultError>(e),
        },
{
    let mut key = match derive_key(&db.kdf, password) {
        Ok(k) => k,
        Err(e) => return Err(e),
    };
    match db.cipher {
        CipherData::XChaCha20Poly1305V1 => {
            let blob = match decode_blob(db.blob.as_slice()) {
                Some(b) => b,
                None => {
                    wipe(&mut key);
                    return Err(VaultError::CorruptRecord);
                },
            };
            let aad = encode_aad(db);
            let opened = xchacha_open(key.as_slice(), &blob.nonce, blob.ciphertext.as_slice(), aad.as_slice());
            let ghost key_bytes = key@;
            wipe(&mut key);
            let mut plain = match opened {
                Ok(p) => p,
                Err(_) => return Err(VaultError::AuthFailure),
            };
            proof {
                let ghost m = choose|m: Seq<u8>|
                    m.len() < AEAD_MAX_MSG && #[trigger] xchacha_sealed(key_bytes, blob.nonce@, m, aad@) == blob.ciphertext@;
                assert(xchacha_sealed(key_bytes, blob.nonce@, plain@, aad@) == blob.ciphertext@);
                assert(m == plain@);
            }
            let data = decode_data(plain.as_slice());
            wipe(&mut plain);
            data
        },
    }
}

/// Seals `data` into a payload for the envelope `db`, under `password` and
/// `nonce`. What comes back opens, under the same passphrase, to `data`.
pub fn encrypt_database(data: &Data, db: &Database, password: &str, nonce: &[u8; 24]) -> (r: Result<
    Vec<u8>,
    VaultError,
>)
    ensures
        match sealed_payload(data@, db@, password@, nonce@) {
            Ok(b) => r matches Ok(x) && x@ == b,
            Err(e) => r == Err::<Vec<u8>, VaultError>(e),
        },
        r matches Ok(x) ==> decrypted(DatabaseView { blob: x@, ..db@ }, password@) == Ok::<DataView, VaultError>(data@),
        r matches Ok(x) ==> decoded_blob(x@) matches Some(b) && b.nonce == nonce@ && b.ciphertext.len()
            == enc_data(data@).len() + 16,
{
    let mut key = match derive_key(&db.kdf, password) {
        Ok(k) => k,
        Err(e) => return Err(e),
    };
    match db.cipher {
        CipherData::XChaCha20Poly1305V1 => {
            let mut plain = encode_data(data);
            let aad = encode_aad(db);
            let sealed = xchacha_seal(key.as_slice(), nonce, plain.as_slice(), aad.as_slice());
            let ghost key_bytes = key@;
            let ghost plain_bytes = plain@;
            wipe(&mut key);
            wipe(&mut plain);
            let ciphertext = match sealed {
                Ok(c) => c,
                Err(_) => return Err(VaultError::WriteAborted),
            };
            let blob = XChaCha20Poly1305BlobV1 { nonce: *nonce, ciphertext };
            let out = encode_blob(&blob);
            proof {
                let ghost db2 = DatabaseView { blob: out@, ..db@ };
                assert(aad_of(db2) == aad_of(db@));
                lemma_blob_round_trip(blob@);
                lemma_record_round_trip(data@);
                assert(xchacha_sealed(key_bytes, nonce@, plain_bytes, aad@) == blob.ciphertext@);
                let ghost m = choose|m: Seq<u8>|
                    m.len() < AEAD_MAX_MSG && #[trigger] xchacha_sealed(key_bytes, nonce@, m, aad@) == blob.ciphertext@;
                assert(m == plain_bytes);
            }
            Ok(out)
        },
    }
}

// ---------------------------------------------------------------- lifecycle

/// The envelope of a new vault with the given salt.
pub open spec fn fresh_database(salt: Seq<u8>) -> DatabaseView {
    DatabaseView {
        version: Version::V1,
        cipher: CipherData::XChaCha20Poly1305V1,
        kdf: KdfView {
            salt,
            memory: DEFAULT_MEMORY_KIB,
            iterations: DEFAULT_ITERATIONS,
            key_len: KEY_LEN,
            parallelism: DEFAULT_LANES,
        },
        blob: Seq::empty(),
    }
}

/// The record as a save leaves it: one more save counted, and modified now
/// (never before its creation).
pub open spec fn stamped(d: DataView, now: Timestamp) -> DataView {
    DataView {
        iteration: (d.iteration + 1) as u64,
        modified_at: if now.nanos < d.created_at.nanos {
            d.created_at
        } else {
            now
        },
        ..d
    }
}

/// The current instant, when it fits the representation.
pub fn now() -> (r: Option<Timestamp>) {
    match clock_nanos() {
        Some(nanos) => Some(Timestamp { nanos }),
        None => None,
    }
}

/// A new vault with `salt`, created at `now`: its envelope (default costs,
/// no payload yet) and an empty record. Nothing is written until a save.
pub fn create_with_salt(salt: [u8; 16], now: Timestamp) -> (r: (Database, Data))
    ensures
        r.0@ == fresh_database(salt@),
        r.1@.iteration == 0,
        r.1@.entries.len() == 0,
        r.1@.created_at == now,
        r.1@.modified_at == now,
{
    let db = Database {
        version: Version::V1,
        cipher: CipherData::XChaCha20Poly1305V1,
        kdf: KdfData::Argon2Id {
            salt,
            memory: DEFAULT_MEMORY_KIB,
            iterations: DEFAULT_ITERATIONS,
            key_len: KEY_LEN,
            parallelism: DEFAULT_LANES,
        },
        blob: Vec::new(),
    };
    (db, Data::empty(now))
}

/// A new vault created at `now`, with a fresh random salt.
pub fn create(now: Timestamp) -> (r: (Database, Data))
    ensures
        r.0@ == fresh_database(r.0@.kdf.salt),
        r.0@.kdf.salt.len() == 16,
        r.1@.iteration == 0,
        r.1@.entries.len() == 0,
        r.1@.created_at == now,
        r.1@.modified_at == now,
{
    create_with_salt(random_salt(), now)
}

/// Reads a vault file and unlocks it with `password`.
pub fn unlock(file: &[u8], password: &str) -> (r: Result<(Database, Data), VaultError>)
    ensures
        !has_magic(file@) ==> r == Err::<(Database, Data), VaultError>(VaultError::NotAVault),
        has_magic(file@) && no_newline(file@) ==> r == Err::<(Database, Data), VaultError>(
            VaultError::BadHeader,
        ),
        has_magic(file@) && file@.len() == 11 && file@.subrange(7, 10) == version_line() && file@[10]
            == 10 ==> r == Err::<(Database, Data), VaultError>(VaultError::Truncated),
        has_magic(file@) && file@.len() > 11 && file@.subrange(7, 10) == version_line() && file@[10]
            == 10 && container_database(file@) is None ==> r == Err::<(Database, Data), VaultError>(
            VaultError::CorruptRecord,
        ),
        match container_database(file@) {
            None => r is Err,
            Some(db) => match decrypted(db, password@) {
                Ok(d) => r matches Ok((x, y)) && x@ == db && y@ == d,
                Err(e) => r == Err::<(Database, Data), VaultError>(e),
            },
        },
{
    let db = match parse_container(file) {
        Ok(db) => db,
        Err(e) => return Err(e),
    };
    match decrypt_database(&db, password) {
        Ok(d) => Ok((db, d)),
        Err(e) => Err(e),
    }
}

/// Saves `data` into `db` under `password` with the given nonce: counts the
/// save, stamps the record, seals it and returns the bytes of the new
/// vault file. On any failure neither `db` nor `data` changes.
pub fn save_with_nonce(
    db: &mut Database,
    data: &mut Data,
    password: &str,
    nonce: &[u8; 24],
    now: Timestamp,
) -> (r: Result<Vec<u8>, VaultError>)
    ensures
        old(data).iteration == u64::MAX ==> r == Err::<Vec<u8>, VaultError>(VaultError::WriteAborted),
        old(data).iteration < u64::MAX ==> match sealed_payload(
            stamped(old(data)@, now),
            old(db)@,
            password@,
            nonce@,
        ) {
            Ok(b) => r matches Ok(f) && final(data)@ == stamped(old(data)@, now) && final(db)@
                == DatabaseView { blob: b, ..old(db)@ } && f@ == container_of(final(db)@),
            Err(e) => r == Err::<Vec<u8>, VaultError>(e),
        },
        r is Err ==> *final(db) == *old(db) && *final(data) == *old(data),
        r matches Ok(f) ==> container_database(f@) == Some(final(db)@) && decrypted(
            final(db)@,
            password@,
        ) == Ok::<DataView, VaultError>(final(data)@),
        r is Ok ==> final(data).iteration == old(data).iteration + 1,
{
    if data.iteration == u64::MAX {
        return Err(VaultError::WriteAborted);
    }
    let previous = data.modified_at;
    data.iteration = data.iteration + 1;
    if now.nanos < data.created_at.nanos {
        data.modified_at = data.created_at;
    } else {
        data.modified_at = now;
    }
    match encrypt_database(data, db, password, nonce) {
        Ok(blob) => {
            // the payload's length fits its 64-bit prefix
            let size = blob.len();
            proof {
                assert(size as u64 == blob@.len());
            }
            db.blob = blob;
            let file = emit_container(db);
            proof {
                lemma_container_round_trip(db@);
            }
            Ok(file)
        },
        Err(e) => {
            data.iteration = data.iteration - 1;
            data.modified_at = previous;
            Err(e)
        },
    }
}

/// Saves with a fresh random nonce; see `save_with_nonce`.
pub fn save(db: &mut Database, data: &mut Data, password: &str, now: Timestamp) -> (r: Result<
    Vec<u8>,
    VaultError,
>)
    ensures
        old(data).iteration == u64::MAX ==> r == Err::<Vec<u8>, VaultError>(VaultError::WriteAborted),
        r is Err ==> *final(db) == *old(db) && *final(data) == *old(data),
        r matches Ok(f) ==> container_database(f@) == Some(final(db)@) && decrypted(
            final(db)@,
            password@,
        ) == Ok::<DataView, VaultError>(final(data)@),
        r is Ok ==> final(data)@ == stamped(old(data)@, now) && final(db)@.kdf == old(db)@.kdf,
        old(data).iteration < u64::MAX ==> exists|n: Seq<u8>|
            n.len() == 24 && match sealed_payload(stamped(old(data)@, now), old(db)@, password@, n) {
                Ok(b) => r matches Ok(f) && final(data)@ == stamped(old(data)@, now) && final(db)@
                    == DatabaseView { blob: b, ..old(db)@ } && f@ == container_of(final(db)@),
                Err(e) => r == Err::<Vec<u8>, VaultError>(e),
            },
{
    let nonce = random_nonce();
    let r = save_with_nonce(db, data, password, &nonce, now);
    proof {
        assert(nonce@.len() == 24);
    }
    r
}

/// Replaces the passphrase: the envelope takes `salt` in place of its old
/// one, and the record is saved under `new_password` with `nonce`. On any
/// failure neither `db` nor `data` changes.
pub fn change_passphrase_with(
    db: &mut Database,
    data: &mut Data,
    new_password: &str,
    salt: [u8; 16],
    nonce: &[u8; 24],
    now: Timestamp,
) -> (r: Result<Vec<u8>, VaultError>)
    ensures
        old(data).iteration == u64::MAX ==> r == Err::<Vec<u8>, VaultError>(VaultError::WriteAborted),
        old(data).iteration < u64::MAX ==> match sealed_payload(
            stamped(old(data)@, now),
            DatabaseView { kdf: KdfView { salt: salt@, ..old(db)@.kdf }, blob: Seq::empty(), ..old(db)@ },
            new_password@,
            nonce@,
        ) {
            Ok(b) => r matches Ok(f) && final(data)@ == stamped(old(data)@, now) && final(db)@
                == DatabaseView { kdf: KdfView { salt: salt@, ..old(db)@.kdf }, blob: b, ..old(db)@ }
                && f@ == container_of(final(db)@),
            Err(e) => r == Err::<Vec<u8>, VaultError>(e),
        },
        r is Err ==> *final(db) == *old(db) && *final(data) == *old(data),
        r matches Ok(f) ==> container_database(f@) == Some(final(db)@) && decrypted(
            final(db)@,
            new_password@,
        ) == Ok::<DataView, VaultError>(final(data)@),
{
    let kdf = match db.kdf {
        KdfData::Argon2Id { salt: _, memory, iterations, key_len, parallelism } => KdfData::Argon2Id {
            salt,
            memory,
            iterations,
            key_len,
            parallelism,
        },
    };
    let mut next = Database { version: db.version, cipher: db.cipher, kdf, blob: Vec::new() };
    proof {
        assert(next@ == DatabaseView { kdf: KdfView { salt: salt@, ..old(db)@.kdf }, blob: Seq::empty(), ..old(db)@ });
    }
    match save_with_nonce(&mut next, data, new_password, nonce, now) {
        Ok(file) => {
            *db = next;
            Ok(file)
        },
        Err(e) => Err(e),
    }
}

/// Replaces the passphrase with a fresh random salt and nonce; see
/// `change_passphrase_with`.
pub fn change_passphrase(db: &mut Database, data: &mut Data, new_password: &str, now: Timestamp) -> (r:
    Result<Vec<u8>, VaultError>)
    ensures
        old(data).iteration == u64::MAX ==> r == Err::<Vec<u8>, VaultError>(VaultError::WriteAborted),
        r is Err ==> *final(db) == *old(db) && *final(data) == *old(data),
        r matches Ok(f) ==> container_database(f@) == Some(final(db)@) && decrypted(
            final(db)@,
            new_password@,
        ) == Ok::<DataView, VaultError>(final(data)@),
        r is Ok ==> final(data)@ == stamped(old(data)@, now),
        old(data).iteration < u64::MAX ==> exists|s: Seq<u8>, n: Seq<u8>|
            s.len() == 16 && n.len() == 24 && match sealed_payload(
                stamped(old(data)@, now),
                DatabaseView { kdf: KdfView { salt: s, ..old(db)@.kdf }, blob: Seq::empty(), ..old(db)@ },
                new_password@,
                n,
            ) {
                Ok(b) => r matches Ok(f) && final(data)@ == stamped(old(data)@, now) && final(db)@
                    == DatabaseView { kdf: KdfView { salt: s, ..old(db)@.kdf }, blob: b, ..old(db)@ }
                    && f@ == container_of(final(db)@),
                Err(e) => r == Err::<Vec<u8>, VaultError>(e),
            },
{
    let salt = random_salt();
    let nonce = random_nonce();
    let r = change_passphrase_with(db, data, new_password, salt, &nonce, now);
    proof {
        assert(salt@.len() == 16 && nonce@.len() == 24);
    }
    r
}

} // verus!
