//! The envelope stored after the version line: the format version, the
//! key-derivation parameters, the cipher, and the sealed payload. It is
//! encoded as a fixed 42-byte header (three 32-bit variant tags, the salt,
//! then the Argon2id costs) followed by the length-prefixed payload.

use crate::wire::{Parsed, enc_bytes, enc_u16, enc_u32, get_bytes, get_u16, get_u32, lemma_bytes, lemma_take_split, lemma_u16, lemma_u32, p_bytes, put_bytes, put_slice, put_u16, put_u32, wf_bytes};
use vstd::bytes::*;
use vstd::prelude::*;

verus! {

/// The envelope's format version.
#[derive(Debug, Clone, Copy, PartialEq, Eq, Structural)]
pub enum Version {
    V1,
}

/// The AEAD algorithm; it keeps no per-message state here.
#[derive(Debug, Clone, Copy, PartialEq, Eq, Structural)]
pub enum CipherData {
    XChaCha20Poly1305V1,
}

/// Key-derivation choice and its parameters; every one of them is stored.
#[derive(Debug, Clone, Copy, PartialEq, Eq)]
pub enum KdfData {
    Argon2Id { salt: [u8; 16], memory: u32, iterations: u32, key_len: u16, parallelism: u32 },
}

pub struct KdfView {
    pub salt: Seq<u8>,
    pub memory: u32,
    pub iterations: u32,
    pub key_len: u16,
    pub parallelism: u32,
}

impl View for KdfData {
    type V = KdfView;

    open spec fn view(&self) -> KdfView {
        match self {
            KdfData::Argon2Id { salt, memory, iterations, key_len, parallelism } => KdfView {
                salt: salt@,
                memory: *memory,
                iterations: *iterations,
                key_len: *key_len,
                parallelism: *parallelism,
            },
        }
    }
}

/// The sealed payload: a fresh nonce and the ciphertext followed by its tag.
#[derive(Debug, Clone)]
pub struct XChaCha20Poly1305BlobV1 {
    pub nonce: [u8; 24],
    pub ciphertext: Vec<u8>,
}

pub struct BlobView {
    pub nonce: Seq<u8>,
    pub ciphertext: Seq<u8>,
}

impl View for XChaCha20Poly1305BlobV1 {
    type V = BlobView;

    open spec fn view(&self) -> BlobView {
        BlobView { nonce: self.nonce@, ciphertext: self.ciphertext@ }
    }
}

/// The envelope.
#[derive(Debug, Clone)]
pub struct Database {
    pub version: Version,
    pub cipher: CipherData,
    pub kdf: KdfData,
    /// The encoded sealed payload.
    pub blob: Vec<u8>,
}

pub struct DatabaseView {
    pub version: Version,
    pub cipher: CipherData,
    pub kdf: KdfView,
    pub blob: Seq<u8>,
}

impl View for Database {
    type V = DatabaseView;

    open spec fn view(&self) -> DatabaseView {
        DatabaseView { version: self.version, cipher: self.cipher, kdf: self.kdf@, blob: self.blob@ }
    }
}

// ---------------------------------------------------------------- header

pub open spec fn enc_header(k: KdfView) -> Seq<u8> {
    enc_u32(0) + enc_u32(0) + enc_u32(0) + k.salt + enc_u32(k.memory) + enc_u32(k.iterations)
        + enc_u16(k.key_len) + enc_u32(k.parallelism)
}

pub open spec fn header_tags_ok(h: Seq<u8>) -> bool {
    &&& spec_u32_from_le_bytes(h.subrange(0, 4)) == 0
    &&& spec_u32_from_le_bytes(h.subrange(4, 8)) == 0
    &&& spec_u32_from_le_bytes(h.subrange(8, 12)) == 0
}

pub open spec fn kdf_of(h: Seq<u8>) -> KdfView {
    KdfView {
        salt: h.subrange(12, 28),
        memory: spec_u32_from_le_bytes(h.subrange(28, 32)),
        iterations: spec_u32_from_le_bytes(h.subrange(32, 36)),
        key_len: spec_u16_from_le_bytes(h.subrange(36, 38)),
        parallelism: spec_u32_from_le_bytes(h.subrange(38, 42)),
    }
}

proof fn lemma_header(k: KdfView)
    requires
        k.salt.len() == 16,
    ensures
        enc_header(k).len() == 42,
        header_tags_ok(enc_header(k)),
        kdf_of(enc_header(k)) == k,
{
    lemma_u32();
    lemma_u16();
    lemma_auto_spec_u32_to_from_le_bytes();
    lemma_auto_spec_u16_to_from_le_bytes();
    let h = enc_header(k);
    assert(h.subrange(0, 4) =~= enc_u32(0));
    assert(h.subrange(4, 8) =~= enc_u32(0));
    assert(h.subrange(8, 12) =~= enc_u32(0));
    assert(h.subrange(12, 28) =~= k.salt);
    assert(h.subrange(28, 32) =~= enc_u32(k.memory));
    assert(h.subrange(32, 36) =~= enc_u32(k.iterations));
    assert(h.subrange(36, 38) =~= enc_u16(k.key_len));
    assert(h.subrange(38, 42) =~= enc_u32(k.parallelism));
}

proof fn lemma_header_sound(h: Seq<u8>)
    requires
        h.len() == 42,
        header_tags_ok(h),
    ensures
        enc_header(kdf_of(h)) == h,
        kdf_of(h).salt.len() == 16,
{
    lemma_auto_spec_u32_to_from_le_bytes();
    lemma_auto_spec_u16_to_from_le_bytes();
    let k = kdf_of(h);
    assert(enc_u32(0) == h.subrange(0, 4));
    assert(enc_u32(0) == h.subrange(4, 8));
    assert(enc_u32(0) == h.subrange(8, 12));
    assert(enc_u32(k.memory) == h.subrange(28, 32));
    assert(enc_u32(k.iterations) == h.subrange(32, 36));
    assert(enc_u16(k.key_len) == h.subrange(36, 38));
    assert(enc_u32(k.parallelism) == h.subrange(38, 42));
    assert(enc_header(k) =~= h);
}

// ---------------------------------------------------------------- envelope

pub open spec fn wf_database(d: DatabaseView) -> bool {
    d.kdf.salt.len() == 16 && wf_bytes(d.blob)
}

pub open spec fn enc_database(d: DatabaseView) -> Seq<u8> {
    enc_header(d.kdf) + enc_bytes(d.blob)
}

pub open spec fn p_database(s: Seq<u8>) -> Parsed<DatabaseView> {
    if s.len() >= 42 && header_tags_ok(s.take(42)) {
        match p_bytes(s.skip(42)) {
            Some((blob, n)) => Some(
                (
                    DatabaseView {
                        version: Version::V1,
                        cipher: CipherData::XChaCha20Poly1305V1,
                        kdf: kdf_of(s.take(42)),
                        blob,
                    },
                    42 + n,
                ),
            ),
            None => None,
        }
    } else {
        None
    }
}

/// What a byte string decodes to as an envelope, if it is exactly the
/// encoding of one.
pub open spec fn decoded_database(b: Seq<u8>) -> Option<DatabaseView> {
    match p_database(b) {
        Some((d, n)) => if n == b.len() {
            Some(d)
        } else {
            None
        },
        None => None,
    }
}

/// The associated data bound to the ciphertext: the envelope's encoding
/// with an empty payload.
pub open spec fn aad_of(d: DatabaseView) -> Seq<u8> {
    enc_database(DatabaseView { blob: Seq::empty(), ..d })
}

/// The associated data determines every header field: two envelopes whose
/// payloads are sealed under the same associated data agree on the format
/// version, the cipher and all key-derivation parameters. So rewriting any
/// of them changes what the tag was computed over.
pub proof fn lemma_aad_binds_header(d1: DatabaseView, d2: DatabaseView)
    requires
        d1.kdf.salt.len() == 16,
        d2.kdf.salt.len() == 16,
        aad_of(d1) == aad_of(d2),
    ensures
        d1.version == d2.version,
        d1.cipher == d2.cipher,
        d1.kdf == d2.kdf,
{
    let e1 = DatabaseView { blob: Seq::empty(), ..d1 };
    let e2 = DatabaseView { blob: Seq::empty(), ..d2 };
    lemma_database_round_trip(e1);
    lemma_database_round_trip(e2);
    assert(d1.version == Version::V1 && d2.version == Version::V1);
    assert(d1.cipher == CipherData::XChaCha20Poly1305V1 && d2.cipher == CipherData::XChaCha20Poly1305V1);
}

/// Decoding the encoding of an envelope gives that envelope back.
pub proof fn lemma_database_round_trip(d: DatabaseView)
    requires
        wf_database(d),
    ensures
        decoded_database(enc_database(d)) == Some(d),
{
    lemma_bytes();
    lemma_header(d.kdf);
    let s = enc_database(d);
    assert(s.take(42) =~= enc_header(d.kdf));
    assert(s.skip(42) =~= enc_bytes(d.blob) + Seq::<u8>::empty());
    assert(p_bytes(enc_bytes(d.blob) + Seq::<u8>::empty()) == Some((d.blob, enc_bytes(d.blob).len() as int)));
}

/// A byte string that decodes as an envelope is that envelope's encoding.
pub proof fn lemma_database_canonical(b: Seq<u8>)
    ensures
        decoded_database(b) matches Some(d) ==> enc_database(d) == b && wf_database(d),
{
    lemma_bytes();
    if let Some(d) = decoded_database(b) {
        lemma_header_sound(b.take(42));
        let (blob, n) = p_bytes(b.skip(42)).unwrap();
        lemma_take_split(b, 42, n);
        assert(b.take(b.len() as int) =~= b);
    }
}

/// The header, then the payload.
pub fn encode_database(d: &Database) -> (r: Vec<u8>)
    ensures
        r@ == enc_database(d@),
{
    let mut out: Vec<u8> = Vec::new();
    put_header(&mut out, &d.kdf);
    put_bytes(&mut out, d.blob.as_slice());
    assert(out@ =~= enc_database(d@));
    out
}

/// The associated data of an envelope.
pub fn encode_aad(d: &Database) -> (r: Vec<u8>)
    ensures
        r@ == aad_of(d@),
{
    let mut out: Vec<u8> = Vec::new();
    put_header(&mut out, &d.kdf);
    let empty: Vec<u8> = Vec::new();
    put_bytes(&mut out, empty.as_slice());
    assert(out@ =~= aad_of(d@));
    out
}

fn put_header(out: &mut Vec<u8>, k: &KdfData)
    ensures
        final(out)@ == old(out)@ + enc_header(k@),
{
    let ghost start = out@;
    match k {
        KdfData::Argon2Id { salt, memory, iterations, key_len, parallelism } => {
            put_u32(out, 0);
            put_u32(out, 0);
            put_u32(out, 0);
            put_slice(out, salt.as_slice());
            put_u32(out, *memory);
            put_u32(out, *iterations);
            put_u16(out, *key_len);
            put_u32(out, *parallelism);
        },
    }
    assert(out@ =~= start + enc_header(k@));
}

/// Decodes an envelope; `None` exactly when the bytes are not the encoding
/// of one.
pub fn decode_database(b: &[u8]) -> (r: Option<Database>)
    ensures
        match decoded_database(b@) {
            Some(d) => r matches Some(x) && x@ == d,
            None => r is None,
        },
{
    if b.len() < 42 {
        return None;
    }
    let ghost h = b@.take(42);
    assert(b@.skip(0) =~= b@);
    let (t0, _) = get_u32(b, 0).unwrap();
    let (t1, _) = get_u32(b, 4).unwrap();
    let (t2, _) = get_u32(b, 8).unwrap();
    proof {
        assert(b@.skip(0).take(4) =~= h.subrange(0, 4));
        assert(b@.skip(4).take(4) =~= h.subrange(4, 8));
        assert(b@.skip(8).take(4) =~= h.subrange(8, 12));
    }
    if t0 != 0 || t1 != 0 || t2 != 0 {
        return None;
    }
    let mut salt = [0u8; 16];
    let mut i: usize = 0;
    while i < 16
        invariant
            i <= 16,
            b@.len() >= 42,
            forall|j: int| 0 <= j < i ==> salt@[j] == b@[12 + j],
        decreases 16 - i,
    {
        salt[i] = b[12 + i];
        i = i + 1;
    }
    let (memory, _) = get_u32(b, 28).unwrap();
    let (iterations, _) = get_u32(b, 32).unwrap();
    let (key_len, _) = get_u16(b, 36).unwrap();
    let (parallelism, _) = get_u32(b, 38).unwrap();
    proof {
        assert(salt@ =~= h.subrange(12, 28));
        assert(b@.skip(28).take(4) =~= h.subrange(28, 32));
        assert(b@.skip(32).take(4) =~= h.subrange(32, 36));
        assert(b@.skip(36).take(2) =~= h.subrange(36, 38));
        assert(b@.skip(38).take(4) =~= h.subrange(38, 42));
    }
    let (blob, end) = match get_bytes(b, 42) {
        Some(x) => x,
        None => return None,
    };
    if end != b.len() {
        return None;
    }
    Some(
        Database {
            version: Version::V1,
            cipher: CipherData::XChaCha20Poly1305V1,
            kdf: KdfData::Argon2Id { salt, memory, iterations, key_len, parallelism },
            blob,
        },
    )
}

// ---------------------------------------------------------------- payload

pub open spec fn enc_blob(v: BlobView) -> Seq<u8> {
    v.nonce + enc_bytes(v.ciphertext)
}

pub open spec fn decoded_blob(s: Seq<u8>) -> Option<BlobView> {
    if s.len() >= 24 {
        match p_bytes(s.skip(24)) {
            Some((c, n)) => if 24 + n == s.len() {
                Some(BlobView { nonce: s.take(24), ciphertext: c })
            } else {
                None
            },
            None => None,
        }
    } else {
        None
    }
}

/// Decoding an encoded payload gives it back.
pub proof fn lemma_blob_round_trip(v: BlobView)
    requires
        v.nonce.len() == 24,
        wf_bytes(v.ciphertext),
    ensures
        decoded_blob(enc_blob(v)) == Some(v),
{
    lemma_bytes();
    let s = enc_blob(v);
    assert(s.skip(24) =~= enc_bytes(v.ciphertext) + Seq::<u8>::empty());
    assert(p_bytes(enc_bytes(v.ciphertext) + Seq::<u8>::empty()) == Some((v.ciphertext, enc_bytes(v.ciphertext).len() as int)));
    assert(s.take(24) =~= v.nonce);
}

pub fn encode_blob(v: &XChaCha20Poly1305BlobV1) -> (r: Vec<u8>)
    ensures
        r@ == enc_blob(v@),
{
    let mut out: Vec<u8> = Vec::new();
    put_slice(&mut out, v.nonce.as_slice());
    put_bytes(&mut out, v.ciphertext.as_slice());
    assert(out@ =~= enc_blob(v@));
    out
}

pub fn decode_blob(b: &[u8]) -> (r: Option<XChaCha20Poly1305BlobV1>)
    ensures
        match decoded_blob(b@) {
            Some(v) => r matches Some(x) && x@ == v,
            None => r is None,
        },
{
    if b.len() < 24 {
        return None;
    }
    let mut nonce = [0u8; 24];
    let mut i: usize = 0;
    while i < 24
        invariant
            i <= 24,
            b@.len() >= 24,
            forall|j: int| 0 <= j < i ==> nonce@[j] == b@[j],
        decreases 24 - i,
    {
        nonce[i] = b[i];
        i = i + 1;
    }
    assert(nonce@ =~= b@.take(24));
    let (ciphertext, end) = match get_bytes(b, 24) {
        Some(x) => x,
        None => return None,
    };
    if end != b.len() {
        return None;
    }
    Some(XChaCha20Poly1305BlobV1 { nonce, ciphertext })
}

} // verus!
