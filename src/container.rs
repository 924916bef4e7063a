//! The vault file: a fixed 7-byte magic, the ASCII version line ended by a
//! single line break, then the encoded envelope up to the end of the file.

use crate::envelope::{Database, DatabaseView, decode_database, decoded_database, enc_database, encode_database, lemma_database_canonical, lemma_database_round_trip, wf_database};
use crate::error::VaultError;
use crate::wire::{put_slice, utf8_text};
use vstd::prelude::*;
use vstd::slice::*;
use vstd::utf8::*;

verus! {

/// The file magic: a non-ASCII first byte, then `PASSKX`.
pub const MAGIC: [u8; 7] = [0xFF, 0x50, 0x41, 0x53, 0x53, 0x4B, 0x58];

/// The one version line this library reads and writes: `0.1`.
pub const VERSION_LINE: [u8; 3] = [0x30, 0x2E, 0x31];

pub open spec fn magic() -> Seq<u8> {
    seq![0xFFu8, 0x50u8, 0x41u8, 0x53u8, 0x53u8, 0x4Bu8, 0x58u8]
}

pub open spec fn version_line() -> Seq<u8> {
    seq![0x30u8, 0x2Eu8, 0x31u8]
}

pub open spec fn has_magic(b: Seq<u8>) -> bool {
    b.len() >= 7 && b.take(7) == magic()
}

/// `i` is the first line break after the magic.
pub open spec fn first_newline(b: Seq<u8>, i: int) -> bool {
    &&& 7 <= i < b.len()
    &&& b[i] == 10
    &&& forall|j: int| 7 <= j < i ==> b[j] != 10
}

pub open spec fn no_newline(b: Seq<u8>) -> bool {
    forall|j: int| 7 <= j < b.len() ==> b[j] != 10
}

/// The bytes of a vault file holding the envelope `d`.
pub open spec fn container_of(d: DatabaseView) -> Seq<u8> {
    magic() + version_line() + seq![10u8] + enc_database(d)
}

/// The envelope a file holds, when it is a well-formed vault file of the
/// supported version.
pub open spec fn container_database(b: Seq<u8>) -> Option<DatabaseView> {
    if b.len() > 11 && has_magic(b) && b.subrange(7, 10) == version_line() && b[10] == 10 {
        decoded_database(b.skip(11))
    } else {
        None
    }
}

/// A written vault file reads back as the envelope that was written.
pub proof fn lemma_container_round_trip(d: DatabaseView)
    requires
        wf_database(d),
    ensures
        container_database(container_of(d)) == Some(d),
{
    lemma_database_round_trip(d);
    let b = container_of(d);
    assert(b.take(7) =~= magic());
    assert(b.subrange(7, 10) =~= version_line());
    assert(b[10] == 10);
    assert(b.skip(11) =~= enc_database(d));
    assert(enc_database(d).len() > 0);
}

/// A file that reads as an envelope is exactly that envelope's file.
pub proof fn lemma_container_canonical(b: Seq<u8>)
    ensures
        container_database(b) matches Some(d) ==> container_of(d) == b,
{
    if let Some(d) = container_database(b) {
        lemma_database_canonical(b.skip(11));
        assert(b =~= b.take(7) + b.subrange(7, 10) + seq![10u8] + b.skip(11));
        assert(container_of(d) =~= b);
    }
}

/// Parses a vault file into its envelope.
///
/// `NotAVault` without the magic; `BadHeader` when no line break follows
/// it, or the version line is not UTF-8; `UnsupportedVersion` with the text
/// of any other version line; `Truncated` when nothing follows the line;
/// `CorruptRecord` when what follows is not an envelope.
pub fn parse_container(b: &[u8]) -> (r: Result<Database, VaultError>)
    ensures
        !has_magic(b@) ==> r == Err::<Database, VaultError>(VaultError::NotAVault),
        has_magic(b@) && no_newline(b@) ==> r == Err::<Database, VaultError>(VaultError::BadHeader),
        forall|i: int|
            has_magic(b@) && #[trigger] first_newline(b@, i) && b@.subrange(7, i) != version_line()
                ==> if valid_utf8(b@.subrange(7, i)) {
                r matches Err(VaultError::UnsupportedVersion(t)) && t@ == decode_utf8(
                    b@.subrange(7, i),
                )
            } else {
                r == Err::<Database, VaultError>(VaultError::BadHeader)
            },
        has_magic(b@) && b@.len() == 11 && b@.subrange(7, 10) == version_line() && b@[10] == 10
            ==> r == Err::<Database, VaultError>(VaultError::Truncated),
        r is Ok <==> container_database(b@) is Some,
        r matches Ok(x) ==> container_database(b@) == Some(x@),
        has_magic(b@) && b@.len() > 11 && b@.subrange(7, 10) == version_line() && b@[10] == 10
            && container_database(b@) is None ==> r == Err::<Database, VaultError>(
            VaultError::CorruptRecord,
        ),
{
    if b.len() < 7 {
        return Err(VaultError::NotAVault);
    }
    let mut k: usize = 0;
    while k < 7
        invariant
            k <= 7,
            b@.len() >= 7,
            forall|j: int| 0 <= j < k ==> b@[j] == magic()[j],
        decreases 7 - k,
    {
        if b[k] != MAGIC[k] {
            assert(b@.take(7)[k as int] != magic()[k as int]);
            return Err(VaultError::NotAVault);
        }
        k = k + 1;
    }
    assert(b@.take(7) =~= magic());
    let mut nl: usize = 7;
    while nl < b.len() && b[nl] != 10
        invariant
            7 <= nl <= b@.len(),
            forall|j: int| 7 <= j < nl ==> b@[j] != 10,
        decreases b@.len() - nl,
    {
        nl = nl + 1;
    }
    if nl == b.len() {
        return Err(VaultError::BadHeader);
    }
    assert(first_newline(b@, nl as int));
    let line = slice_subrange(b, 7, nl);
    let known = nl == 10 && line[0] == VERSION_LINE[0] && line[1] == VERSION_LINE[1] && line[2]
        == VERSION_LINE[2];
    if !known {
        proof {
            if nl == 10 {
                assert(line@ != version_line());
            }
            assert forall|i: int| #[trigger] first_newline(b@, i) implies i == nl by {
                if i < nl {
                    assert(b@[i] != 10);
                } else if i > nl {
                    assert(b@[nl as int] != 10);
                }
            }
            assert(b@.subrange(7, 10) != version_line() || nl != 10);
        }
        return match utf8_text(line) {
            Some(t) => {
                proof {
                    broadcast use encode_utf8_decode_utf8;

                    assert(t@ == decode_utf8(encode_utf8(t@)));
                }
                Err(VaultError::UnsupportedVersion(t))
            },
            None => Err(VaultError::BadHeader),
        };
    }
    assert(line@ =~= version_line());
    if b.len() == 11 {
        return Err(VaultError::Truncated);
    }
    let tail = slice_subrange(b, 11, b.len());
    assert(tail@ =~= b@.skip(11));
    match decode_database(tail) {
        Some(d) => Ok(d),
        None => Err(VaultError::CorruptRecord),
    }
}

/// The bytes of the vault file holding `d`; parsing them gives `d` back.
pub fn emit_container(d: &Database) -> (r: Vec<u8>)
    ensures
        r@ == container_of(d@),
        container_database(r@) == Some(d@),
{
    // the payload's length fits its 64-bit prefix
    let size = d.blob.len();
    proof {
        assert(size as u64 == d.blob@.len());
        lemma_container_round_trip(d@);
    }
    let mut out: Vec<u8> = Vec::new();
    put_slice(&mut out, MAGIC.as_slice());
    put_slice(&mut out, VERSION_LINE.as_slice());
    out.push(10);
    let body = encode_database(d);
    put_slice(&mut out, body.as_slice());
    proof {
        assert(MAGIC@ =~= magic());
        assert(VERSION_LINE@ =~= version_line());
    }
    assert(out@ =~= container_of(d@));
    out
}

} // verus!
