use passk::container::{emit_container, parse_container, MAGIC, VERSION_LINE};
use passk::envelope::{decode_blob, decode_database, encode_aad, encode_blob, encode_database, CipherData, Database, KdfData, Version, XChaCha20Poly1305BlobV1};
use passk::error::VaultError;
use passk::record::{Data, Entry, EntryTag, Field, FieldValue, FieldValueKind, Timestamp, TwoFACode};
use passk::record_codec::{decode_data, encode_data};

fn ts(n: i64) -> Timestamp {
    Timestamp { nanos: n }
}

fn field(name: &str, value: FieldValue, hidden: bool) -> Field {
    Field { name: name.to_string(), value, hidden, date_added: ts(1), date_modified: ts(2), date_accessed: ts(-3) }
}

fn sample() -> Data {
    let fields = vec![
        field("user", FieldValue::Text("alice".to_string()), false),
        field("site", FieldValue::Url("https://example.org".to_string()), false),
        field("tel", FieldValue::Phone("+33 1 23".to_string()), false),
        field("mail", FieldValue::Email("a@example.org".to_string()), false),
        field("otp", FieldValue::TOTPRFC6238("JBSWY3DPEHPK3PXP".to_string()), true),
        field("steam", FieldValue::TOTPSteam("STEAMKEY".to_string()), true),
        field(
            "codes",
            FieldValue::TwoFactorRecovery(vec![
                TwoFACode { value: "1111-2222".to_string(), expired: None },
                TwoFACode { value: "3333-4444".to_string(), expired: Some(ts(99)) },
            ]),
            true,
        ),
        field("blob", FieldValue::Binary { mimetype: "image/png".to_string(), base64: "iVBORw0KGgo=".to_string() }, false),
        field("ünïcödé ✓", FieldValue::Text("日本語".to_string()), false),
    ];
    Data {
        iteration: 7,
        entries: vec![
            Entry {
                name: "work/acme".to_string(),
                fields,
                tags: vec![
                    EntryTag { name: "tag1".to_string(), icon: None, color: None },
                    EntryTag { name: "tag2".to_string(), icon: Some("★".to_string()), color: Some(0x00ff00) },
                ],
                created_at: ts(10),
                modified_at: ts(11),
                accessed_at: ts(12),
            },
            Entry {
                name: "empty".to_string(),
                fields: vec![],
                tags: vec![],
                created_at: ts(i64::MIN),
                modified_at: ts(i64::MAX),
                accessed_at: ts(0),
            },
        ],
        created_at: ts(1_700_000_000_000_000_001),
        modified_at: ts(1_700_000_000_000_000_002),
    }
}

fn same(a: &Data, b: &Data) {
    assert_eq!(a.iteration, b.iteration);
    assert_eq!(a.created_at, b.created_at);
    assert_eq!(a.modified_at, b.modified_at);
    assert_eq!(a.entries.len(), b.entries.len());
    for (x, y) in a.entries.iter().zip(b.entries.iter()) {
        assert_eq!(x.name, y.name);
        assert_eq!((x.created_at, x.modified_at, x.accessed_at), (y.created_at, y.modified_at, y.accessed_at));
        assert_eq!(x.fields.len(), y.fields.len());
        for (f, g) in x.fields.iter().zip(y.fields.iter()) {
            assert_eq!(f.name, g.name);
            assert_eq!(f.value, g.value);
            assert_eq!(f.hidden, g.hidden);
            assert_eq!((f.date_added, f.date_modified, f.date_accessed), (g.date_added, g.date_modified, g.date_accessed));
        }
        assert_eq!(x.tags.len(), y.tags.len());
        for (t, u) in x.tags.iter().zip(y.tags.iter()) {
            assert_eq!((&t.name, &t.icon, t.color), (&u.name, &u.icon, u.color));
        }
    }
}

#[test]
fn record_round_trip() {
    let d = sample();
    let bytes = encode_data(&d);
    let back = decode_data(&bytes).unwrap();
    same(&d, &back);
    assert_eq!(encode_data(&back), bytes);
}

#[test]
fn empty_record_encoding_is_exact() {
    let d = Data { iteration: 1, entries: vec![], created_at: ts(2), modified_at: ts(-1) };
    let bytes = encode_data(&d);
    let mut expected = vec![1, 0, 0, 0, 0, 0, 0, 0];
    expected.extend_from_slice(&[0; 8]);
    expected.extend_from_slice(&[2, 0, 0, 0, 0, 0, 0, 0, b'Z']);
    expected.extend_from_slice(&[0xff; 8]);
    expected.push(b'Z');
    assert_eq!(bytes, expected);
}

#[test]
fn field_value_tag_is_kind_id() {
    let mut d = sample();
    d.entries.truncate(1);
    d.entries[0].fields.truncate(1);
    d.entries[0].tags.clear();
    d.entries[0].fields[0].value = FieldValue::Email("x".to_string());
    let bytes = encode_data(&d);
    // counter, entry count, entry name, field count, field name: the kind follows
    let at = 8 + 8 + (8 + 9) + 8 + (8 + 4);
    assert_eq!(&bytes[at..at + 4], &[3, 0, 0, 0]);
    assert_eq!(FieldValueKind::Mail.id(), 3);
}

#[test]
fn truncated_record_is_corrupt() {
    let bytes = encode_data(&sample());
    for cut in [0, 1, 8, bytes.len() / 2, bytes.len() - 1] {
        assert!(matches!(decode_data(&bytes[..cut]), Err(VaultError::CorruptRecord)));
    }
}

#[test]
fn trailing_bytes_are_corrupt() {
    let mut bytes = encode_data(&sample());
    bytes.push(0);
    assert!(matches!(decode_data(&bytes), Err(VaultError::CorruptRecord)));
}

#[test]
fn unknown_field_kind_is_corrupt() {
    let mut d = sample();
    d.entries.truncate(1);
    d.entries[0].fields.truncate(1);
    d.entries[0].tags.clear();
    let mut bytes = encode_data(&d);
    let at = 8 + 8 + (8 + 9) + 8 + (8 + 4);
    bytes[at] = 8;
    assert!(matches!(decode_data(&bytes), Err(VaultError::CorruptRecord)));
}

#[test]
fn invalid_utf8_is_corrupt() {
    let mut d = sample();
    d.entries.truncate(1);
    let mut bytes = encode_data(&d);
    // first byte of the entry name
    bytes[8 + 8 + 8] = 0xff;
    assert!(matches!(decode_data(&bytes), Err(VaultError::CorruptRecord)));
}

#[test]
fn oversized_length_is_corrupt() {
    let mut bytes = encode_data(&sample());
    // entry count
    bytes[8..16].copy_from_slice(&u64::MAX.to_le_bytes());
    assert!(matches!(decode_data(&bytes), Err(VaultError::CorruptRecord)));
}

#[test]
fn bad_utc_designator_is_corrupt() {
    let d = Data { iteration: 1, entries: vec![], created_at: ts(2), modified_at: ts(3) };
    let mut bytes = encode_data(&d);
    let last = bytes.len() - 1;
    bytes[last] = b'X';
    assert!(matches!(decode_data(&bytes), Err(VaultError::CorruptRecord)));
}

fn envelope() -> Database {
    Database {
        version: Version::V1,
        cipher: CipherData::XChaCha20Poly1305V1,
        kdf: KdfData::Argon2Id { salt: [0xAB; 16], memory: 65536, iterations: 2, key_len: 32, parallelism: 2 },
        blob: vec![1, 2, 3, 4, 5],
    }
}

#[test]
fn envelope_encoding_is_exact_and_round_trips() {
    let db = envelope();
    let bytes = encode_database(&db);
    let mut expected = vec![0u8; 12];
    expected.extend_from_slice(&[0xAB; 16]);
    expected.extend_from_slice(&65536u32.to_le_bytes());
    expected.extend_from_slice(&2u32.to_le_bytes());
    expected.extend_from_slice(&32u16.to_le_bytes());
    expected.extend_from_slice(&2u32.to_le_bytes());
    expected.extend_from_slice(&5u64.to_le_bytes());
    expected.extend_from_slice(&[1, 2, 3, 4, 5]);
    assert_eq!(bytes, expected);
    let back = decode_database(&bytes).unwrap();
    assert_eq!(back.kdf, db.kdf);
    assert_eq!(back.blob, db.blob);
    assert_eq!(back.version, Version::V1);
    assert_eq!(back.cipher, CipherData::XChaCha20Poly1305V1);
}

#[test]
fn aad_is_envelope_with_empty_payload() {
    let db = envelope();
    let aad = encode_aad(&db);
    assert_eq!(aad.len(), 42 + 8);
    assert_eq!(&aad[..], &encode_database(&Database { blob: vec![], ..db.clone() })[..]);
}

#[test]
fn envelope_with_unknown_tag_is_rejected() {
    let mut bytes = encode_database(&envelope());
    bytes[4] = 1;
    assert!(decode_database(&bytes).is_none());
    assert!(decode_database(&bytes[..41]).is_none());
}

#[test]
fn payload_round_trip() {
    let blob = XChaCha20Poly1305BlobV1 { nonce: [7; 24], ciphertext: vec![9; 20] };
    let bytes = encode_blob(&blob);
    assert_eq!(bytes.len(), 24 + 8 + 20);
    let back = decode_blob(&bytes).unwrap();
    assert_eq!(back.nonce, blob.nonce);
    assert_eq!(back.ciphertext, blob.ciphertext);
    assert!(decode_blob(&bytes[..30]).is_none());
}

#[test]
fn container_layout_and_round_trip() {
    let db = envelope();
    let file = emit_container(&db);
    assert_eq!(&file[..7], &[0xFF, b'P', b'A', b'S', b'S', b'K', b'X']);
    assert_eq!(&file[..7], &MAGIC);
    assert_eq!(&file[7..10], b"0.1");
    assert_eq!(&file[7..10], &VERSION_LINE);
    assert_eq!(file[10], b'\n');
    let back = parse_container(&file).unwrap();
    assert_eq!(back.kdf, db.kdf);
    assert_eq!(back.blob, db.blob);
}

#[test]
fn container_errors() {
    let file = emit_container(&envelope());
    assert!(matches!(parse_container(&file[..5]), Err(VaultError::NotAVault)));
    assert!(matches!(parse_container(b"PASSKX\x01"), Err(VaultError::NotAVault)));
    assert!(matches!(parse_container(&file[..10]), Err(VaultError::BadHeader)));
    assert!(matches!(parse_container(&file[..11]), Err(VaultError::Truncated)));
    assert!(matches!(parse_container(&file[..20]), Err(VaultError::CorruptRecord)));
    let mut long = file[..7].to_vec();
    long.extend_from_slice(b"0.10\n");
    long.extend_from_slice(&file[11..]);
    assert_eq!(parse_container(&long).err(), Some(VaultError::UnsupportedVersion("0.10".to_string())));
    let mut bad = file[..7].to_vec();
    bad.extend_from_slice(&[0xC3, 0x28, b'\n', 1]);
    assert!(matches!(parse_container(&bad), Err(VaultError::BadHeader)));
}

#[test]
fn field_value_kinds_have_ids_and_names() {
    let kinds = [
        FieldValueKind::Text,
        FieldValueKind::Url,
        FieldValueKind::Phone,
        FieldValueKind::Mail,
        FieldValueKind::TOTPRFC6238,
        FieldValueKind::TOTPSteam,
        FieldValueKind::TwoFactorRecovery,
        FieldValueKind::Binary,
    ];
    for (i, k) in kinds.iter().enumerate() {
        assert_eq!(k.id(), i);
        assert_eq!(FieldValueKind::try_from_id(i), Some(*k));
    }
    assert_eq!(FieldValueKind::try_from_id(8), None);
    assert_eq!(FieldValueKind::Mail.name(), "E-Mail");
    assert_eq!(FieldValueKind::TOTPRFC6238.name(), "TOTP (RFC-6238)");
    assert_eq!(FieldValue::Binary { mimetype: String::new(), base64: String::new() }.kind(), FieldValueKind::Binary);
}

#[test]
fn error_messages() {
    assert_eq!(VaultError::AuthFailure.message(), "wrong passphrase or altered file");
    assert_eq!(VaultError::UnsupportedVersion("9.9".to_string()).message(), "unsupported vault version: 9.9");
    assert_eq!(VaultError::Io("disk full".to_string()).message(), "i/o error: disk full");
}
