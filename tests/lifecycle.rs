use passk::atomic_write::{replace_next, replace_start, ReplaceAction, ReplaceOutcome, ReplaceState};
use passk::container::{emit_container, parse_container};
use passk::envelope::KdfData;
use passk::error::VaultError;
use passk::record::{Data, Entry, Field, FieldValue, Timestamp};
use passk::vault::{
    change_passphrase_with, create, create_with_salt, decrypt_database, derive_key, encrypt_database, now,
    save, save_with_nonce, unlock,
};

const T0: i64 = 1_700_000_000_123_456_789;

fn ts(n: i64) -> Timestamp {
    Timestamp { nanos: n }
}

fn acme_record(data: &mut Data) {
    data.entries.push(Entry {
        name: "acme".to_string(),
        fields: vec![Field {
            name: "user".to_string(),
            value: FieldValue::Text("alice".to_string()),
            hidden: false,
            date_added: ts(T0),
            date_modified: ts(T0),
            date_accessed: ts(T0),
        }],
        tags: vec![],
        created_at: ts(T0),
        modified_at: ts(T0),
        accessed_at: ts(T0),
    });
}

/// A vault created with the default parameters, holding
/// one entry, saved once with "correct horse".
fn saved_vault() -> Vec<u8> {
    let (mut db, mut data) = create_with_salt([7u8; 16], ts(T0));
    acme_record(&mut data);
    save_with_nonce(&mut db, &mut data, "correct horse", &[9u8; 24], ts(T0 + 5)).unwrap()
}

#[test]
fn create_save_open_round_trip() {
    let file = saved_vault();
    let (_, data) = unlock(&file, "correct horse").unwrap();
    assert_eq!(data.iteration, 1);
    assert_eq!(data.entries.len(), 1);
    let entry = &data.entries[0];
    assert_eq!(entry.name, "acme");
    assert_eq!(entry.fields.len(), 1);
    assert_eq!(entry.fields[0].name, "user");
    assert_eq!(entry.fields[0].value, FieldValue::Text("alice".to_string()));
    assert!(!entry.fields[0].hidden);
    assert_eq!(data.created_at, ts(T0));
    assert_eq!(data.modified_at, ts(T0 + 5));
}

#[test]
fn wrong_passphrase_is_auth_failure() {
    let file = saved_vault();
    let before = file.clone();
    let r = unlock(&file, "wrong");
    assert!(matches!(r, Err(VaultError::AuthFailure)));
    assert_eq!(file, before);
}

#[test]
fn flipped_salt_bit_is_auth_failure() {
    let mut file = saved_vault();
    // magic (7) + "0.1\n" (4) + three variant tags (12): the salt starts at 23
    file[23] ^= 0x01;
    let r = unlock(&file, "correct horse");
    assert!(matches!(r, Err(VaultError::AuthFailure)));
}

#[test]
fn flipped_cost_bit_is_auth_failure() {
    let mut file = saved_vault();
    // the iteration count follows the salt and the memory cost
    file[11 + 12 + 16 + 4] ^= 0x01;
    let r = unlock(&file, "correct horse");
    assert!(matches!(r, Err(VaultError::AuthFailure)));
}

#[test]
fn unknown_version_is_rejected() {
    let mut file = saved_vault();
    file[7] = b'9';
    file[8] = b'.';
    file[9] = b'9';
    let r = unlock(&file, "correct horse");
    assert_eq!(r.err(), Some(VaultError::UnsupportedVersion("9.9".to_string())));
}

#[test]
fn broken_magic_is_not_a_vault() {
    let mut file = saved_vault();
    file[0] = 0x00;
    let r = unlock(&file, "correct horse");
    assert!(matches!(r, Err(VaultError::NotAVault)));
}

#[test]
fn each_save_counts_one_more() {
    let (mut db, mut data) = create_with_salt([3u8; 16], ts(T0));
    fast_kdf(&mut db.kdf);
    let mut last = 0;
    for k in 1..4u64 {
        let file = save(&mut db, &mut data, "pw", ts(T0 + k as i64)).unwrap();
        let (_, back) = unlock(&file, "pw").unwrap();
        assert_eq!(back.iteration, k);
        assert!(back.iteration > last);
        last = back.iteration;
    }
}

#[test]
fn save_at_counter_limit_is_aborted_and_changes_nothing() {
    let (mut db, mut data) = create_with_salt([3u8; 16], ts(T0));
    fast_kdf(&mut db.kdf);
    data.iteration = u64::MAX;
    let r = save(&mut db, &mut data, "pw", ts(T0 + 1));
    assert!(matches!(r, Err(VaultError::WriteAborted)));
    assert_eq!(data.iteration, u64::MAX);
    assert_eq!(data.modified_at, ts(T0));
    assert!(db.blob.is_empty());
}

#[test]
fn modified_never_precedes_created() {
    let (mut db, mut data) = create_with_salt([3u8; 16], ts(T0));
    fast_kdf(&mut db.kdf);
    save(&mut db, &mut data, "pw", ts(T0 - 1000)).unwrap();
    assert_eq!(data.modified_at, ts(T0));
}

#[test]
fn change_passphrase_replaces_salt_and_key() {
    let (mut db, mut data) = create_with_salt([3u8; 16], ts(T0));
    fast_kdf(&mut db.kdf);
    acme_record(&mut data);
    save(&mut db, &mut data, "old", ts(T0 + 1)).unwrap();
    let file = change_passphrase_with(&mut db, &mut data, "new", [5u8; 16], &[6u8; 24], ts(T0 + 2)).unwrap();
    match db.kdf {
        KdfData::Argon2Id { salt, .. } => assert_eq!(salt, [5u8; 16]),
    }
    assert!(matches!(unlock(&file, "old"), Err(VaultError::AuthFailure)));
    let (_, back) = unlock(&file, "new").unwrap();
    assert_eq!(back.iteration, 2);
    assert_eq!(back.entries[0].name, "acme");
}

#[test]
fn out_of_policy_kdf_is_refused() {
    let (mut db, _) = create_with_salt([3u8; 16], ts(T0));
    db.kdf = KdfData::Argon2Id { salt: [3u8; 16], memory: 1048577, iterations: 2, key_len: 32, parallelism: 1 };
    assert!(matches!(derive_key(&db.kdf, "pw"), Err(VaultError::KdfRefused)));
    db.kdf = KdfData::Argon2Id { salt: [3u8; 16], memory: 64, iterations: 65, key_len: 32, parallelism: 1 };
    assert!(matches!(derive_key(&db.kdf, "pw"), Err(VaultError::KdfRefused)));
    db.kdf = KdfData::Argon2Id { salt: [3u8; 16], memory: 64, iterations: 1, key_len: 64, parallelism: 1 };
    assert!(matches!(derive_key(&db.kdf, "pw"), Err(VaultError::KdfRefused)));
    assert!(matches!(decrypt_database(&db, "pw"), Err(VaultError::KdfRefused)));
}

#[test]
fn backend_refusal_is_kdf_internal() {
    // Argon2 needs at least 8 KiB per lane.
    let kdf = KdfData::Argon2Id { salt: [3u8; 16], memory: 4, iterations: 1, key_len: 32, parallelism: 1 };
    assert!(matches!(derive_key(&kdf, "pw"), Err(VaultError::KdfInternal)));
}

#[test]
fn derived_key_is_deterministic_and_depends_on_passphrase() {
    let kdf = KdfData::Argon2Id { salt: [3u8; 16], memory: 64, iterations: 1, key_len: 32, parallelism: 1 };
    let a = derive_key(&kdf, "pw").unwrap();
    let b = derive_key(&kdf, "pw").unwrap();
    let c = derive_key(&kdf, "pX").unwrap();
    assert_eq!(a.len(), 32);
    assert_eq!(a, b);
    assert_ne!(a, c);
    assert_ne!(a, b"pw".to_vec());
}

#[test]
fn sealed_payload_opens_to_the_record() {
    let (mut db, mut data) = create_with_salt([3u8; 16], ts(T0));
    fast_kdf(&mut db.kdf);
    acme_record(&mut data);
    let blob = encrypt_database(&data, &db, "pw", &[4u8; 24]).unwrap();
    // nonce, ciphertext length, ciphertext with its 16-byte tag
    assert_eq!(&blob[..24], &[4u8; 24]);
    assert!(blob.len() > 24 + 8 + 16);
    db.blob = blob;
    let back = decrypt_database(&db, "pw").unwrap();
    assert_eq!(back.entries[0].fields[0].value, FieldValue::Text("alice".to_string()));
    assert!(matches!(decrypt_database(&db, "other"), Err(VaultError::AuthFailure)));
}

#[test]
fn altered_ciphertext_is_auth_failure() {
    let (mut db, mut data) = create_with_salt([3u8; 16], ts(T0));
    fast_kdf(&mut db.kdf);
    acme_record(&mut data);
    let mut blob = encrypt_database(&data, &db, "pw", &[4u8; 24]).unwrap();
    let last = blob.len() - 1;
    blob[last] ^= 0x80;
    db.blob = blob;
    assert!(matches!(decrypt_database(&db, "pw"), Err(VaultError::AuthFailure)));
}

#[test]
fn malformed_payload_is_corrupt() {
    let (mut db, _) = create_with_salt([3u8; 16], ts(T0));
    fast_kdf(&mut db.kdf);
    db.blob = vec![1, 2, 3];
    assert!(matches!(decrypt_database(&db, "pw"), Err(VaultError::CorruptRecord)));
}

#[test]
fn random_salt_and_nonce_differ_between_calls() {
    let (db1, _) = create(ts(T0));
    let (db2, _) = create(ts(T0));
    assert_ne!(db1.kdf, db2.kdf);
    let (mut db, mut data) = create_with_salt([3u8; 16], ts(T0));
    fast_kdf(&mut db.kdf);
    let f1 = save(&mut db, &mut data, "pw", ts(T0 + 1)).unwrap();
    let f2 = save(&mut db, &mut data, "pw", ts(T0 + 1)).unwrap();
    let n = 11 + 42 + 8;
    assert_ne!(&f1[n..n + 24], &f2[n..n + 24]);
}

#[test]
fn clock_reads_a_recent_instant() {
    let t = now().unwrap();
    assert!(t.nanos > 1_600_000_000_000_000_000);
}

#[test]
fn written_file_parses_back_to_its_envelope() {
    let (mut db, mut data) = create_with_salt([3u8; 16], ts(T0));
    fast_kdf(&mut db.kdf);
    let file = save(&mut db, &mut data, "pw", ts(T0 + 1)).unwrap();
    let parsed = parse_container(&file).unwrap();
    assert_eq!(parsed.kdf, db.kdf);
    assert_eq!(parsed.blob, db.blob);
    assert_eq!(emit_container(&parsed), file);
}

fn fast_kdf(kdf: &mut KdfData) {
    let KdfData::Argon2Id { salt, .. } = *kdf;
    *kdf = KdfData::Argon2Id { salt, memory: 64, iterations: 1, key_len: 32, parallelism: 1 };
}

#[test]
fn replacement_steps_in_order_when_all_succeed() {
    let (mut s, mut a) = replace_start();
    let mut actions = vec![a];
    while a != ReplaceAction::Stop {
        (s, a) = replace_next(s, true);
        actions.push(a);
    }
    assert_eq!(
        actions,
        vec![
            ReplaceAction::WriteTemp,
            ReplaceAction::SyncTemp,
            ReplaceAction::RenameOverTarget,
            ReplaceAction::SyncDir,
            ReplaceAction::Stop
        ]
    );
    assert_eq!(s, ReplaceState::Done(ReplaceOutcome::Replaced));
}

#[test]
fn replacement_failure_before_rename_removes_temp_and_aborts() {
    for failing in [ReplaceState::Writing, ReplaceState::SyncingTemp, ReplaceState::Renaming] {
        let (s, a) = replace_next(failing, false);
        assert_eq!((s, a), (ReplaceState::RemovingTemp, ReplaceAction::RemoveTemp));
        let (s, a) = replace_next(s, false);
        assert_eq!((s, a), (ReplaceState::Done(ReplaceOutcome::Aborted), ReplaceAction::Stop));
    }
    let (s, _) = replace_next(ReplaceState::SyncingDir, false);
    assert_eq!(s, ReplaceState::Done(ReplaceOutcome::ReplacedNotDurable));
}

#[test]
fn lane_count_outside_policy_is_refused() {
    for lanes in [0u32, 1 << 24, 1 << 29, u32::MAX] {
        let kdf = KdfData::Argon2Id { salt: [3u8; 16], memory: 64, iterations: 1, key_len: 32, parallelism: lanes };
        assert!(matches!(derive_key(&kdf, "pw"), Err(VaultError::KdfRefused)));
    }
}

#[test]
fn crafted_lane_count_in_file_is_refused_not_a_crash() {
    let mut file = saved_vault();
    // the lane count is the last header field: 11 + 12 + 16 + 4 + 4 + 2
    let at = 11 + 12 + 16 + 4 + 4 + 2;
    file[at..at + 4].copy_from_slice(&(1u32 << 29).to_le_bytes());
    assert!(matches!(unlock(&file, "correct horse"), Err(VaultError::KdfRefused)));
}

#[test]
fn too_little_memory_per_lane_is_kdf_internal() {
    let kdf = KdfData::Argon2Id { salt: [3u8; 16], memory: 15, iterations: 1, key_len: 32, parallelism: 2 };
    assert!(matches!(derive_key(&kdf, "pw"), Err(VaultError::KdfInternal)));
    let kdf = KdfData::Argon2Id { salt: [3u8; 16], memory: 64, iterations: 0, key_len: 32, parallelism: 1 };
    assert!(matches!(derive_key(&kdf, "pw"), Err(VaultError::KdfInternal)));
}

#[test]
fn payload_is_record_plus_tag() {
    let (mut db, mut data) = create_with_salt([3u8; 16], ts(T0));
    fast_kdf(&mut db.kdf);
    acme_record(&mut data);
    let blob = encrypt_database(&data, &db, "pw", &[4u8; 24]).unwrap();
    let record_len = passk::record_codec::encode_data(&data).len();
    let ct_len = u64::from_le_bytes(blob[24..32].try_into().unwrap()) as usize;
    assert_eq!(ct_len, record_len + 16);
    assert_eq!(blob.len(), 24 + 8 + record_len + 16);
}
