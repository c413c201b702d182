use astra_core::sync::{
    checksum_of_bytes, find_by_path, hex_string, join_path, make_local_record,
    make_remote_record, needs_upload, paths_unique, summarize_operations, sync_incremental,
    OpOutcome,
};
use astra_core::i18n::{Language, TranslationStore};
use astra_core::types::{FileStatus, OperationType, SyncOperation};

use sha2::Digest;

fn local_file(path: &str, modified: u64, content: &[u8]) -> FileStatus {
    make_local_record(path.to_string(), content.len() as u64, modified, &content.to_vec())
}

fn remote_file(path: &str, modified: u64, size: u64) -> FileStatus {
    make_remote_record(path.to_string(), Some(size), Some(modified), false)
}

#[test]
fn test_checksum_matches_direct_digest() {
    let content = b"test content".to_vec();
    let direct = sha2::Sha256::digest(content.as_slice());
    let mut expected = String::new();
    for b in direct.iter() {
        expected.push_str(&format!("{:02x}", b));
    }
    let got = checksum_of_bytes(&content);
    assert_eq!(got, expected);
    assert_eq!(got.len(), 64);
    assert_ne!(got.as_bytes(), content.as_slice());
}

#[test]
fn test_checksum_distinguishes_content() {
    let a = checksum_of_bytes(&b"content1".to_vec());
    let b = checksum_of_bytes(&b"content2".to_vec());
    let a2 = checksum_of_bytes(&b"content1".to_vec());
    assert_ne!(a, b);
    assert_eq!(a, a2);
}

#[test]
fn test_hex_string_exact() {
    assert_eq!(hex_string(&vec![0x00u8, 0x0f, 0xa5, 0xff]), "000fa5ff");
    assert_eq!(hex_string(&Vec::new()), "");
}

#[test]
fn test_join_path() {
    assert_eq!(join_path("/remote", "a.txt"), "/remote/a.txt");
}

#[test]
fn test_record_constructors() {
    let l = local_file("a.txt", 10, b"hello");
    assert_eq!(l.path, "a.txt");
    assert_eq!(l.size, 5);
    assert_eq!(l.modified, 10);
    assert!(!l.is_directory);
    assert!(l.checksum.is_some());

    let r = make_remote_record("b.txt".to_string(), None, None, true);
    assert_eq!(r.path, "b.txt");
    assert_eq!(r.size, 0);
    assert_eq!(r.modified, 0);
    assert!(r.is_directory);
    assert!(r.checksum.is_none());
}

#[test]
fn test_sync_scenario_new_local_and_remote_only() {
    // local root has a.txt (new); remote root has b.txt and no a.txt
    let local = vec![local_file("a.txt", 100, b"aaa")];
    let remote = vec![remote_file("b.txt", 50, 3)];
    assert!(paths_unique(&local));
    assert!(paths_unique(&remote));

    let ops = sync_incremental(&local, &remote, "/local", "/remote", 777);
    assert_eq!(ops.len(), 2);

    assert!(matches!(ops[0].operation_type, OperationType::Upload));
    assert_eq!(ops[0].local_path, "/local/a.txt");
    assert_eq!(ops[0].remote_path, "/remote/a.txt");
    assert_eq!(ops[0].timestamp, 777);

    assert!(matches!(ops[1].operation_type, OperationType::Download));
    assert_eq!(ops[1].local_path, "/local/b.txt");
    assert_eq!(ops[1].remote_path, "/remote/b.txt");
    assert_eq!(ops[1].timestamp, 777);
}

#[test]
fn test_sync_idempotent_on_consistent_inventories() {
    // same path, same timestamp, remote has no fingerprint: skipped
    let local = vec![local_file("common.txt", 40, b"same content")];
    let remote = vec![remote_file("common.txt", 40, 12)];
    let ops = sync_incremental(&local, &remote, "/l", "/r", 1);
    assert_eq!(ops.len(), 0);
}

#[test]
fn test_sync_uploads_when_local_newer() {
    let local = vec![local_file("f.txt", 41, b"x")];
    let remote = vec![remote_file("f.txt", 40, 1)];
    let ops = sync_incremental(&local, &remote, "/l", "/r", 1);
    assert_eq!(ops.len(), 1);
    assert!(matches!(ops[0].operation_type, OperationType::Upload));
}

#[test]
fn test_sync_skips_directories() {
    let local = vec![local_file("f.txt", 10, b"x")];
    let remote = vec![
        remote_file("f.txt", 10, 1),
        make_remote_record("subdir".to_string(), Some(0), Some(99), true),
    ];
    let ops = sync_incremental(&local, &remote, "/l", "/r", 1);
    assert_eq!(ops.len(), 0);
}

#[test]
fn test_needs_upload_fingerprint_rules() {
    let l = local_file("f", 10, b"abc");
    // remote record without fingerprint: only the timestamp decides
    let r_nochk = remote_file("f", 10, 3);
    assert!(!needs_upload(&l, &r_nochk));
    // remote record with a different fingerprint: upload even when not newer
    let mut r_chk = remote_file("f", 10, 3);
    r_chk.checksum = Some("0000".to_string());
    assert!(needs_upload(&l, &r_chk));
    // remote record with the same fingerprint and same time: skipped
    let mut r_same = remote_file("f", 10, 3);
    r_same.checksum = l.checksum.clone();
    assert!(!needs_upload(&l, &r_same));
}

#[test]
fn test_find_by_path_and_uniqueness() {
    let inv = vec![local_file("a", 1, b"1"), local_file("b", 2, b"2")];
    assert_eq!(find_by_path(&inv, "b"), Some(1));
    assert_eq!(find_by_path(&inv, "c"), None);
    assert!(paths_unique(&inv));
    let dup = vec![local_file("a", 1, b"1"), local_file("a", 2, b"2")];
    assert!(!paths_unique(&dup));
}

fn op(kind: OperationType, lp: &str, rp: &str) -> SyncOperation {
    SyncOperation {
        operation_type: kind,
        local_path: lp.to_string(),
        remote_path: rp.to_string(),
        timestamp: 0,
    }
}

#[test]
fn test_summarize_operations_success() {
    let store = TranslationStore::new();
    let ops = vec![
        op(OperationType::Upload, "/l/a", "/r/a"),
        op(OperationType::Download, "/l/b", "/r/b"),
    ];
    let outcomes = vec![OpOutcome::Done, OpOutcome::Done];
    let result = summarize_operations(&store, &Language::English, &ops, &outcomes);
    assert!(result.success);
    assert_eq!(result.message, "Sync completed successfully");
    assert_eq!(result.files_transferred, vec!["/l/a".to_string(), "/l/b".to_string()]);
    assert!(result.errors.is_empty());
    assert!(result.files_skipped.is_empty());
}

#[test]
fn test_summarize_operations_collects_errors() {
    let store = TranslationStore::new();
    let ops = vec![
        op(OperationType::Upload, "/l/a", "/r/a"),
        op(OperationType::Upload, "/l/b", "/r/b"),
    ];
    let outcomes = vec![OpOutcome::OpFailed("boom".to_string()), OpOutcome::Done];
    let result = summarize_operations(&store, &Language::English, &ops, &outcomes);
    assert!(!result.success);
    assert_eq!(result.message, "Sync failed with 1 errors");
    assert_eq!(result.files_transferred, vec!["/l/b".to_string()]);
    assert_eq!(result.errors, vec!["boom".to_string()]);
}
