use backup_suite::digest::hash_bytes;
use backup_suite::manifest::{require_manifest, BackupItem};
use backup_suite::verify::{check_item, collect_parallel_report, verify_run, verify_run_ordered,
    ArchiveInput, CheckedItem};
use backup_suite::errors::EngineError;

fn item(path: &str, archive: &str, data: &[u8]) -> BackupItem {
    let bytes: Vec<u8> = data.to_vec();
    BackupItem {
        path: String::from(path),
        archive: String::from(archive),
        hash: hash_bytes(&bytes),
        archive_size_bytes: bytes.len() as u64,
        source_size_bytes: bytes.len() as u64,
    }
}

#[test]
fn intact_run_verifies_clean() {
    let items = vec![
        item("~/Documents", "documents.tar.zst", b"docs bytes"),
        item("~/Desktop", "desktop.tar.zst", b"desk bytes"),
    ];
    let inputs = vec![
        ArchiveInput::Data(b"docs bytes".to_vec()),
        ArchiveInput::Data(b"desk bytes".to_vec()),
    ];
    let r = verify_run(&items, &inputs);
    assert!(r.success);
    assert_eq!(r.total_files, 2);
    assert_eq!(r.verified_files, 2);
    assert!(r.failed_files.is_empty());
    assert_eq!(r.message, "all 2 files verified");
}

#[test]
fn tampered_archive_fails_exactly_once() {
    let items = vec![
        item("~/Documents", "documents.tar.zst", b"docs bytes"),
        item("~/Desktop", "desktop.tar.zst", b"desk bytes"),
        item("homebrew-packages", "homebrew-packages.tar.zst", b"brew list"),
    ];
    let inputs = vec![
        ArchiveInput::Data(b"docs bytes".to_vec()),
        ArchiveInput::Data(b"desk bytes OVERWRITTEN".to_vec()),
        ArchiveInput::Data(b"brew list".to_vec()),
    ];
    let r = verify_run(&items, &inputs);
    assert!(!r.success);
    assert_eq!(r.total_files, 3);
    assert_eq!(r.verified_files, 2);
    assert_eq!(r.failed_files.len(), 1);
    assert!(r.failed_files[0].starts_with("desktop.tar.zst: hash mismatch (expected: "));
    assert_eq!(r.message, "1 of 3 files failed");
}

#[test]
fn mismatch_report_quotes_sixteen_hex_chars() {
    let data: Vec<u8> = b"original".to_vec();
    let items = vec![item("x", "x.tar.gz", &data)];
    let expected_prefix: String = hash_bytes(&data).chars().take(16).collect();
    let tampered: Vec<u8> = b"tampered".to_vec();
    let computed_prefix: String = hash_bytes(&tampered).chars().take(16).collect();
    let inputs = vec![ArchiveInput::Data(tampered.clone())];
    let r = verify_run(&items, &inputs);
    let msg = &r.failed_files[0];
    assert_eq!(
        msg,
        &format!(
            "x.tar.gz: hash mismatch (expected: {}, computed: {})",
            expected_prefix, computed_prefix
        )
    );
}

#[test]
fn missing_and_unreadable_archives_fail() {
    let items = vec![
        item("a", "a.tar.gz", b"aa"),
        item("b", "b.tar.gz", b"bb"),
    ];
    let inputs = vec![ArchiveInput::Missing, ArchiveInput::Unreadable];
    let r = verify_run(&items, &inputs);
    assert!(!r.success);
    assert_eq!(r.verified_files, 0);
    assert_eq!(r.failed_files[0], "a.tar.gz: file not found");
    assert_eq!(r.failed_files[1], "b.tar.gz: read error");
}

#[test]
fn verification_is_idempotent_on_unmodified_run() {
    let items = vec![
        item("a", "a.tar.gz", b"aa"),
        item("b", "b.tar.gz", b"bb"),
    ];
    let inputs = vec![
        ArchiveInput::Data(b"aa".to_vec()),
        ArchiveInput::Data(b"tampered".to_vec()),
    ];
    let r1 = verify_run(&items, &inputs);
    let r2 = verify_run(&items, &inputs);
    assert_eq!(r1.success, r2.success);
    assert_eq!(r1.total_files, r2.total_files);
    assert_eq!(r1.verified_files, r2.verified_files);
    assert_eq!(r1.failed_files, r2.failed_files);
    assert_eq!(r1.message, r2.message);
}

#[test]
fn parallel_order_reports_the_same_failures() {
    let items = vec![
        item("a", "a.tar.gz", b"aa"),
        item("b", "b.tar.gz", b"bb"),
        item("c", "c.tar.gz", b"cc"),
        item("d", "d.tar.gz", b"dd"),
        item("e", "e.tar.gz", b"ee"),
    ];
    let inputs = vec![
        ArchiveInput::Data(b"aa".to_vec()),
        ArchiveInput::Data(b"WRONG".to_vec()),
        ArchiveInput::Missing,
        ArchiveInput::Data(b"dd".to_vec()),
        ArchiveInput::Data(b"ALSO WRONG".to_vec()),
    ];
    let sequential = verify_run(&items, &inputs);
    // A completion order a batch of four might produce, then the rest.
    let order: Vec<usize> = vec![3, 1, 0, 2, 4];
    let parallel = verify_run_ordered(&items, &inputs, &order);
    assert_eq!(parallel.success, sequential.success);
    assert_eq!(parallel.total_files, sequential.total_files);
    assert_eq!(parallel.verified_files, sequential.verified_files);
    assert_eq!(parallel.message, sequential.message);
    let mut seq_failures = sequential.failed_files.clone();
    let mut par_failures = parallel.failed_files.clone();
    seq_failures.sort();
    par_failures.sort();
    assert_eq!(seq_failures, par_failures);
}

#[test]
fn identity_order_matches_sequential_exactly() {
    let items = vec![item("a", "a.tar.gz", b"aa"), item("b", "b.tar.gz", b"bb")];
    let inputs = vec![ArchiveInput::Missing, ArchiveInput::Data(b"bb".to_vec())];
    let sequential = verify_run(&items, &inputs);
    let parallel = verify_run_ordered(&items, &inputs, &vec![0, 1]);
    assert_eq!(parallel.failed_files, sequential.failed_files);
}

#[test]
fn missing_manifest_is_a_not_found_error() {
    assert!(matches!(require_manifest(None), Err(EngineError::NotFound)));
}

#[test]
fn present_manifest_passes_through() {
    let meta = backup_suite::manifest::BackupMetadata {
        timestamp: String::from("20250101-120000"),
        items: Vec::new(),
        hash_algorithm: String::from("sha256"),
        total_source_size_bytes: 0,
        start_time: String::from("01.01.2025 12:00:00"),
        end_time: String::from("01.01.2025 12:00:05"),
        duration_seconds: 5,
    };
    let got = require_manifest(Some(&meta)).expect("manifest present");
    assert_eq!(got.timestamp, "20250101-120000");
}

#[test]
fn empty_run_verifies_vacuously() {
    let items: Vec<BackupItem> = Vec::new();
    let inputs: Vec<ArchiveInput> = Vec::new();
    let r = verify_run(&items, &inputs);
    assert!(r.success);
    assert_eq!(r.total_files, 0);
    assert_eq!(r.message, "all 0 files verified");
}

#[test]
fn parallel_driver_findings_assemble_the_same_report() {
    let items = vec![
        item("a", "a.tar.gz", b"aa"),
        item("b", "b.tar.gz", b"bb"),
        item("c", "c.tar.gz", b"cc"),
    ];
    let inputs = vec![
        ArchiveInput::Data(b"aa".to_vec()),
        ArchiveInput::Missing,
        ArchiveInput::Data(b"WRONG".to_vec()),
    ];
    // Findings in a completion order a batch might produce.
    let order: Vec<usize> = vec![2, 0, 1];
    let checked: Vec<CheckedItem> = order
        .iter()
        .map(|&idx| CheckedItem { index: idx, report: check_item(&items[idx], &inputs[idx]) })
        .collect();
    let parallel = collect_parallel_report(items.len(), &checked);
    let sequential = verify_run(&items, &inputs);
    assert_eq!(parallel.success, sequential.success);
    assert_eq!(parallel.total_files, sequential.total_files);
    assert_eq!(parallel.verified_files, sequential.verified_files);
    assert_eq!(parallel.message, sequential.message);
    let mut seq_failures = sequential.failed_files.clone();
    let mut par_failures = parallel.failed_files.clone();
    seq_failures.sort();
    par_failures.sort();
    assert_eq!(seq_failures, par_failures);
}
