use backup_suite::backup::{
    backup_progress_percent, cache_within_limit, expand_source_path, format_display_time,
    format_duration, format_timestamp, mas_snapshot, safari_source_paths, BackupPhase,
    BackupRun,
};
use backup_suite::cancel::CancelSupervisor;
use backup_suite::manifest::BackupItem;

fn item(path: &str, archive: &str, source_size: u64) -> BackupItem {
    BackupItem {
        path: String::from(path),
        archive: String::from(archive),
        hash: String::from(
            "e3b0c44298fc1c149afbf4c8996fb92427ae41e4649b934ca495991b7852b855",
        ),
        archive_size_bytes: 1,
        source_size_bytes: source_size,
    }
}

#[test]
fn timestamps_are_sortable_and_filesystem_safe() {
    assert_eq!(format_timestamp(2025, 3, 7, 9, 5, 0), "20250307-090500");
    assert_eq!(format_timestamp(2025, 12, 31, 23, 59, 59), "20251231-235959");
    // Later datetimes sort later as strings.
    assert!(format_timestamp(2025, 3, 7, 9, 5, 0) < format_timestamp(2025, 3, 7, 10, 0, 0));
    assert!(format_timestamp(2024, 12, 31, 23, 59, 59) < format_timestamp(2025, 1, 1, 0, 0, 0));
}

#[test]
fn display_time_matches_its_format() {
    assert_eq!(format_display_time(2025, 3, 7, 9, 5, 0), "07.03.2025 09:05:00");
}

#[test]
fn durations_phrase_by_magnitude() {
    assert_eq!(format_duration(42), "42s");
    assert_eq!(format_duration(60), "1m 0s");
    assert_eq!(format_duration(125), "2m 5s");
    assert_eq!(format_duration(3600), "1h 0m 0s");
    assert_eq!(format_duration(3725), "1h 2m 5s");
}

#[test]
fn tilde_expansion_for_sources() {
    assert_eq!(expand_source_path("/Users/me", "~/Documents"), "/Users/me/Documents");
    assert_eq!(expand_source_path("/Users/me", "~"), "/Users/me");
    assert_eq!(expand_source_path("/Users/me", "/Volumes/X"), "/Volumes/X");
    assert_eq!(expand_source_path("/Users/me", "relative/dir"), "relative/dir");
}

#[test]
fn fresh_backup_manifest_totals_and_items() {
    // Two configured directories (one holding files, one empty) plus the
    // three reserved inventory snapshots.
    let mut run = BackupRun::new(2);
    run.finish_inventory();
    run.record_directory(item("~/Documents", "documents.tar.zst", 3000));
    run.record_directory(item("~/Desktop", "desktop.tar.zst", 0));
    run.finish_directories();
    run.record_inventory_item(item("homebrew-packages", "homebrew-packages.tar.zst", 120));
    run.record_inventory_item(item("mas-apps", "mas-apps.tar.zst", 40));
    run.record_inventory_item(item("vscode-extensions", "vscode-extensions.tar.zst", 25));
    run.finish_inventory_items();
    run.finish_optional_items();
    let ts = String::from("20250307-090500");
    let start = String::from("07.03.2025 09:05:00");
    let end = String::from("07.03.2025 09:05:09");
    let meta = run.assemble_manifest(&ts, &start, &end, 9);
    assert!(meta.items.len() >= 5);
    assert_eq!(meta.total_source_size_bytes, 3000 + 0 + 120 + 40 + 25);
    assert_eq!(meta.hash_algorithm, "sha256");
    assert_eq!(meta.timestamp, "20250307-090500");
    assert_eq!(meta.duration_seconds, 9);
    run.manifest_written();
    run.pointer_updated();
    assert_eq!(run.phase, BackupPhase::Completed);
}

#[test]
fn skipped_directories_leave_no_item() {
    let mut run = BackupRun::new(2);
    run.finish_inventory();
    run.skip_directory();
    run.record_directory(item("~/Desktop", "desktop.tar.zst", 10));
    run.finish_directories();
    assert_eq!(run.items.len(), 1);
}

#[test]
fn cancellation_during_archiving_cleans_up_and_absorbs() {
    let mut run = BackupRun::new(3);
    run.finish_inventory();
    run.record_directory(item("~/Documents", "documents.tar.zst", 100));
    // A cancel request lands while directory 1 is being archived.
    let mut sup = CancelSupervisor::new();
    sup.track(4242);
    let signal = sup.request_cancel();
    assert_eq!(signal, Some(4242));
    assert!(sup.is_cancelled());
    let partial = String::from("desktop.tar.zst");
    let cleanup = run.cancel_run(&mut sup, Some(&partial));
    // The partial archive for the directory in flight is the one deleted,
    // the flag is consumed, and the run is cancelled for good.
    assert_eq!(cleanup, Some(String::from("desktop.tar.zst")));
    assert!(!sup.is_cancelled());
    assert_eq!(run.phase, BackupPhase::Cancelled);
}

#[test]
fn cancel_without_tracked_process_signals_nothing() {
    let mut sup = CancelSupervisor::new();
    let signal = sup.request_cancel();
    assert!(signal.is_none());
    assert!(sup.is_cancelled());
    sup.clear();
    assert!(!sup.is_cancelled());
}

#[test]
fn cache_ceiling_is_two_gib() {
    assert!(cache_within_limit(1));
    assert!(cache_within_limit(2 * 1024 * 1024 * 1024));
    assert!(!cache_within_limit(2 * 1024 * 1024 * 1024 + 1));
    assert!(!cache_within_limit(0));
}

#[test]
fn mas_snapshot_keeps_only_mas_lines() {
    let brewfile = "tap \"homebrew/core\"\nbrew \"git\"\nmas \"Xcode\", id: 497799835\nmas \"Numbers\", id: 409203825\n";
    let snap = mas_snapshot(brewfile).expect("has mas lines");
    assert_eq!(snap, "mas \"Xcode\", id: 497799835\nmas \"Numbers\", id: 409203825");
}

#[test]
fn mas_snapshot_absent_without_mas_lines() {
    assert!(mas_snapshot("brew \"git\"\nbrew \"vim\"\n").is_none());
}

#[test]
fn directory_progress_rises_to_seventy_five() {
    assert_eq!(backup_progress_percent(0, 2), 45);
    assert_eq!(backup_progress_percent(1, 2), 75);
    assert_eq!(backup_progress_percent(0, 120), 15);
}

#[test]
fn safari_sources_resolve_against_home() {
    let paths = safari_source_paths("/Users/me");
    assert_eq!(paths.len(), 8);
    assert_eq!(paths[0], "/Users/me/Library/Safari/Bookmarks.plist");
    assert_eq!(paths[7], "/Users/me/Library/Safari/LastSession.plist");
}
