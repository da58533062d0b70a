use backup_suite::appmatch::{filter_manual_apps, parse_cask_list, parse_mas_list};
use backup_suite::backup::expand_source_path;
use backup_suite::config::{config_path, default_language, default_theme, BackupConfig};
use backup_suite::errors::EngineError;
use backup_suite::manifest::{
    backup_details, find_item, max_timestamp, plan_latest_after_delete, sort_timestamps_desc,
    sum_saturating, BackupItem, BackupMetadata, LatestPointerAction,
};
use backup_suite::paths::{
    archive_path, inventories_path, latest_pointer_path, metadata_path, run_data_path,
    suite_root,
};
use backup_suite::strutil::{
    parse_content_lines, parse_trimmed_lines, parse_u64, str_to_chars, u64_to_string,
};
use backup_suite::volumes::{
    is_internal_volume_name, is_system_user_folder, is_system_volume_name,
    is_time_machine_volume, order_user_folders, parse_df_available_kb, UserFolder,
};

#[test]
fn numbers_print_in_decimal() {
    assert_eq!(u64_to_string(0), "0");
    assert_eq!(u64_to_string(7), "7");
    assert_eq!(u64_to_string(1024), "1024");
    assert_eq!(u64_to_string(u64::MAX), "18446744073709551615");
}

#[test]
fn numbers_parse_back() {
    assert_eq!(parse_u64(&str_to_chars("0")), Some(0));
    assert_eq!(parse_u64(&str_to_chars("123456789")), Some(123456789));
    assert_eq!(parse_u64(&str_to_chars("18446744073709551615")), Some(u64::MAX));
    assert_eq!(parse_u64(&str_to_chars("18446744073709551616")), None);
    assert_eq!(parse_u64(&str_to_chars("12x")), None);
    assert_eq!(parse_u64(&str_to_chars("")), None);
}

#[test]
fn line_parsers_trim_and_filter() {
    assert_eq!(
        parse_trimmed_lines("  a  \n\n b\n   \n"),
        vec!["a", "b"]
    );
    assert_eq!(
        parse_content_lines("App One\n\n  \nApp Two \n"),
        vec!["App One", "App Two "]
    );
}

#[test]
fn defaults_are_pinned() {
    assert_eq!(default_language(), "de");
    assert_eq!(default_theme(), "auto");
    let cfg = BackupConfig::default_for_home("/Users/me");
    assert_eq!(cfg.directories, vec!["/Users/me/Documents", "/Users/me/Desktop"]);
    assert!(cfg.backup_homebrew);
    assert!(cfg.backup_mas);
    assert!(!cfg.backup_homebrew_cache);
    assert!(!cfg.backup_safari_settings);
    assert_eq!(cfg.language, "de");
    assert_eq!(cfg.theme, "auto");
    assert_eq!(config_path("/Users/me"), "/Users/me/.macos_backup_suite/config.json");
}

#[test]
fn run_layout_paths() {
    assert_eq!(suite_root("/Volumes/X"), "/Volumes/X/macos-backup-suite");
    assert_eq!(
        run_data_path("/Volumes/X", "20250307-090500"),
        "/Volumes/X/macos-backup-suite/data/20250307-090500"
    );
    assert_eq!(
        metadata_path("/Volumes/X", "20250307-090500"),
        "/Volumes/X/macos-backup-suite/data/20250307-090500/metadata.json"
    );
    assert_eq!(
        inventories_path("/Volumes/X", "20250307-090500"),
        "/Volumes/X/macos-backup-suite/inventories/20250307-090500"
    );
    assert_eq!(latest_pointer_path("/Volumes/X"), "/Volumes/X/macos-backup-suite/latest.json");
    assert_eq!(
        archive_path("/Volumes/X", "20250307-090500", "documents.tar.zst"),
        "/Volumes/X/macos-backup-suite/data/20250307-090500/documents.tar.zst"
    );
}

fn named_item(path: &str) -> BackupItem {
    BackupItem {
        path: String::from(path),
        archive: String::from("a.tar.gz"),
        hash: String::from(
            "e3b0c44298fc1c149afbf4c8996fb92427ae41e4649b934ca495991b7852b855",
        ),
        archive_size_bytes: 10,
        source_size_bytes: 100,
    }
}

#[test]
fn item_lookup_finds_first_match() {
    let items = vec![named_item("a"), named_item("b")];
    assert_eq!(find_item(&items, "b"), Some(1));
    assert_eq!(find_item(&items, "zz"), None);
}

#[test]
fn size_sums_saturate() {
    assert_eq!(sum_saturating(&vec![1, 2, 3]), 6);
    assert_eq!(sum_saturating(&vec![u64::MAX, 1]), u64::MAX);
    assert_eq!(sum_saturating(&vec![]), 0);
}

#[test]
fn details_total_archive_sizes() {
    let meta = BackupMetadata {
        timestamp: String::from("20250307-090500"),
        items: vec![named_item("a"), named_item("b")],
        hash_algorithm: String::from("sha256"),
        total_source_size_bytes: 200,
        start_time: String::from("07.03.2025 09:05:00"),
        end_time: String::from("07.03.2025 09:05:09"),
        duration_seconds: 9,
    };
    let details = backup_details(&meta);
    assert_eq!(details.items.len(), 2);
    assert_eq!(details.total_archive_size_bytes, 20);
    assert_eq!(details.total_source_size_bytes, 200);
    assert_eq!(details.items[0].path, "a");
}

#[test]
fn newest_timestamp_wins() {
    let ts = vec![
        String::from("20250101-000000"),
        String::from("20250307-090500"),
        String::from("20241231-235959"),
    ];
    assert_eq!(max_timestamp(&ts), Some(String::from("20250307-090500")));
    assert_eq!(max_timestamp(&Vec::new()), None);
}

#[test]
fn run_listing_sorts_newest_first() {
    let ts = vec![
        String::from("20250101-000000"),
        String::from("20250307-090500"),
        String::from("20241231-235959"),
    ];
    let sorted = sort_timestamps_desc(ts);
    assert_eq!(
        sorted,
        vec![
            String::from("20250307-090500"),
            String::from("20250101-000000"),
            String::from("20241231-235959"),
        ]
    );
}

#[test]
fn latest_pointer_follows_deletion() {
    let remaining = vec![String::from("20250101-000000"), String::from("20250201-000000")];
    assert!(matches!(
        plan_latest_after_delete("20250301-000000", "20250302-000000", &remaining),
        LatestPointerAction::Keep
    ));
    match plan_latest_after_delete("20250302-000000", "20250302-000000", &remaining) {
        LatestPointerAction::SetTo(m) => assert_eq!(m, "20250201-000000"),
        other => panic!("unexpected action: {:?}", other),
    }
    assert!(matches!(
        plan_latest_after_delete("20250302-000000", "20250302-000000", &Vec::new()),
        LatestPointerAction::Remove
    ));
}

#[test]
fn error_descriptions_are_short() {
    assert_eq!(EngineError::NotFound.describe(), "not found");
    assert_eq!(EngineError::Cancelled.describe(), "cancelled");
    assert_eq!(EngineError::AlreadyExists.describe(), "already exists");
    assert_eq!(EngineError::IntegrityMismatch.describe(), "integrity mismatch");
    assert_eq!(EngineError::ExternalTool.describe(), "external tool failed");
}

#[test]
fn time_machine_volumes_are_recognized() {
    let entries = vec![String::from("Backups.backupdb"), String::from("stuff")];
    assert!(is_time_machine_volume(&entries));
    let plain = vec![String::from("Documents")];
    assert!(!is_time_machine_volume(&plain));
    assert!(is_time_machine_volume(&vec![String::from(".timemachine")]));
    assert!(is_time_machine_volume(&vec![String::from(
        ".com.apple.timemachine.supported"
    )]));
}

#[test]
fn volume_name_classification() {
    assert!(is_system_volume_name("Macintosh HD"));
    assert!(is_system_volume_name("Macintosh HD - Data"));
    assert!(!is_system_volume_name("MyBackupDisk"));
    assert!(is_internal_volume_name("com.apple.TimeMachine.localsnapshots"));
    assert!(is_internal_volume_name("Recovery"));
    assert!(!is_internal_volume_name("ExternalSSD"));
    assert!(is_system_user_folder("Shared"));
    assert!(is_system_user_folder(".localized"));
    assert!(is_system_user_folder("Guest"));
    assert!(!is_system_user_folder("alice"));
}

#[test]
fn free_space_parses_from_disk_report() {
    let out = "Filesystem 1024-blocks Used Available Capacity Mounted on\n/dev/disk3s1 971350180 21018328 755164296 3% /System/Volumes/Data\n";
    assert_eq!(parse_df_available_kb(out), Some(755164296));
    assert_eq!(parse_df_available_kb("just one line"), None);
    assert_eq!(parse_df_available_kb("a\nb c d\n"), None);
}

fn folder(name: &str, current: bool) -> UserFolder {
    UserFolder {
        name: String::from(name),
        path: format!("/Users/{}", name),
        readable: true,
        is_current_user: current,
    }
}

#[test]
fn user_folders_list_current_user_first() {
    let input = vec![folder("zoe", false), folder("mia", true), folder("alice", false)];
    let sorted = order_user_folders(input);
    let names: Vec<String> = sorted.iter().map(|f| f.name.clone()).collect();
    assert_eq!(names, vec!["mia", "alice", "zoe"]);
}

#[test]
fn manual_apps_exclude_cask_and_store_matches() {
    let apps = vec![
        String::from("Visual Studio Code"),
        String::from("Obscure Tool"),
        String::from("Numbers"),
    ];
    let casks = parse_cask_list("visual-studio-code\nfirefox\n");
    let mas = parse_mas_list("409203825  Numbers  (14.1)\n");
    let manual = filter_manual_apps(&apps, &casks, &mas);
    assert_eq!(manual, vec!["Obscure Tool"]);
}

#[test]
fn cask_listing_is_normalized() {
    assert_eq!(parse_cask_list("  FireFox  \n\nIterm2\n"), vec!["firefox", "iterm2"]);
}

#[test]
fn store_listing_extracts_display_names() {
    let names = parse_mas_list("497799835  Xcode  (15.0)\n409203825 Numbers (14.1)\nnoname\n");
    assert_eq!(names, vec!["xcode", "numbers"]);
}

#[test]
fn tilde_without_slash_is_left_alone() {
    assert_eq!(expand_source_path("/Users/me", "~backup"), "~backup");
    assert_eq!(expand_source_path("/Users/me", ""), "");
}

#[test]
fn details_of_an_empty_run() {
    let meta = BackupMetadata {
        timestamp: String::from("20250307-090500"),
        items: Vec::new(),
        hash_algorithm: String::from("sha256"),
        total_source_size_bytes: 0,
        start_time: String::from("07.03.2025 09:05:00"),
        end_time: String::from("07.03.2025 09:05:00"),
        duration_seconds: 0,
    };
    let details = backup_details(&meta);
    assert!(details.items.is_empty());
    assert_eq!(details.total_archive_size_bytes, 0);
}

#[test]
fn single_run_is_its_own_latest() {
    let ts = vec![String::from("20250307-090500")];
    assert_eq!(max_timestamp(&ts), Some(String::from("20250307-090500")));
    assert_eq!(sort_timestamps_desc(ts), vec![String::from("20250307-090500")]);
}
