use backup_suite::codec::create_file_archive;
use backup_suite::errors::EngineError;
use backup_suite::manifest::{BackupItem, BackupMetadata};
use backup_suite::restore::{
    brew_bundle_outcome, bytes_to_mib, cache_dir_path, classify_install, classify_item,
    count_brewfile_entries, count_installed_lines, count_present, count_successes,
    essential_brews, essential_casks, generic_restore_action, make_batches, parse_brewfile_names,
    parse_extension_list, parse_mas_ids, plan_brew_restore, plan_restore_item,
    read_inventory_payload, resolve_restore_target, restore_progress_bounds, safari_destinations,
    select_essentials, select_missing, summarize_outcomes, vscode_restore_outcome, BrewPlan,
    GenericAction, InstallOutcome, ItemOutcome, ItemPlan, OutcomeKind, RestoreKind,
};

fn meta_with(paths: &[(&str, &str)]) -> BackupMetadata {
    let items = paths
        .iter()
        .map(|(p, a)| BackupItem {
            path: String::from(*p),
            archive: String::from(*a),
            hash: String::from(
                "e3b0c44298fc1c149afbf4c8996fb92427ae41e4649b934ca495991b7852b855",
            ),
            archive_size_bytes: 1,
            source_size_bytes: 1,
        })
        .collect();
    BackupMetadata {
        timestamp: String::from("20250307-090500"),
        items,
        hash_algorithm: String::from("sha256"),
        total_source_size_bytes: 0,
        start_time: String::from("07.03.2025 09:05:00"),
        end_time: String::from("07.03.2025 09:05:09"),
        duration_seconds: 9,
    }
}

#[test]
fn reserved_identifiers_dispatch_to_their_restorers() {
    assert_eq!(classify_item("homebrew-packages"), RestoreKind::Homebrew);
    assert_eq!(classify_item("mas-apps"), RestoreKind::MasApps);
    assert_eq!(classify_item("vscode-extensions"), RestoreKind::VscodeExtensions);
    assert_eq!(classify_item("safari-settings"), RestoreKind::SafariSettings);
    assert_eq!(classify_item("homebrew-cache"), RestoreKind::HomebrewCache);
    assert_eq!(classify_item("~/Documents"), RestoreKind::Generic);
}

#[test]
fn generic_targets_resolve_against_home() {
    assert_eq!(resolve_restore_target("/Users/me", "~/Documents"), "/Users/me/Documents");
    assert_eq!(resolve_restore_target("/Users/me", "/Volumes/X/d"), "/Volumes/X/d");
    assert_eq!(resolve_restore_target("/Users/me", "notes"), "/Users/me/notes");
}

#[test]
fn overwrite_rule_skips_existing_destinations_only() {
    assert_eq!(generic_restore_action(true, false), GenericAction::Skip);
    assert_eq!(generic_restore_action(true, true), GenericAction::Extract);
    assert_eq!(generic_restore_action(false, false), GenericAction::Extract);
    assert_eq!(generic_restore_action(false, true), GenericAction::Extract);
}

#[test]
fn planning_flags_unknown_items_as_errors() {
    let meta = meta_with(&[("~/Documents", "documents.tar.zst")]);
    assert!(matches!(
        plan_restore_item(&meta, "~/Pictures", "/Users/me"),
        ItemPlan::NotInBackup
    ));
}

#[test]
fn planning_resolves_known_items() {
    let meta = meta_with(&[
        ("~/Documents", "documents.tar.zst"),
        ("homebrew-packages", "homebrew-packages.tar.zst"),
    ]);
    match plan_restore_item(&meta, "~/Documents", "/Users/me") {
        ItemPlan::Generic { archive, destination } => {
            assert_eq!(archive, "documents.tar.zst");
            assert_eq!(destination, "/Users/me/Documents");
        }
        other => panic!("unexpected plan: {:?}", other),
    }
    match plan_restore_item(&meta, "homebrew-packages", "/Users/me") {
        ItemPlan::Reserved { kind, archive } => {
            assert_eq!(kind, RestoreKind::Homebrew);
            assert_eq!(archive, "homebrew-packages.tar.zst");
        }
        other => panic!("unexpected plan: {:?}", other),
    }
}

#[test]
fn outcomes_land_in_exactly_one_bucket() {
    let outcomes = vec![
        ItemOutcome { label: String::from("~/Documents"), kind: OutcomeKind::Restored },
        ItemOutcome { label: String::from("~/Desktop: already exists"), kind: OutcomeKind::Skipped },
        ItemOutcome { label: String::from("x: not in backup"), kind: OutcomeKind::Errored },
        ItemOutcome { label: String::from("homebrew-packages (3 newly installed)"), kind: OutcomeKind::Restored },
    ];
    let r = summarize_outcomes(&outcomes);
    assert_eq!(r.restored_count, 2);
    assert_eq!(r.skipped_count, 1);
    assert_eq!(r.error_count, 1);
    assert_eq!(r.restored_count + r.skipped_count + r.error_count, outcomes.len());
    assert_eq!(r.restored, vec!["~/Documents", "homebrew-packages (3 newly installed)"]);
    assert_eq!(r.skipped, vec!["~/Desktop: already exists"]);
    assert_eq!(r.errors, vec!["x: not in backup"]);
}

#[test]
fn inventory_payload_round_trips_through_the_codec() {
    let content: Vec<u8> = b"brew \"git\"\n".to_vec();
    let archive = create_file_archive("homebrew_packages.txt", &content).expect("pack");
    let data = read_inventory_payload(&archive, "homebrew_packages.txt").expect("payload");
    assert_eq!(data, content);
}

#[test]
fn inventory_payload_with_wrong_name_is_not_found() {
    let content: Vec<u8> = b"one\n".to_vec();
    let archive = create_file_archive("other.txt", &content).expect("pack");
    assert_eq!(
        read_inventory_payload(&archive, "homebrew_packages.txt"),
        Err(EngineError::NotFound)
    );
    let garbage: Vec<u8> = b"zzzz".to_vec();
    assert_eq!(
        read_inventory_payload(&garbage, "homebrew_packages.txt"),
        Err(EngineError::ExternalTool)
    );
}

#[test]
fn empty_package_manifest_invokes_nothing() {
    let content = "# a comment\n\nmas \"Xcode\", id: 497799835\n";
    assert_eq!(count_brewfile_entries(content), 0);
    assert_eq!(plan_brew_restore(content, false), BrewPlan::NothingToInstall);
}

#[test]
fn nonempty_package_manifest_runs_the_bundle() {
    let content = "tap \"homebrew/core\"\nbrew \"git\"\ncask \"firefox\"\n";
    assert_eq!(count_brewfile_entries(content), 3);
    assert_eq!(plan_brew_restore(content, true), BrewPlan::RunBundle { force: true });
    assert_eq!(plan_brew_restore(content, false), BrewPlan::RunBundle { force: false });
}

#[test]
fn bundle_output_counts_new_installs() {
    let stdout = "Using git\nInstalling vim\nUpgrading node\nUsing jq\n";
    assert_eq!(count_installed_lines(stdout), 2);
    assert_eq!(brew_bundle_outcome(true, stdout, ""), Ok(2));
    // Nonzero exit with partial success is tolerated.
    assert_eq!(brew_bundle_outcome(false, stdout, "error: one cask failed"), Ok(2));
    // Nonzero exit, an error reported, nothing installed: fatal.
    assert_eq!(
        brew_bundle_outcome(false, "Using git\n", "error: everything failed"),
        Err(EngineError::ExternalTool)
    );
    // Nonzero exit without an error message is tolerated.
    assert_eq!(brew_bundle_outcome(false, "Using git\n", "warning only"), Ok(0));
}

#[test]
fn mas_ids_parse_from_snapshot_lines() {
    let content = "mas \"Xcode\", id: 497799835\nmas \"Numbers\", id: 409203825\nbrew \"git\"\n";
    let ids = parse_mas_ids(content);
    assert_eq!(ids, vec!["497799835", "409203825"]);
}

#[test]
fn mas_lines_without_id_tag_are_ignored() {
    let ids = parse_mas_ids("mas \"Broken\"\nmas \"Ok\", id: 12345\n");
    assert_eq!(ids, vec!["12345"]);
}

#[test]
fn installed_apps_are_not_reinstalled() {
    let ids = vec![String::from("497799835"), String::from("409203825")];
    let installed = "497799835  Xcode  (15.0)\n";
    let missing = select_missing(&ids, installed);
    assert_eq!(missing, vec!["409203825"]);
    assert_eq!(count_present(&ids, installed), 1);
}

#[test]
fn extension_lists_are_nonempty_lines() {
    let exts = parse_extension_list("rust-lang.rust-analyzer\n\nms-python.python\n");
    assert_eq!(exts, vec!["rust-lang.rust-analyzer", "ms-python.python"]);
}

#[test]
fn extension_success_counting_and_exit_rule() {
    assert_eq!(count_successes(&vec![true, false, true]), 2);
    assert_eq!(vscode_restore_outcome(0, 3), Err(EngineError::ExternalTool));
    assert_eq!(vscode_restore_outcome(2, 3), Ok(2));
    assert_eq!(vscode_restore_outcome(0, 0), Ok(0));
}

#[test]
fn batches_bound_concurrency() {
    let items: Vec<String> = (0..10).map(|i| format!("ext{}", i)).collect();
    let batches = make_batches(items.clone(), 4);
    assert_eq!(batches.len(), 3);
    assert_eq!(batches[0].len(), 4);
    assert_eq!(batches[1].len(), 4);
    assert_eq!(batches[2].len(), 2);
    let flat: Vec<String> = batches.into_iter().flatten().collect();
    assert_eq!(flat, items);
}

#[test]
fn install_output_classifies_already_installed() {
    assert_eq!(classify_install(true, ""), InstallOutcome::Installed);
    assert_eq!(
        classify_install(false, "Error: git is already installed"),
        InstallOutcome::AlreadyPresent
    );
    assert_eq!(classify_install(false, "Error: no such formula"), InstallOutcome::Failed);
}

#[test]
fn quick_restore_installs_only_the_backed_up_essentials() {
    let content = "brew \"git\"\nbrew \"ripgrep\"\ncask \"firefox\"\ncask \"obscure-app\"\n";
    let (brews, casks) = parse_brewfile_names(content);
    assert_eq!(brews, vec!["git", "ripgrep"]);
    assert_eq!(casks, vec!["firefox", "obscure-app"]);
    let chosen_brews = select_essentials(&essential_brews(), &brews);
    assert_eq!(chosen_brews, vec!["git", "ripgrep"]);
    let chosen_casks = select_essentials(&essential_casks(), &casks);
    assert_eq!(chosen_casks, vec!["firefox"]);
}

#[test]
fn essentials_lists_are_fixed() {
    assert_eq!(essential_brews().len(), 13);
    assert_eq!(essential_casks().len(), 7);
    assert_eq!(essential_brews()[0], "git");
    assert_eq!(essential_casks()[0], "visual-studio-code");
}

#[test]
fn safari_destinations_resolve_against_home() {
    let targets = safari_destinations("/Users/me");
    assert_eq!(targets.len(), 6);
    assert_eq!(targets[0].name, "Bookmarks.plist");
    assert_eq!(targets[0].dest, "/Users/me/Library/Safari/Bookmarks.plist");
    assert_eq!(
        targets[5].dest,
        "/Users/me/Library/Containers/com.apple.Safari/Data/Library/Preferences"
    );
}

#[test]
fn cache_restore_paths_and_size_units() {
    assert_eq!(cache_dir_path("/Users/me"), "/Users/me/Library/Caches/Homebrew");
    assert_eq!(bytes_to_mib(5 * 1024 * 1024), 5);
    assert_eq!(bytes_to_mib(1024), 0);
}

#[test]
fn restore_progress_spans_the_run() {
    assert_eq!(restore_progress_bounds(0, 4), (0, 25));
    assert_eq!(restore_progress_bounds(3, 4), (75, 100));
}

#[test]
fn batching_edge_cases() {
    let none = make_batches(Vec::new(), 4);
    assert!(none.is_empty());
    let exact: Vec<String> = (0..8).map(|i| format!("x{}", i)).collect();
    let batches = make_batches(exact, 4);
    assert_eq!(batches.len(), 2);
    assert!(batches.iter().all(|b| b.len() == 4));
}

#[test]
fn relative_tilde_item_restores_under_home() {
    // A bare "~" identifier is an ordinary relative path to the restorer.
    assert_eq!(resolve_restore_target("/Users/me", "~"), "/Users/me/~");
}

#[test]
fn empty_mas_snapshot_installs_nothing() {
    let ids = parse_mas_ids("");
    assert!(ids.is_empty());
    let missing = select_missing(&ids, "anything");
    assert!(missing.is_empty());
}
