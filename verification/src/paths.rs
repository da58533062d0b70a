//! The run-directory layout, spelled out once: everything under a single
//! suite root on the target volume, one data directory per run beside the
//! raw inventory snapshots, and the `latest` pointer at the top.

use vstd::prelude::*;
use vstd::string::*;

verus! {

/// The suite's root on the target volume.
pub fn suite_root(target: &str) -> (r: String)
    ensures
        r@ == target@ + "/macos-backup-suite"@,
{
    String::from_str(target).concat("/macos-backup-suite")
}

/// The directory that holds one run's archives and manifest.
pub fn run_data_path(target: &str, timestamp: &str) -> (r: String)
    ensures
        r@ == target@ + "/macos-backup-suite/data/"@ + timestamp@,
{
    String::from_str(target).concat("/macos-backup-suite/data/").concat(timestamp)
}

/// The directory that holds one run's raw inventory snapshots.
pub fn inventories_path(target: &str, timestamp: &str) -> (r: String)
    ensures
        r@ == target@ + "/macos-backup-suite/inventories/"@ + timestamp@,
{
    String::from_str(target).concat("/macos-backup-suite/inventories/").concat(timestamp)
}

/// One run's manifest file, written exactly once per run.
pub fn metadata_path(target: &str, timestamp: &str) -> (r: String)
    ensures
        r@ == target@ + "/macos-backup-suite/data/"@ + timestamp@ + "/metadata.json"@,
{
    run_data_path(target, timestamp).concat("/metadata.json")
}

/// The `latest` pointer file beside the data directory.
pub fn latest_pointer_path(target: &str) -> (r: String)
    ensures
        r@ == target@ + "/macos-backup-suite/latest.json"@,
{
    String::from_str(target).concat("/macos-backup-suite/latest.json")
}

/// One archive inside a run's data directory.
pub fn archive_path(target: &str, timestamp: &str, archive: &str) -> (r: String)
    ensures
        r@ == target@ + "/macos-backup-suite/data/"@ + timestamp@ + "/"@ + archive@,
{
    run_data_path(target, timestamp).concat("/").concat(archive)
}

} // verus!
