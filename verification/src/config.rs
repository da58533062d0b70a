//! Backup configuration: which directories to save, where to put the runs,
//! and the optional extras (package-manager cache, browser settings).

use vstd::prelude::*;
use vstd::string::*;

verus! {

/// Language used when a configuration does not name one.
pub fn default_language() -> (r: String)
    ensures
        r@ == "de"@,
{
    String::from_str("de")
}

/// Theme used when a configuration does not name one.
pub fn default_theme() -> (r: String)
    ensures
        r@ == "auto"@,
{
    String::from_str("auto")
}

/// What a backup run works from: target volume and directory, the source
/// directories, and the switches for the optional items.
#[derive(Debug)]
pub struct BackupConfig {
    pub target_volume: String,
    pub target_directory: String,
    pub directories: Vec<String>,
    pub backup_homebrew: bool,
    pub backup_mas: bool,
    pub default_directories: Vec<String>,
    pub language: String,
    pub theme: String,
    pub backup_homebrew_cache: bool,
    pub backup_safari_settings: bool,
}

impl BackupConfig {
    /// The configuration a fresh install starts from: the user's Documents
    /// and Desktop folders, software inventories on, optional items off.
    pub fn default_for_home(home: &str) -> (cfg: BackupConfig)
        ensures
            cfg.target_volume@ == Seq::<char>::empty(),
            cfg.target_directory@ == Seq::<char>::empty(),
            cfg.directories@.len() == 2,
            cfg.directories@[0]@ == home@ + "/Documents"@,
            cfg.directories@[1]@ == home@ + "/Desktop"@,
            cfg.backup_homebrew,
            cfg.backup_mas,
            cfg.default_directories@.len() == 0,
            cfg.language@ == "de"@,
            cfg.theme@ == "auto"@,
            !cfg.backup_homebrew_cache,
            !cfg.backup_safari_settings,
    {
        let docs = String::from_str(home).concat("/Documents");
        let desk = String::from_str(home).concat("/Desktop");
        let mut directories: Vec<String> = Vec::new();
        directories.push(docs);
        directories.push(desk);
        BackupConfig {
            target_volume: String::new(),
            target_directory: String::new(),
            directories,
            backup_homebrew: true,
            backup_mas: true,
            default_directories: Vec::new(),
            language: default_language(),
            theme: default_theme(),
            backup_homebrew_cache: false,
            backup_safari_settings: false,
        }
    }
}

/// Where the configuration file lives under the given home directory.
pub fn config_path(home: &str) -> (r: String)
    ensures
        r@ == home@ + "/.macos_backup_suite/config.json"@,
{
    String::from_str(home).concat("/.macos_backup_suite/config.json")
}

} // verus!
