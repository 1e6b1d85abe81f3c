//! The settings of the application.
use vstd::prelude::*;
use vstd::string::*;

verus! {

/// The settings: where the filesystem is mounted, where cached bytes and the
/// metadata store live, and how often and how much to synchronize.
#[derive(Debug)]
pub struct Config {
    /// Where the filesystem is mounted.
    pub mount_point: String,
    /// The directory of the cached file contents.
    pub cache_dir: String,
    /// The file of the metadata store.
    pub db_path: String,
    /// The seconds between two synchronizations.
    pub sync_interval_secs: u64,
    /// The greatest size of the cache, in megabytes.
    pub max_cache_size_mb: u64,
}

/// The default for the seconds between two synchronizations.
pub const DEFAULT_SYNC_INTERVAL_SECS: u64 = 60;

/// The default for the greatest size of the cache, in megabytes.
pub const DEFAULT_MAX_CACHE_SIZE_MB: u64 = 1024;

impl Config {
    /// The settings of a user whose home directory is `home`, where no
    /// settings are stored.
    pub fn default(home: &str) -> (config: Self)
        ensures
            config.mount_point@ == home@ + "/GoogleDrive"@,
            config.cache_dir@ == home@ + "/.cache/fedoradrive"@,
            config.db_path@ == home@ + "/.config/fedoradrive/metadata.db"@,
            config.sync_interval_secs == DEFAULT_SYNC_INTERVAL_SECS,
            config.max_cache_size_mb == DEFAULT_MAX_CACHE_SIZE_MB,
    {
        Config {
            mount_point: String::from_str(home).concat("/GoogleDrive"),
            cache_dir: String::from_str(home).concat("/.cache/fedoradrive"),
            db_path: String::from_str(home).concat("/.config/fedoradrive/metadata.db"),
            sync_interval_secs: DEFAULT_SYNC_INTERVAL_SECS,
            max_cache_size_mb: DEFAULT_MAX_CACHE_SIZE_MB,
        }
    }

    /// The file in which the settings of a user are stored.
    pub fn config_path(home: &str) -> (path: String)
        ensures
            path@ == home@ + "/.config/fedoradrive/config.json"@,
    {
        String::from_str(home).concat("/.config/fedoradrive/config.json")
    }
}

} // verus!
