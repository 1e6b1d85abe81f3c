use gdrivexp::config::{Config, DEFAULT_MAX_CACHE_SIZE_MB, DEFAULT_SYNC_INTERVAL_SECS};

#[test]
fn test_default_config() {
    let config = Config::default("/home/user");
    assert!(config.sync_interval_secs > 0);
    assert!(config.max_cache_size_mb > 0);
}

#[test]
fn default_config_has_the_paths_of_the_home() {
    let config = Config::default("/home/ana");
    assert_eq!(config.mount_point, "/home/ana/GoogleDrive");
    assert_eq!(config.cache_dir, "/home/ana/.cache/fedoradrive");
    assert_eq!(config.db_path, "/home/ana/.config/fedoradrive/metadata.db");
    assert_eq!(config.sync_interval_secs, 60);
    assert_eq!(config.max_cache_size_mb, 1024);
    assert_eq!(DEFAULT_SYNC_INTERVAL_SECS, 60);
    assert_eq!(DEFAULT_MAX_CACHE_SIZE_MB, 1024);
    assert_eq!(Config::config_path("/home/ana"), "/home/ana/.config/fedoradrive/config.json");
}
