use resource_cache::CacheConfig;

#[test]
fn test_cache_config_defaults() {
    let config = CacheConfig::default();
    // Should default to a file-based database, never an in-memory one
    assert!(config.database_path.ends_with("cache.db"));
    assert!(!config.database_path.contains(":memory:"));
    assert_eq!(config.default_ttl_ms, 3_600_000);
    assert_eq!(config.max_size_mb, 100);
    assert!(config.auto_cleanup);
    assert_eq!(config.cleanup_interval_ms, 300_000);
}

#[test]
fn test_config_validate_accepts_defaults() {
    let config = CacheConfig::default();
    assert!(config.validate().is_ok());
}

#[test]
fn test_config_validate_rejects_empty_path() {
    let config = CacheConfig {
        database_path: String::new(),
        ..CacheConfig::default()
    };
    let r = config.validate();
    assert!(matches!(
        r,
        Err(resource_cache::CacheError::Validation(_))
    ));
}

#[test]
fn test_config_validate_rejects_min_above_max() {
    let config = CacheConfig {
        pool_min_connections: Some(10),
        pool_max_connections: Some(5),
        ..CacheConfig::default()
    };
    let r = config.validate();
    assert!(matches!(
        r,
        Err(resource_cache::CacheError::Validation(_))
    ));
}

#[test]
fn test_config_validate_rejects_zero_timeout() {
    let config = CacheConfig {
        pool_connection_timeout_ms: Some(0),
        ..CacheConfig::default()
    };
    assert!(config.validate().is_err());
}
