use resource_cache::{
    CacheConfig, CacheError, CachedResource, InitRegistry, MetaEntry, ResourceCache,
    ResourceContent, ResourceInfo,
};

const POOL_TIMEOUT_MS: u64 = 30_000;

/// Create a test cache config with a unique temporary database file.
fn create_test_cache_config() -> (CacheConfig, tempfile::TempDir) {
    let temp_dir = tempfile::tempdir().unwrap();
    let db_path = temp_dir
        .path()
        .join(format!("test_{}.db", uuid::Uuid::new_v4()));
    let config = CacheConfig {
        database_path: db_path.to_string_lossy().to_string(),
        ..CacheConfig::default()
    };
    (config, temp_dir)
}

fn new_cache(config: CacheConfig) -> Result<ResourceCache, CacheError> {
    let registry = InitRegistry::new();
    ResourceCache::new(config, &registry, "/")
}

fn create_test_resource() -> ResourceContent {
    let metadata = vec![MetaEntry {
        key: "size".to_string(),
        value: "13".to_string(),
    }];

    let info = ResourceInfo {
        uri: "test://example.txt".to_string(),
        name: Some("example.txt".to_string()),
        description: Some("Test resource".to_string()),
        mime_type: Some("text/plain".to_string()),
        metadata,
    };

    ResourceContent {
        info,
        data: b"Hello, World!".to_vec(),
        encoding: Some("utf-8".to_string()),
    }
}

fn busy_wait_ms(ms: u64) {
    let start = std::time::Instant::now();
    while start.elapsed() < std::time::Duration::from_millis(ms) {
        std::hint::spin_loop();
    }
}

#[test]
fn test_cache_creation_with_temp_file() {
    let (config, _temp_dir) = create_test_cache_config();
    let result = new_cache(config);

    // Should succeed with a file-based database
    assert!(result.is_ok());
    let cache = result.unwrap();
    assert_eq!(cache.get_analytics().resource_count, 0);
    assert_eq!(cache.get_analytics().cache_size_bytes, 0);
}

#[test]
fn test_cache_persistence_across_sessions() {
    let (config, _temp_dir) = create_test_cache_config();
    let db_path = config.database_path.clone();
    let registry = InitRegistry::new();

    // Session 1: Store a resource
    {
        let mut cache = ResourceCache::new(config, &registry, "/").unwrap();
        let resource = create_test_resource();
        cache.store_resource(&resource).unwrap();
    }

    // Session 2: Resource should still be there
    {
        let config = CacheConfig {
            database_path: db_path,
            ..CacheConfig::default()
        };
        let mut cache = ResourceCache::new(config, &registry, "/").unwrap();
        let retrieved = cache.get_resource("test://example.txt").unwrap();
        assert!(
            retrieved.is_some(),
            "Resource should persist across sessions"
        );
        assert_eq!(retrieved.unwrap().data, b"Hello, World!");
    }
}

#[test]
fn test_cache_creation_file_based() {
    let temp_file = tempfile::NamedTempFile::new().unwrap();
    let config = CacheConfig {
        database_path: temp_file.path().to_string_lossy().to_string(),
        ..CacheConfig::default()
    };

    let result = new_cache(config);

    assert!(result.is_ok());
    let cache = result.unwrap();
    assert_eq!(cache.get_analytics().resource_count, 0);
}

#[test]
fn test_store_and_retrieve_resource() {
    let (config, _temp_dir) = create_test_cache_config();
    let mut cache = new_cache(config).unwrap();
    let resource = create_test_resource();

    // Store resource
    let result = cache.store_resource(&resource);
    assert!(result.is_ok());
    let resource_id = result.unwrap();
    assert!(!resource_id.is_empty());

    // Retrieve resource
    let result = cache.get_resource("test://example.txt");
    assert!(result.is_ok());
    let retrieved = result.unwrap();
    assert!(retrieved.is_some());
    let retrieved_resource = retrieved.unwrap();
    assert_eq!(retrieved_resource.info.uri, "test://example.txt");
    assert_eq!(retrieved_resource.data, b"Hello, World!");
}

#[test]
fn test_store_resource_with_custom_ttl() {
    let (config, _temp_dir) = create_test_cache_config();
    let mut cache = new_cache(config).unwrap();
    let resource = create_test_resource();
    let ttl_ms: u64 = 60_000;

    let result = cache.store_resource_with_ttl(&resource, ttl_ms);
    assert!(result.is_ok());
    let resource_id = result.unwrap();
    assert!(!resource_id.is_empty());

    // Verify resource was stored
    let retrieved = cache.get_resource("test://example.txt").unwrap();
    assert!(retrieved.is_some());
}

#[test]
fn test_list_cached_resources() {
    let (config, _temp_dir) = create_test_cache_config();
    let config = CacheConfig {
        pool_connection_timeout_ms: Some(POOL_TIMEOUT_MS),
        ..config
    };
    let mut cache = new_cache(config).unwrap();

    // Initially empty
    let result = cache.list_cached_resources();
    assert!(result.is_ok(), "Initial list should succeed");
    let resources = result.unwrap();
    assert_eq!(resources.len(), 0);

    // Add a resource
    let resource = create_test_resource();
    cache.store_resource(&resource).unwrap();

    // Should have one resource
    let result = cache.list_cached_resources();
    assert!(
        result.is_ok(),
        "Second list should succeed after storing resource"
    );
    let resources = result.unwrap();
    assert_eq!(resources.len(), 1);
    assert_eq!(resources[0].uri, "test://example.txt");
}

#[test]
fn test_contains_resource() {
    let temp_file = tempfile::NamedTempFile::new().unwrap();
    let config = CacheConfig {
        database_path: temp_file.path().to_string_lossy().to_string(),
        pool_connection_timeout_ms: Some(POOL_TIMEOUT_MS),
        ..CacheConfig::default()
    };
    let mut cache = new_cache(config).unwrap();

    // Initially should not contain resource
    let result = cache.contains_resource("test://example.txt");
    assert!(result.is_ok(), "Initial contains_resource should succeed");
    assert!(!result.unwrap());

    // Add resource
    let resource = create_test_resource();
    cache.store_resource(&resource).unwrap();

    // Should now contain resource
    let result = cache.contains_resource("test://example.txt");
    assert!(result.is_ok(), "Second contains_resource should succeed");
    assert!(result.unwrap());
}

#[test]
fn test_remove_resource() {
    let (config, _temp_dir) = create_test_cache_config();
    let mut cache = new_cache(config).unwrap();

    // Add resource
    let resource = create_test_resource();
    cache.store_resource(&resource).unwrap();

    // Verify it exists
    assert!(cache.contains_resource("test://example.txt").unwrap());

    // Remove resource
    let result = cache.remove_resource("test://example.txt");
    assert!(result.is_ok());
    assert!(result.unwrap()); // Should return true (was removed)

    // Verify it's gone
    assert!(!cache.contains_resource("test://example.txt").unwrap());
}

#[test]
fn test_clear_cache() {
    let (config, _temp_dir) = create_test_cache_config();
    let mut cache = new_cache(config).unwrap();

    // Add some resources
    let resource = create_test_resource();
    cache.store_resource(&resource).unwrap();

    // Verify cache has resources
    let resources = cache.list_cached_resources().unwrap();
    assert!(!resources.is_empty());

    // Clear cache
    let result = cache.clear();
    assert!(result.is_ok());

    // Verify cache is empty
    let resources = cache.list_cached_resources().unwrap();
    assert!(resources.is_empty());
    assert_eq!(cache.get_analytics().resource_count, 0);
}

#[test]
fn test_cleanup_expired_resources() {
    let (config, _temp_dir) = create_test_cache_config();
    let mut cache = new_cache(config).unwrap();

    // Add resource that expires immediately
    let resource = create_test_resource();
    cache.store_resource_with_ttl(&resource, 1).unwrap();

    // Wait for expiration
    busy_wait_ms(10);

    // Run cleanup
    let result = cache.cleanup_expired();
    assert!(result.is_ok());
    let removed_count = result.unwrap();
    assert_eq!(removed_count, 1);

    // Verify resource is gone
    assert!(!cache.contains_resource("test://example.txt").unwrap());
}

#[test]
fn test_cache_analytics() {
    let (config, _temp_dir) = create_test_cache_config();
    let mut cache = new_cache(config).unwrap();

    // Initial analytics
    let analytics = cache.get_analytics();
    assert_eq!(analytics.resource_count, 0);
    assert_eq!(analytics.cache_size_bytes, 0);
    assert_eq!(analytics.total_requests, 0);
    assert_eq!(analytics.cache_hits, 0);
    assert_eq!(analytics.cache_misses, 0);

    // Add a resource and access it
    let resource = create_test_resource();
    cache.store_resource(&resource).unwrap();

    // Access the resource to generate analytics
    let _retrieved = cache.get_resource("test://example.txt").unwrap();

    // Check updated analytics
    let analytics = cache.get_analytics();
    assert_eq!(analytics.resource_count, 1);
    assert!(analytics.cache_size_bytes > 0);
    assert_eq!(analytics.total_requests, 1);
    assert_eq!(analytics.cache_hits, 1);
    assert_eq!(analytics.cache_misses, 0);
    let hit_rate = analytics.cache_hits as f64 / analytics.total_requests as f64;
    assert_eq!(hit_rate, 1.0);
    assert_eq!(analytics.hit_rate_millionths(), 1_000_000);
}

#[test]
fn test_search_resources() {
    let (config, _temp_dir) = create_test_cache_config();
    let mut cache = new_cache(config).unwrap();

    // Initially empty
    let result = cache.search_resources("text/plain");
    assert!(result.is_ok());
    assert_eq!(result.unwrap().len(), 0);

    // Add a resource
    let resource = create_test_resource();
    cache.store_resource(&resource).unwrap();

    // Search should find it
    let result = cache.search_resources("text/plain");
    assert!(result.is_ok());
    let resources = result.unwrap();
    assert_eq!(resources.len(), 1);
    assert_eq!(resources[0].uri, "test://example.txt");

    // Search by URI should also work
    let result = cache.search_resources("example");
    assert!(result.is_ok());
    let resources = result.unwrap();
    assert_eq!(resources.len(), 1);
}

#[test]
fn test_get_cache_size() {
    let (config, _temp_dir) = create_test_cache_config();
    let mut cache = new_cache(config).unwrap();

    // Initially empty
    let result = cache.get_cache_size();
    assert!(result.is_ok());
    assert_eq!(result.unwrap(), 0);

    // Add a resource
    let resource = create_test_resource();
    cache.store_resource(&resource).unwrap();

    // Should have size now
    let result = cache.get_cache_size();
    assert!(result.is_ok());
    let size = result.unwrap();
    assert!(size > 0);
    assert_eq!(size, 13); // "Hello, World!" is 13 bytes
}

#[test]
fn test_database_compaction() {
    let (config, _temp_dir) = create_test_cache_config();
    let mut cache = new_cache(config).unwrap();

    // Add and remove some resources to create fragmentation
    let resource = create_test_resource();
    cache.store_resource(&resource).unwrap();
    cache.remove_resource("test://example.txt").unwrap();

    // Compact should succeed
    let result = cache.compact();
    assert!(result.is_ok());
}

#[test]
fn test_ttl_expiration() {
    let (mut config, _temp_dir) = create_test_cache_config();
    config.default_ttl_ms = 100; // Very short TTL for testing
    let mut cache = new_cache(config).unwrap();
    let resource = create_test_resource();

    // Store resource
    let _id = cache.store_resource(&resource).unwrap();

    // Wait for expiration
    busy_wait_ms(150);

    // Resource should be expired
    let result = cache.get_resource("test://example.txt").unwrap();
    assert!(result.is_none());
}

#[test]
fn test_concurrent_access() {
    // Distinct writes to distinct URIs all land and are all retrievable
    let (config, _temp_dir) = create_test_cache_config();
    let mut cache = new_cache(config).unwrap();

    let resource = create_test_resource();
    for i in 0..10 {
        let mut r = create_test_resource();
        r.info.uri = format!("test://example{}.txt", i);
        r.data = resource.data.clone();
        assert!(cache.store_resource(&r).is_ok());
    }

    // Verify all resources were stored
    let resources = cache.list_cached_resources().unwrap();
    assert_eq!(resources.len(), 10);
    for i in 0..10 {
        let uri = format!("test://example{}.txt", i);
        assert!(cache.contains_resource(&uri).unwrap());
    }
}

#[test]
fn test_acid_transactions() {
    let (config, _temp_dir) = create_test_cache_config();
    let mut cache = new_cache(config).unwrap();
    let resource = create_test_resource();

    // A store either fully succeeds or leaves nothing behind
    let result = cache.store_resource(&resource);

    match result {
        Ok(_) => {
            // If successful, resource should be retrievable
            let retrieved = cache.get_resource("test://example.txt").unwrap();
            assert!(retrieved.is_some());
        }
        Err(_) => {
            // If failed, resource should not be partially stored
            let retrieved = cache.get_resource("test://example.txt").unwrap();
            assert!(retrieved.is_none());
        }
    }
}

#[test]
fn test_empty_database_path_validation() {
    let config = CacheConfig {
        database_path: String::new(),
        ..CacheConfig::default()
    };

    let result = new_cache(config);
    assert!(result.is_err());
    if let Err(CacheError::Validation(msg)) = result {
        assert!(msg.contains("database_path cannot be empty"));
    } else {
        panic!("Expected Validation error for empty database path");
    }
}

#[test]
fn test_invalid_pool_configuration() {
    let (mut config, _temp_dir) = create_test_cache_config();
    config.pool_min_connections = Some(10);
    config.pool_max_connections = Some(5); // min > max

    let result = new_cache(config);
    assert!(result.is_err());
    if let Err(CacheError::Validation(msg)) = result {
        assert!(msg.contains("pool_min_connections"));
        assert!(msg.contains("pool_max_connections"));
    } else {
        panic!("Expected Validation error for invalid pool configuration");
    }
}

#[test]
fn test_cached_resource_structure() {
    let cached_resource = CachedResource {
        id: uuid::Uuid::new_v4().to_string(),
        uri: "test://example.txt".to_string(),
        content: b"Hello, World!".to_vec(),
        content_type: Some("text/plain".to_string()),
        metadata: Vec::new(),
        created_at: 1_700_000_000_000,
        accessed_at: 1_700_000_000_000,
        expires_at: Some(1_700_000_000_000 + 3_600_000),
        access_count: 1,
        size_bytes: 13,
    };

    assert_eq!(cached_resource.uri, "test://example.txt");
    assert_eq!(cached_resource.content, b"Hello, World!");
    assert_eq!(cached_resource.size_bytes, 13);
    assert!(cached_resource.expires_at.is_some());
}

#[test]
fn test_concurrent_cache_creation_shared_database() {
    // Multiple cache instances can safely use the same database file
    let temp_file = tempfile::NamedTempFile::new().unwrap();
    let db_path = temp_file.path().to_string_lossy().to_string();
    let registry = InitRegistry::new();

    // Create multiple cache instances pointing to the same database file
    let mut caches = Vec::new();
    for _ in 0..5 {
        let config = CacheConfig {
            database_path: db_path.clone(),
            pool_connection_timeout_ms: Some(POOL_TIMEOUT_MS),
            ..CacheConfig::default()
        };
        let cache = ResourceCache::new(config, &registry, "/").unwrap();
        caches.push(cache);
    }

    // All caches should be able to operate on the shared database
    for (i, cache) in caches.iter_mut().enumerate() {
        let mut test_resource = create_test_resource();
        test_resource.info.uri = format!("test://shared-{}.txt", i);

        // Store resource
        cache.store_resource(&test_resource).unwrap();

        // Verify it exists
        assert!(cache.contains_resource(&test_resource.info.uri).unwrap());
    }

    // Verify all resources are accessible from any cache instance
    let first_cache = &caches[0];
    for i in 0..5 {
        let uri = format!("test://shared-{}.txt", i);
        assert!(
            first_cache.contains_resource(&uri).unwrap(),
            "Resource {} should be accessible from any cache instance",
            i
        );
    }
}

#[test]
fn test_connection_pool_configuration() {
    let (mut config, _temp_dir) = create_test_cache_config();
    config.pool_min_connections = Some(2);
    config.pool_max_connections = Some(10);
    config.pool_connection_timeout_ms = Some(POOL_TIMEOUT_MS);

    let result = new_cache(config);
    assert!(result.is_ok());
    let cache = result.unwrap();

    // Should be able to get pool stats
    let stats = cache.get_pool_stats();
    assert_eq!(stats.max_connections, 10);
    assert!(stats.active_connections <= 10);
    assert!(stats.active_connections + stats.idle_connections <= stats.max_connections);
}

#[test]
fn test_pool_exhaustion_handling() {
    let (mut config, _temp_dir) = create_test_cache_config();
    config.pool_min_connections = Some(1);
    config.pool_max_connections = Some(2); // Very small pool
    config.pool_connection_timeout_ms = Some(100); // Short timeout

    let mut cache = new_cache(config).unwrap();

    // This should work fine initially
    let resource = create_test_resource();
    let result = cache.store_resource(&resource);
    assert!(result.is_ok());

    // Pool should report its configured bound
    let pool_stats = cache.get_pool_stats();
    assert!(pool_stats.max_connections == 2);
}

#[test]
fn test_connection_reuse_in_pool() {
    let (mut config, _temp_dir) = create_test_cache_config();
    config.pool_min_connections = Some(2);
    config.pool_max_connections = Some(3);

    let mut cache = new_cache(config).unwrap();
    let resource = create_test_resource();

    // First operation
    let _result1 = cache.store_resource(&resource).unwrap();
    let stats1 = cache.get_pool_stats();

    // Second operation should reuse a connection
    let _result2 = cache.get_resource("test://example.txt").unwrap();
    let stats2 = cache.get_pool_stats();

    // Connection count shouldn't increase unnecessarily
    assert!(stats2.active_connections <= stats1.active_connections + 1);
}

#[test]
fn test_pool_connection_lifecycle() {
    let temp_file = tempfile::NamedTempFile::new().unwrap();
    let config = CacheConfig {
        database_path: temp_file.path().to_string_lossy().to_string(),
        pool_min_connections: Some(1),
        pool_max_connections: Some(3),
        ..CacheConfig::default()
    };

    {
        let cache = new_cache(config).unwrap();
        let pool_stats = cache.get_pool_stats();
        // Pool should be created and configured properly
        assert_eq!(pool_stats.max_connections, 3);
        assert!(pool_stats.active_connections <= pool_stats.max_connections);
    }
    // After drop, connections are cleaned up with the pool
}

#[test]
fn test_get_resource_with_encoding_from_metadata() {
    let (config, _temp_dir) = create_test_cache_config();
    let mut cache = new_cache(config).unwrap();

    // Create a resource with encoding in metadata
    let metadata = vec![MetaEntry {
        key: "encoding".to_string(),
        value: "utf-16".to_string(),
    }];

    let resource = ResourceContent {
        info: ResourceInfo {
            uri: "test://encoded.txt".to_string(),
            name: Some("encoded.txt".to_string()),
            description: Some("Test resource with encoding".to_string()),
            mime_type: Some("text/plain".to_string()),
            metadata,
        },
        data: b"Hello, World!".to_vec(),
        encoding: Some("utf-16".to_string()),
    };

    // Store the resource
    cache.store_resource(&resource).unwrap();

    // Retrieve and check encoding is preserved
    let retrieved = cache.get_resource("test://encoded.txt").unwrap();
    assert!(retrieved.is_some());
    let retrieved_resource = retrieved.unwrap();
    assert_eq!(retrieved_resource.encoding, Some("utf-16".to_string()));
}

#[test]
fn test_get_resource_with_encoding_from_content_type() {
    let (config, _temp_dir) = create_test_cache_config();
    let mut cache = new_cache(config).unwrap();

    // No encoding in metadata, but a charset in the content type
    let resource = ResourceContent {
        info: ResourceInfo {
            uri: "test://charset.html".to_string(),
            name: Some("charset.html".to_string()),
            description: Some("Test resource with charset in content type".to_string()),
            mime_type: Some("text/html; charset=iso-8859-1".to_string()),
            metadata: Vec::new(),
        },
        data: b"<html>Hello</html>".to_vec(),
        encoding: None, // No encoding specified
    };

    // Store the resource
    cache.store_resource(&resource).unwrap();

    // Retrieve and check encoding is extracted from content_type
    let retrieved = cache.get_resource("test://charset.html").unwrap();
    assert!(retrieved.is_some());
    let retrieved_resource = retrieved.unwrap();
    assert_eq!(retrieved_resource.encoding, Some("iso-8859-1".to_string()));
}

#[test]
fn test_store_and_retrieve_with_encoding() {
    let (config, _temp_dir) = create_test_cache_config();
    let mut cache = new_cache(config).unwrap();

    // Create a resource with encoding
    let resource = ResourceContent {
        info: ResourceInfo {
            uri: "test://utf8.txt".to_string(),
            name: Some("utf8.txt".to_string()),
            description: Some("UTF-8 encoded text".to_string()),
            mime_type: Some("text/plain".to_string()),
            metadata: Vec::new(),
        },
        data: "Hello, 世界! 🌍".as_bytes().to_vec(),
        encoding: Some("utf-8".to_string()),
    };

    // Store the resource
    cache.store_resource(&resource).unwrap();

    // Retrieve and verify encoding is preserved
    let retrieved = cache.get_resource("test://utf8.txt").unwrap();
    assert!(retrieved.is_some());
    let retrieved_resource = retrieved.unwrap();
    assert_eq!(retrieved_resource.encoding, Some("utf-8".to_string()));
    assert_eq!(retrieved_resource.data, "Hello, 世界! 🌍".as_bytes());
}

#[test]
fn test_round_trip_encoding_with_quoted_charset() {
    let (config, _temp_dir) = create_test_cache_config();
    let mut cache = new_cache(config).unwrap();

    // Resource with quoted charset in the content-type
    let resource = ResourceContent {
        info: ResourceInfo {
            uri: "test://quoted-charset.html".to_string(),
            name: Some("quoted-charset.html".to_string()),
            description: Some("HTML with quoted charset".to_string()),
            mime_type: Some("text/html; charset=\"windows-1252\"".to_string()),
            metadata: Vec::new(),
        },
        data: b"<html>Content with special chars</html>".to_vec(),
        encoding: None, // Should extract from content-type
    };

    // Store the resource
    cache.store_resource(&resource).unwrap();

    // Retrieve and verify encoding was extracted from the quoted charset
    let retrieved = cache.get_resource("test://quoted-charset.html").unwrap();
    assert!(retrieved.is_some());
    let retrieved_resource = retrieved.unwrap();
    assert_eq!(
        retrieved_resource.encoding,
        Some("windows-1252".to_string())
    );
}

#[test]
fn test_round_trip_encoding_with_case_insensitive_charset() {
    let (config, _temp_dir) = create_test_cache_config();
    let mut cache = new_cache(config).unwrap();

    // Resource with an uppercase Charset parameter in the content-type
    let resource = ResourceContent {
        info: ResourceInfo {
            uri: "test://uppercase-charset.xml".to_string(),
            name: Some("uppercase-charset.xml".to_string()),
            description: Some("XML with uppercase Charset".to_string()),
            mime_type: Some("application/xml; Charset=UTF-8".to_string()),
            metadata: Vec::new(),
        },
        data: b"<?xml version=\"1.0\"?><root>data</root>".to_vec(),
        encoding: None, // Should extract from content-type
    };

    // Store the resource
    cache.store_resource(&resource).unwrap();

    // Retrieve and verify encoding was extracted from the uppercase Charset
    let retrieved = cache.get_resource("test://uppercase-charset.xml").unwrap();
    assert!(retrieved.is_some());
    let retrieved_resource = retrieved.unwrap();
    assert_eq!(retrieved_resource.encoding, Some("utf-8".to_string()));
}

#[test]
fn test_analytics_hit_rate_calculation_safety() {
    let analytics = resource_cache::CacheAnalytics::new(0);

    // Calculate hit rate with zero requests - should not panic
    let hit_rate = if analytics.total_requests > 0 {
        analytics.cache_hits as f64 / analytics.total_requests as f64
    } else {
        0.0
    };

    assert_eq!(hit_rate, 0.0);
    assert_eq!(analytics.hit_rate_millionths(), 0);
}

#[test]
fn test_migration_system_and_connection_pool() {
    // Create cache with pool settings to test migration + pool integration
    let temp_file = tempfile::NamedTempFile::new().unwrap();
    let config = CacheConfig {
        database_path: temp_file.path().to_string_lossy().to_string(),
        default_ttl_ms: 60_000,
        max_size_mb: 100,
        auto_cleanup: true,
        cleanup_interval_ms: 30_000,
        pool_min_connections: Some(2),
        pool_max_connections: Some(4),
        pool_connection_timeout_ms: Some(5_000),
        pool_max_lifetime_ms: Some(300_000),
    };

    // Test that migrations work with the connection pool
    let mut cache = new_cache(config).unwrap();

    let test_resource = ResourceContent {
        info: ResourceInfo {
            uri: "test://migration/verification".to_string(),
            name: Some("Migration Test".to_string()),
            description: Some("Verify migration + pool work together".to_string()),
            mime_type: Some("text/plain".to_string()),
            metadata: Vec::new(),
        },
        data: b"migration test data".to_vec(),
        encoding: None,
    };

    // Store and retrieve to verify the migrated schema works with pooled connections
    let _id = cache.store_resource(&test_resource).unwrap();
    let retrieved = cache.get_resource(&test_resource.info.uri).unwrap();

    assert!(retrieved.is_some());
    assert_eq!(retrieved.unwrap().data, test_resource.data);

    // Verify the analytics work (the history table was created by the migration)
    let analytics = cache.get_analytics();
    assert_eq!(analytics.total_requests, 1);

    // Exercise the pool with several sequential reads
    for i in 0..5 {
        let uri = format!("test://pool/resource{}", i);
        let result = cache.get_resource(&uri);
        assert!(result.is_ok()); // Should succeed even for non-existent resources
    }
}

#[test]
fn test_upsert_replaces_previous_row() {
    let (config, _temp_dir) = create_test_cache_config();
    let mut cache = new_cache(config).unwrap();

    let mut first = create_test_resource();
    first.data = b"first".to_vec();
    cache.store_resource(&first).unwrap();

    let mut second = create_test_resource();
    second.data = b"second".to_vec();
    cache.store_resource(&second).unwrap();

    // The later write wins and no duplicate rows exist for one URI
    let retrieved = cache.get_resource("test://example.txt").unwrap().unwrap();
    assert_eq!(retrieved.data, b"second");
    let listed = cache.list_cached_resources().unwrap();
    assert_eq!(listed.len(), 1);
}

#[test]
fn test_zero_ttl_never_expires() {
    let (config, _temp_dir) = create_test_cache_config();
    let mut cache = new_cache(config).unwrap();

    let resource = create_test_resource();
    cache.store_resource_with_ttl(&resource, 0).unwrap();

    busy_wait_ms(20);

    let retrieved = cache.get_resource("test://example.txt").unwrap();
    assert!(retrieved.is_some());
    let listed = cache.list_cached_resources().unwrap();
    assert!(listed[0].expires_at.is_none());
}

#[test]
fn test_malformed_metadata_blob_is_storage_error() {
    let (config, _temp_dir) = create_test_cache_config();
    let db_path = config.database_path.clone();
    let mut cache = new_cache(config).unwrap();

    let resource = create_test_resource();
    cache.store_resource(&resource).unwrap();

    // Corrupt the stored metadata blob behind the cache's back
    let conn = rusqlite::Connection::open(&db_path).unwrap();
    conn.execute("UPDATE resources SET metadata_json = 'not json'", ())
        .unwrap();
    drop(conn);

    // A strict read refuses the malformed blob
    let result = cache.get_resource("test://example.txt");
    assert!(matches!(result, Err(CacheError::Storage(_))));

    // The permissive listing path yields the resource with empty metadata
    let listed = cache.list_cached_resources().unwrap();
    assert_eq!(listed.len(), 1);
    assert!(listed[0].metadata.is_empty());
}

#[test]
fn test_pool_error_on_missing_directory() {
    let config = CacheConfig {
        database_path: "/nonexistent_dir_for_cache/sub/cache.db".to_string(),
        pool_connection_timeout_ms: Some(300),
        ..CacheConfig::default()
    };
    let result = new_cache(config);
    assert!(matches!(result, Err(CacheError::Pool(_))));
}
