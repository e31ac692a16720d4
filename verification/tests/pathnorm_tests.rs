use resource_cache::{normalize_db_path, normalize_path_components};

#[test]
fn test_normalize_db_path_relative_nonexistent() {
    // Test relative path that doesn't exist yet
    let relative_path = "./test_db.sqlite";
    let normalized = normalize_db_path(relative_path, "/work");

    // Should be converted to absolute path
    assert!(normalized.starts_with('/'));
    assert!(normalized.ends_with("test_db.sqlite"));
    assert_ne!(normalized, relative_path);
}

#[test]
fn test_normalize_db_path_absolute_nonexistent() {
    // Test absolute path that doesn't exist
    let path_str = "/work/nonexistent_db.sqlite";
    let normalized = normalize_db_path(path_str, "/work");

    // Should remain the same since it's already absolute
    assert_eq!(normalized, path_str);
    assert!(normalized.starts_with('/'));
}

#[test]
fn test_normalize_db_path_dot_prefix() {
    let dot_path = "./db.sqlite";
    let plain_path = "db.sqlite";

    let normalized_dot = normalize_db_path(dot_path, "/work");
    let normalized_plain = normalize_db_path(plain_path, "/work");

    // Both should normalize to the same absolute path
    assert_eq!(normalized_dot, normalized_plain);
    assert!(normalized_dot.starts_with('/'));
    assert!(normalized_dot.ends_with("db.sqlite"));

    // Also verify they both resolve to the working directory + filename
    let expected = "/work/db.sqlite";
    assert_eq!(normalized_dot, expected);
    assert_eq!(normalized_plain, expected);

    // And the absolute spelling of the same file collapses to the same key
    let normalized_abs = normalize_db_path("/work/db.sqlite", "/work");
    assert_eq!(normalized_abs, expected);
}

#[test]
fn test_normalize_db_path_consistency() {
    // Test that multiple calls with the same path return the same result
    let test_path = "./test.db";
    let normalized1 = normalize_db_path(test_path, "/work");
    let normalized2 = normalize_db_path(test_path, "/work");

    assert_eq!(normalized1, normalized2);
}

#[test]
fn test_normalize_db_path_edge_cases() {
    let expected_current = "/a/b";

    // Empty path joins to the working directory itself
    let normalized_empty = normalize_db_path("", "/a/b");
    assert_eq!(normalized_empty, expected_current);

    // Single dot becomes the working directory
    let normalized_dot = normalize_db_path(".", "/a/b");
    assert!(normalized_dot.starts_with('/'));
    assert_eq!(normalized_dot, expected_current);

    // Double dot becomes the parent directory
    let normalized_double_dot = normalize_db_path("..", "/a/b");
    assert!(normalized_double_dot.starts_with('/'));
    assert_eq!(normalized_double_dot, "/a");
}

#[test]
fn test_normalize_db_path_idempotent() {
    // An already-normal absolute path is a fixed point
    assert_eq!(
        normalize_db_path("/work/db.sqlite", "/work"),
        "/work/db.sqlite"
    );

    // Renormalizing a computed key changes nothing
    let once = normalize_db_path("./a/../b/db.sqlite", "/work");
    let twice = normalize_db_path(&once, "/work");
    assert_eq!(once, "/work/b/db.sqlite");
    assert_eq!(twice, once);
}

#[test]
fn test_normalize_path_components_segments() {
    assert_eq!(normalize_path_components("/a/./b/../c"), "/a/c");
    assert_eq!(normalize_path_components("/a//b/"), "/a/b");
    assert_eq!(normalize_path_components("a/b/../../.."), "");
    assert_eq!(normalize_path_components("/"), "/");
    assert_eq!(normalize_path_components("/.."), "");
}
