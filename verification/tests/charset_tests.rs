use resource_cache::parse_charset;

#[test]
fn test_parse_charset() {
    // Basic charset parsing
    assert_eq!(
        parse_charset("text/html; charset=utf-8"),
        Some("utf-8".to_string())
    );
    assert_eq!(
        parse_charset("text/plain; charset=ISO-8859-1"),
        Some("iso-8859-1".to_string())
    );

    // Edge cases
    assert_eq!(parse_charset("text/plain"), None);
    assert_eq!(parse_charset("application/octet-stream"), None);
    assert_eq!(
        parse_charset("text/html;charset=utf-8"),
        Some("utf-8".to_string())
    ); // no space
    assert_eq!(
        parse_charset("text/html; charset=UTF-8"),
        Some("utf-8".to_string())
    ); // uppercase
    assert_eq!(parse_charset(""), None);
    assert_eq!(
        parse_charset("text/html; charset=utf-8; boundary=something"),
        Some("utf-8".to_string())
    );

    // Quoted values
    assert_eq!(
        parse_charset("text/html; charset=\"utf-8\""),
        Some("utf-8".to_string())
    );
    assert_eq!(
        parse_charset("text/html; charset='iso-8859-1'"),
        Some("iso-8859-1".to_string())
    );

    // Case insensitive key matching
    assert_eq!(
        parse_charset("text/html; Charset=UTF-8"),
        Some("utf-8".to_string())
    );
    assert_eq!(
        parse_charset("text/html; CHARSET=windows-1252"),
        Some("windows-1252".to_string())
    );

    // Mixed case with quotes
    assert_eq!(
        parse_charset("text/html; Charset=\"UTF-8\""),
        Some("utf-8".to_string())
    );
}
