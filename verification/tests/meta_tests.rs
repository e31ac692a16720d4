use resource_cache::meta::{decode_metadata, encode_metadata, metadata_get, metadata_upsert};
use resource_cache::MetaEntry;

fn entry(key: &str, value: &str) -> MetaEntry {
    MetaEntry {
        key: key.to_string(),
        value: value.to_string(),
    }
}

#[test]
fn test_metadata_round_trip() {
    let entries = vec![
        entry("name", "example.txt"),
        entry("note", "quote \" and backslash \\ survive"),
        entry("empty", ""),
    ];
    let blob = encode_metadata(&entries);
    let decoded = decode_metadata(&blob).expect("the encoder's output must decode");
    assert_eq!(decoded.len(), 3);
    assert_eq!(decoded[0].key, "name");
    assert_eq!(decoded[0].value, "example.txt");
    assert_eq!(decoded[1].value, "quote \" and backslash \\ survive");
    assert_eq!(decoded[2].value, "");
}

#[test]
fn test_metadata_blob_shape() {
    let entries = vec![entry("encoding", "utf-8")];
    let blob = encode_metadata(&entries);
    assert_eq!(blob, "{\"encoding\":\"utf-8\"}");
    let empty: Vec<MetaEntry> = Vec::new();
    assert_eq!(encode_metadata(&empty), "{}");
}

#[test]
fn test_metadata_malformed_blob() {
    assert!(decode_metadata("").is_none());
    assert!(decode_metadata("not json").is_none());
    assert!(decode_metadata("{\"unterminated").is_none());
    assert!(decode_metadata("{\"a\":\"b\"} trailing").is_none());
    assert!(decode_metadata("{}").is_some());
}

#[test]
fn test_metadata_get_and_upsert() {
    let entries = vec![entry("a", "1"), entry("b", "2")];
    assert_eq!(metadata_get(&entries, "a"), Some("1".to_string()));
    assert_eq!(metadata_get(&entries, "missing"), None);

    let replaced = metadata_upsert(&entries, "a", "9");
    assert_eq!(metadata_get(&replaced, "a"), Some("9".to_string()));
    assert_eq!(metadata_get(&replaced, "b"), Some("2".to_string()));
    assert_eq!(replaced.len(), 2);

    let appended = metadata_upsert(&entries, "c", "3");
    assert_eq!(appended.len(), 3);
    assert_eq!(metadata_get(&appended, "c"), Some("3".to_string()));
}
