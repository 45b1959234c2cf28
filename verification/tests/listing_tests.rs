use netbackup::config::{AuthConfig, ClientConfig, Config, ServerConfig};
use netbackup::listing::{
    bytes_le, decode_file_list, encode_file_list, sort_by_name, FileMetadata, ListingError,
};
use netbackup::protocol::{Message, Operation};

fn meta(name: &[u8], size: u64, modified: &[u8], content: &[u8]) -> FileMetadata {
    FileMetadata::new(name.to_vec(), size, modified.to_vec(), content)
}

#[test]
fn test_metadata_checksum_is_content_hash() {
    let m = meta(b"a.txt", 3, b"2024-01-01 00:00:00", b"abc");
    // The message codec hashes payloads with the same function.
    let msg = Message::new(Operation::Store, b"abc".to_vec());
    assert_eq!(m.checksum, msg.checksum);
    assert_ne!(m.checksum, b"abc".to_vec());
}

#[test]
fn test_listing_round_trip() {
    let metas = vec![
        meta(b"a.txt", 3, b"2024-01-01 10:00:00", b"abc"),
        meta(b"", 0, b"", b""),
        meta(b"big.bin", u64::MAX, b"2024-12-31 23:59:59", &[0xFF; 100]),
    ];
    let payload = encode_file_list(&metas);
    let decoded = decode_file_list(&payload).unwrap();
    assert_eq!(decoded, metas);
}

#[test]
fn test_listing_empty() {
    let payload = encode_file_list(&Vec::new());
    assert_eq!(payload, vec![0, 0, 0, 0]);
    let decoded = decode_file_list(&payload).unwrap();
    assert!(decoded.is_empty());
}

#[test]
fn test_listing_decode_errors() {
    // Too short for the record count.
    assert_eq!(
        decode_file_list(&[0, 0]).unwrap_err(),
        ListingError::TruncatedRecord
    );
    // A declared record with no bytes behind it.
    assert_eq!(
        decode_file_list(&[0, 0, 0, 1]).unwrap_err(),
        ListingError::TruncatedRecord
    );
    // Bytes after the declared records.
    let mut payload = encode_file_list(&Vec::new());
    payload.push(0);
    assert_eq!(
        decode_file_list(&payload).unwrap_err(),
        ListingError::TrailingBytes
    );
}

#[test]
fn test_sort_by_name() {
    let metas = vec![
        meta(b"zebra.txt", 1, b"", b"z"),
        meta(b"alpha.txt", 2, b"", b"a"),
        meta(b"alpha.txt", 3, b"", b"a2"),
        meta(b"middle", 4, b"", b"m"),
    ];
    let sorted = sort_by_name(metas);
    let names: Vec<&[u8]> = sorted.iter().map(|m| m.name.as_slice()).collect();
    assert_eq!(names, vec![&b"alpha.txt"[..], b"alpha.txt", b"middle", b"zebra.txt"]);
    // The duplicate names keep both records.
    assert_eq!(sorted.len(), 4);
}

#[test]
fn test_bytes_le_order() {
    assert!(bytes_le(b"", b""));
    assert!(bytes_le(b"", b"a"));
    assert!(!bytes_le(b"a", b""));
    assert!(bytes_le(b"abc", b"abd"));
    assert!(!bytes_le(b"abd", b"abc"));
    assert!(bytes_le(b"ab", b"abc"));
    assert!(bytes_le(b"abc", b"abc"));
}

#[test]
fn test_config_defaults() {
    let config = Config::default();
    assert_eq!(config.server.bind_address, "0.0.0.0:8080");
    assert_eq!(config.server.storage_path, "./storage_data");
    assert_eq!(config.client.default_server, "127.0.0.1:8080");
    assert_eq!(config.auth.password, "secure_password_123");

    let server = ServerConfig::default();
    assert_eq!(server.bind_address, "0.0.0.0:8080");
    let client = ClientConfig::default();
    assert_eq!(client.default_server, "127.0.0.1:8080");
    let auth = AuthConfig::default();
    assert_eq!(auth.password, "secure_password_123");
}
