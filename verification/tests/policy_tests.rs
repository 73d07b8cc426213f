use asset_cache::compression::{compress_if_needed, should_compress};

fn decompress(data: &[u8]) -> Vec<u8> {
    let mut out = Vec::new();
    let mut reader = brotli::Decompressor::new(data, 4096);
    std::io::Read::read_to_end(&mut reader, &mut out).unwrap();
    out
}

#[test]
fn allow_list_is_compressed() {
    assert!(should_compress("text/html"));
    assert!(should_compress("text/css"));
    assert!(should_compress("application/javascript"));
    assert!(should_compress("application/json"));
    assert!(should_compress("image/svg+xml"));
}

#[test]
fn other_types_are_not_compressed() {
    assert!(!should_compress("image/png"));
    assert!(!should_compress("application/octet-stream"));
    assert!(!should_compress("text/plain"));
    assert!(!should_compress("font/woff2"));
    assert!(!should_compress(""));
    assert!(!should_compress("text/htm"));
    assert!(!should_compress("text/html2"));
}

#[test]
fn plain_payload_is_unchanged() {
    let data: Vec<u8> = vec![0, 159, 146, 150, 7, 255];
    let result = compress_if_needed(&data, "image/png");
    assert!(!result.is_compressed);
    assert_eq!(result.data, data);
}

#[test]
fn compressed_payload_round_trips() {
    let data: Vec<u8> = "<html>hello hello hello hello hello</html>"
        .as_bytes()
        .to_vec();
    let result = compress_if_needed(&data, "text/html");
    assert!(result.is_compressed);
    assert_ne!(result.data, data);
    assert_eq!(decompress(&result.data), data);
}

#[test]
fn repetitive_text_shrinks() {
    let data: Vec<u8> = std::iter::repeat(b"abcdefgh".to_vec())
        .take(1280)
        .flatten()
        .collect();
    assert_eq!(data.len(), 10240);
    let result = compress_if_needed(&data, "text/html");
    assert!(result.is_compressed);
    assert!(result.data.len() < data.len());
    assert_eq!(decompress(&result.data), data);
}
