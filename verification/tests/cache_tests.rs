use asset_cache::cache::Cache;
use asset_cache::cache_init::{file_name, generate_key, process_file, LoadedFile};
use asset_cache::startup_log::print_load_stats;

fn decompress(data: &[u8]) -> Vec<u8> {
    let mut out = Vec::new();
    let mut reader = brotli::Decompressor::new(data, 4096);
    std::io::Read::read_to_end(&mut reader, &mut out).unwrap();
    out
}

fn repetitive_html(len: usize) -> Vec<u8> {
    let mut data = Vec::with_capacity(len);
    while data.len() < len {
        data.extend_from_slice(b"<p>lorem</p>");
    }
    data.truncate(len);
    data
}

fn binary_noise(len: usize) -> Vec<u8> {
    (0..len).map(|i| ((i * 37 + 11) % 256) as u8).collect()
}

fn loaded(path: &str, data: Vec<u8>) -> LoadedFile {
    LoadedFile { path: path.to_string(), data }
}

#[test]
fn keys_use_forward_slashes() {
    let key = generate_key("dist\\sub\\a.html", 4);
    assert_eq!(key, "/sub/a.html");
    assert!(!key.contains('\\'));
    let key = generate_key("dist/sub/a.html", 4);
    assert_eq!(key, "/sub/a.html");
    assert!(!key.contains('\\'));
}

#[test]
fn file_name_takes_last_component() {
    assert_eq!(file_name("dist/sub/a.html"), "a.html");
    assert_eq!(file_name("dist\\sub\\b.png"), "b.png");
    assert_eq!(file_name("a.html"), "a.html");
    assert_eq!(file_name(""), "");
}

#[test]
fn plain_payload_is_byte_identical() {
    let data = binary_noise(5120);
    let built = Cache::new(vec![loaded("dist/b.png", data.clone())], 4);
    let (info, is_compressed) = built.0.get("/b.png").unwrap();
    assert!(!is_compressed);
    assert_eq!(info.data, data);
    assert_eq!(info.content_type, "image/png");
}

#[test]
fn compressed_payload_decompresses_to_source() {
    let data = repetitive_html(10240);
    let built = Cache::new(vec![loaded("dist/a.html", data.clone())], 4);
    let (info, is_compressed) = built.0.get("/a.html").unwrap();
    assert!(is_compressed);
    assert_ne!(info.data, data);
    assert_eq!(decompress(&info.data), data);
    assert_eq!(info.content_type, "text/html");
}

#[test]
fn html_is_compressed_and_png_is_not() {
    let html = repetitive_html(10240);
    let png = binary_noise(5120);
    let built = Cache::new(
        vec![
            loaded("dist/a.html", html.clone()),
            loaded("dist/b.png", png.clone()),
        ],
        4,
    );
    let (a, a_compressed) = built.0.get("/a.html").unwrap();
    assert!(a_compressed);
    assert!(a.data.len() < 10240);
    let (b, b_compressed) = built.0.get("/b.png").unwrap();
    assert!(!b_compressed);
    assert_eq!(b.data.len(), 5120);
    assert_eq!(b.data, png);
}

#[test]
fn missing_path_falls_back_to_index() {
    let index = repetitive_html(2048);
    let built = Cache::new(
        vec![
            loaded("dist/index.html", index.clone()),
            loaded("dist/b.png", binary_noise(64)),
        ],
        4,
    );
    let (via_fallback, fallback_compressed) = built.0.get("/no/such/route").unwrap();
    assert!(fallback_compressed);
    let (via_index, index_compressed) = built.0.get("/index.html").unwrap();
    assert!(index_compressed);
    assert_eq!(via_fallback.data, via_index.data);
    assert_eq!(via_fallback.content_type, via_index.content_type);
    assert_eq!(decompress(&via_fallback.data), index);
}

#[test]
fn missing_path_without_index_is_not_found() {
    let built = Cache::new(vec![loaded("dist/b.png", binary_noise(64))], 4);
    assert!(built.0.get("/no/such/route").is_none());
    assert!(built.0.get("/index.html").is_none());
}

#[test]
fn empty_root_finds_nothing() {
    let built = Cache::new(Vec::new(), 4);
    assert!(built.0.get("/index.html").is_none());
    assert!(built.0.get("/a.html").is_none());
    assert!(built.0.get("").is_none());
    assert!(built.1.is_empty());
}

#[test]
fn later_file_overwrites_same_key() {
    let first = binary_noise(16);
    let second = binary_noise(32);
    let built = Cache::new(
        vec![
            loaded("dist/b.png", first),
            loaded("dist/b.png", second.clone()),
        ],
        4,
    );
    let (info, is_compressed) = built.0.get("/b.png").unwrap();
    assert!(!is_compressed);
    assert_eq!(info.data, second);
}

#[test]
fn exact_match_only_no_prefix_lookup() {
    let built = Cache::new(vec![loaded("dist/b.png", binary_noise(64))], 4);
    assert!(built.0.get("/b").is_none());
    assert!(built.0.get("/b.png/").is_none());
    assert!(built.0.get("b.png").is_none());
    assert!(built.0.get("/B.PNG").is_none());
}

#[test]
fn process_file_reports_sizes() {
    let html = repetitive_html(10240);
    let file = loaded("dist/sub/a.html", html.clone());
    let (key, info, stat) = process_file(&file, 4);
    assert_eq!(key, "/sub/a.html");
    assert_eq!(info.content_type, "text/html");
    assert_eq!(stat.name, "a.html");
    assert_eq!(stat.original_size, 10240);
    assert_eq!(stat.final_size, info.data.len());
    assert!(stat.is_compressed);
    assert!(stat.final_size < stat.original_size);
}

#[test]
fn load_report_totals() {
    let html = repetitive_html(10240);
    let png = binary_noise(5120);
    let built = Cache::new(
        vec![loaded("dist/a.html", html), loaded("dist/b.png", png)],
        4,
    );
    let stats = built.1;
    assert_eq!(stats.len(), 2);
    assert_eq!(stats[0].name, "a.html");
    assert_eq!(stats[1].name, "b.png");
    assert_eq!(stats[0].original_size, 10240);
    assert_eq!(stats[1].original_size, 5120);
    assert_eq!(stats[1].final_size, 5120);
    let report = print_load_stats(&stats);
    assert_eq!(report.total_files, 2);
    assert_eq!(report.num_compressed, 1);
    assert_eq!(report.total_original_size, 15360);
    assert_eq!(report.total_final_size, stats[0].final_size + 5120);
}

#[test]
fn unknown_extension_stays_plain() {
    let data = binary_noise(128);
    let built = Cache::new(vec![loaded("dist/data.bin", data.clone())], 4);
    let (info, is_compressed) = built.0.get("/data.bin").unwrap();
    assert!(!is_compressed);
    assert_eq!(info.data, data);
    assert_eq!(info.content_type, "application/octet-stream");
}
