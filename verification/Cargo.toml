[package]
name = "asset_cache"
version = "0.1.0"
edition = "2021"
publish = false

[dependencies]
ahash = "=0.8.12"
brotli = "=9.0.0"
mime_guess = "=2.0.5"
mimalloc = "=0.1.52"
ntex = { version = "=3.12.3", features = ["tokio"] }
tokio = { version = "=1.53.2", features = ["fs", "rt"] }
tracing = "=0.1.44"
tracing-subscriber = "=0.3.23"
