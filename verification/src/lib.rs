//! An immutable static-asset cache.
//!
//! At startup the loader classifies each asset by MIME type, precompresses
//! the text-like ones with brotli, and freezes everything into a two-table
//! lookup structure. At request time `Cache::get` resolves a path with
//! single-page-application fallback semantics, without I/O or mutation.

pub mod cache;
pub mod cache_init;
pub mod compression;
pub mod startup_log;
