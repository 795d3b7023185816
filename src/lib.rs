//! In-memory file cache and range-aware response building for a static file server.

pub mod file_stream;
pub mod http_range;
pub mod mem_cache;
