//! The cache that keeps nothing.

use vstd::prelude::*;
use crate::cache::cache::Cache;
use crate::cache::cached_file::CacheEntry;
use crate::cache::{CacheResult, EmptyCacheEntry};
use crate::parser::ProcessedFile;

verus! {

/// A cache that misses always and stores nothing.
pub struct NoopCache {}

impl Cache for NoopCache {
    open spec fn directory(&self) -> Option<Seq<char>> {
        None
    }

    fn cache_file_path(&self, _path: &str) -> (r: Option<String>) {
        None
    }

    fn get(&self, _path: &str, _contents: &[u8], _stored: Option<CacheEntry>) -> (r: CacheResult) {
        CacheResult::Miss(
            EmptyCacheEntry {
                filepath: String::new(),
                file_contents_digest: String::new(),
                file_name_digest: String::new(),
                cache_file_path: String::new(),
            },
        )
    }

    fn write(&self, _empty_cache_entry: &EmptyCacheEntry, _processed_file: &ProcessedFile) -> (r:
        Option<CacheEntry>) {
        None
    }
}

} // verus!
