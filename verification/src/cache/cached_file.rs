//! The cache that keeps its entries in files.

use vstd::prelude::*;
use crate::cache::cache::Cache;
use crate::cache::{
    cache_file_path_from_digest,
    file_content_digest,
    CacheResult,
    EmptyCacheEntry,
};
use crate::parser::{ProcessedFile, ProcessedFileModel, UnresolvedReference};
use crate::text::clone_strings;

verus! {

/// A cache that keeps its entries under `cache_dir`.
pub struct CachedFile {
    pub cache_dir: String,
}

/// What is stored for a file: how it was processed, and the digest of the
/// contents that it was processed from.
#[derive(Debug, PartialEq, Eq, Clone)]
pub struct CacheEntry {
    pub file_contents_digest: String,
    pub processed_file: ProcessedFile,
}

/// The mathematical value of a [`CacheEntry`].
pub struct CacheEntryModel {
    pub file_contents_digest: Seq<char>,
    pub processed_file: ProcessedFileModel,
}

impl DeepView for CacheEntry {
    type V = CacheEntryModel;

    open spec fn deep_view(&self) -> CacheEntryModel {
        CacheEntryModel {
            file_contents_digest: self.file_contents_digest@,
            processed_file: self.processed_file.deep_view(),
        }
    }
}

/// A copy of a processed file.
pub fn clone_processed_file(file: &ProcessedFile) -> (r: ProcessedFile)
    ensures
        r.deep_view() == file.deep_view(),
{
    let mut unresolved_references: Vec<UnresolvedReference> = Vec::new();
    let ghost all = file.unresolved_references.deep_view();
    let mut i: usize = 0;
    while i < file.unresolved_references.len()
        invariant
            i <= file.unresolved_references.len(),
            all == file.unresolved_references.deep_view(),
            unresolved_references.deep_view() == all.take(i as int),
        decreases file.unresolved_references.len() - i,
    {
        let reference = &file.unresolved_references[i];
        let ghost before = unresolved_references.deep_view();
        let copy = UnresolvedReference {
            name: reference.name.clone(),
            namespace_path: clone_strings(&reference.namespace_path),
            location: reference.location,
        };
        unresolved_references.push(copy);
        assert(unresolved_references.deep_view() =~= before.push(reference.deep_view()));
        i += 1;
        assert(unresolved_references.deep_view() =~= all.take(i as int));
    }
    assert(all.take(file.unresolved_references.len() as int) =~= all);
    ProcessedFile { absolute_path: file.absolute_path.clone(), unresolved_references }
}

impl Cache for CachedFile {
    open spec fn directory(&self) -> Option<Seq<char>> {
        Some(self.cache_dir@)
    }

    fn cache_file_path(&self, path: &str) -> (r: Option<String>) {
        let file_name_digest = file_content_digest(path.as_bytes());
        Some(cache_file_path_from_digest(self.cache_dir.as_str(), file_name_digest.as_str()))
    }

    fn get(&self, path: &str, contents: &[u8], stored: Option<CacheEntry>) -> (r: CacheResult) {
        let empty_cache_entry = EmptyCacheEntry::new(self.cache_dir.as_str(), path, contents);
        match stored {
            Some(cache_entry) => {
                let file_digests_match = cache_entry.file_contents_digest
                    == empty_cache_entry.file_contents_digest;
                if !file_digests_match {
                    CacheResult::Miss(empty_cache_entry)
                } else {
                    CacheResult::Processed(cache_entry.processed_file)
                }
            },
            None => CacheResult::Miss(empty_cache_entry),
        }
    }

    fn write(&self, empty_cache_entry: &EmptyCacheEntry, processed_file: &ProcessedFile) -> (r:
        Option<CacheEntry>) {
        Some(
            CacheEntry {
                file_contents_digest: empty_cache_entry.file_contents_digest.clone(),
                processed_file: clone_processed_file(processed_file),
            },
        )
    }
}

} // verus!
