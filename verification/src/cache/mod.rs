//! A cache of processed files, kept on disk under a name made from the
//! file's path and valid as long as the file's contents have the same digest.

pub mod cache;
pub mod cached_file;
pub mod cached_noop;

use vstd::prelude::*;
use crate::cache::cache::Cache;
use crate::cache::cached_file::{CacheEntry, CachedFile};
use crate::cache::cached_noop::NoopCache;
use crate::parser::{ProcessedFile, ProcessedFileModel};
use crate::paths::{join, join_path};
use crate::text::{chars_of, string_of_range};

verus! {

/// What is known of a file that the cache holds no valid entry for: the
/// digests of its path and of its contents, and where its entry belongs.
#[derive(Debug, Default, PartialEq, Eq, Clone)]
pub struct EmptyCacheEntry {
    pub filepath: String,
    pub file_contents_digest: String,
    pub file_name_digest: String,
    pub cache_file_path: String,
}

/// The mathematical value of an [`EmptyCacheEntry`].
pub struct EmptyCacheEntryModel {
    pub filepath: Seq<char>,
    pub file_contents_digest: Seq<char>,
    pub file_name_digest: Seq<char>,
    pub cache_file_path: Seq<char>,
}

impl DeepView for EmptyCacheEntry {
    type V = EmptyCacheEntryModel;

    open spec fn deep_view(&self) -> EmptyCacheEntryModel {
        EmptyCacheEntryModel {
            filepath: self.filepath@,
            file_contents_digest: self.file_contents_digest@,
            file_name_digest: self.file_name_digest@,
            cache_file_path: self.cache_file_path@,
        }
    }
}

/// What a cache answers for a file.
#[derive(Debug, PartialEq, Eq)]
pub enum CacheResult {
    /// The file as it was processed before; its contents have not changed since.
    Processed(ProcessedFile),
    /// Nothing valid is held for the file.
    Miss(EmptyCacheEntry),
}

/// The mathematical value of a [`CacheResult`].
pub enum CacheResultModel {
    Processed(ProcessedFileModel),
    Miss(EmptyCacheEntryModel),
}

impl DeepView for CacheResult {
    type V = CacheResultModel;

    open spec fn deep_view(&self) -> CacheResultModel {
        match self {
            CacheResult::Processed(file) => CacheResultModel::Processed(file.deep_view()),
            CacheResult::Miss(entry) => CacheResultModel::Miss(entry.deep_view()),
        }
    }
}

/// The MD5 digest of `data`: 16 bytes.
pub uninterp spec fn md5_digest(data: Seq<u8>) -> Seq<u8>;

/// `md5::compute` of the crate md5: the 16 bytes of the MD5 digest of `data`,
/// which depend on `data` alone.
#[verifier::external_body]
fn md5_of(data: &[u8]) -> (r: [u8; 16])
    ensures
        r@ == md5_digest(data@),
{
    md5::compute(data).0
}

/// The hexadecimal digit for a number below 16, in lower case.
pub open spec fn hex_digit(n: int) -> char {
    if n < 10 {
        ((48 + n) as u8) as char
    } else {
        ((87 + n) as u8) as char
    }
}

/// The bytes in hexadecimal, two digits in lower case for each byte.
pub open spec fn hex_of(bytes: Seq<u8>) -> Seq<char> {
    Seq::new(
        2 * bytes.len(),
        |i: int|
            if i % 2 == 0 {
                hex_digit(bytes[i / 2] as int / 16)
            } else {
                hex_digit(bytes[i / 2] as int % 16)
            },
    )
}

/// The digest of `data` as it is written: 32 hexadecimal digits.
pub open spec fn digest_text(data: Seq<u8>) -> Seq<char> {
    hex_of(md5_digest(data))
}

/// Where the entry with the name `file_name_digest` is kept under
/// `cache_directory`: in the directory named by the first two characters of
/// the name, in a file named by the rest.
pub open spec fn cache_path_of(cache_directory: Seq<char>, file_name_digest: Seq<char>) -> Seq<
    char,
> {
    join_path(join_path(cache_directory, file_name_digest.take(2)), file_name_digest.skip(2))
}

/// What is known of the file at `filepath` with the contents `contents`, for
/// a cache kept under `cache_directory`.
pub open spec fn empty_entry_for(
    cache_directory: Seq<char>,
    filepath: Seq<char>,
    contents: Seq<u8>,
) -> EmptyCacheEntryModel {
    let file_name_digest = digest_text(vstd::utf8::encode_utf8(filepath));
    EmptyCacheEntryModel {
        filepath,
        file_contents_digest: digest_text(contents),
        file_name_digest,
        cache_file_path: cache_path_of(cache_directory, file_name_digest),
    }
}

/// The hexadecimal digit for a number below 16.
fn to_hex_digit(n: u8) -> (r: char)
    requires
        n < 16,
    ensures
        r == hex_digit(n as int),
{
    if n < 10 {
        (48 + n) as char
    } else {
        (87 + n) as char
    }
}

/// The bytes in hexadecimal.
pub fn to_hex(bytes: &[u8]) -> (r: String)
    ensures
        r@ == hex_of(bytes@),
{
    let mut out = String::new();
    let mut i: usize = 0;
    while i < bytes.len()
        invariant
            i <= bytes.len(),
            out@ == hex_of(bytes@).take(2 * i),
        decreases bytes.len() - i,
    {
        let b = bytes[i];
        let ghost before = out@;
        out.push(to_hex_digit(b / 16));
        out.push(to_hex_digit(b % 16));
        assert(out@ =~= hex_of(bytes@).take(2 * (i + 1))) by {
            let all = hex_of(bytes@);
            assert(all[2 * i] == hex_digit(b as int / 16));
            assert(all[2 * i + 1] == hex_digit(b as int % 16));
        }
        i += 1;
    }
    assert(hex_of(bytes@).take(2 * bytes.len()) =~= hex_of(bytes@));
    out
}

/// The digest of `contents` as it is written.
pub fn file_content_digest(contents: &[u8]) -> (r: String)
    ensures
        r@ == digest_text(contents@),
        r@.len() == 32,
{
    let digest = md5_of(contents);
    to_hex(digest.as_slice())
}

/// Where the entry with the name `file_name_digest` is kept under `cache_directory`.
pub fn cache_file_path_from_digest(cache_directory: &str, file_name_digest: &str) -> (r: String)
    requires
        file_name_digest@.len() >= 2,
    ensures
        r@ == cache_path_of(cache_directory@, file_name_digest@),
{
    let digest = chars_of(file_name_digest);
    let shard = string_of_range(&digest, 0, 2);
    let rest = string_of_range(&digest, 2, digest.len());
    assert(digest@.subrange(0, 2) =~= file_name_digest@.take(2));
    assert(digest@.subrange(2, digest.len() as int) =~= file_name_digest@.skip(2));
    let cached_directory_for_digest = join(cache_directory, shard.as_str());
    join(cached_directory_for_digest.as_str(), rest.as_str())
}

/// One of the two caches: the one that keeps its entries in files, or the
/// one that keeps nothing.
pub enum AnyCache {
    Persistent(CachedFile),
    NoOp(NoopCache),
}

impl Cache for AnyCache {
    open spec fn directory(&self) -> Option<Seq<char>> {
        match self {
            AnyCache::Persistent(cache) => cache.directory(),
            AnyCache::NoOp(cache) => cache.directory(),
        }
    }

    fn cache_file_path(&self, path: &str) -> (r: Option<String>) {
        match self {
            AnyCache::Persistent(cache) => cache.cache_file_path(path),
            AnyCache::NoOp(cache) => cache.cache_file_path(path),
        }
    }

    fn get(&self, path: &str, contents: &[u8], stored: Option<CacheEntry>) -> (r: CacheResult) {
        match self {
            AnyCache::Persistent(cache) => cache.get(path, contents, stored),
            AnyCache::NoOp(cache) => cache.get(path, contents, stored),
        }
    }

    fn write(&self, empty_cache_entry: &EmptyCacheEntry, processed_file: &ProcessedFile) -> (r:
        Option<CacheEntry>) {
        match self {
            AnyCache::Persistent(cache) => cache.write(empty_cache_entry, processed_file),
            AnyCache::NoOp(cache) => cache.write(empty_cache_entry, processed_file),
        }
    }
}

/// The cache that keeps its entries under `cache_dir`, or the one that keeps
/// nothing where caching is not `enabled`.
pub fn get_cache(enabled: bool, cache_dir: String) -> (r: AnyCache)
    ensures
        enabled ==> r is Persistent,
        !enabled ==> r is NoOp,
        r.directory() == if enabled {
            Some(cache_dir@)
        } else {
            None
        },
{
    if enabled {
        AnyCache::Persistent(CachedFile { cache_dir })
    } else {
        AnyCache::NoOp(NoopCache {  })
    }
}

impl EmptyCacheEntry {
    /// What is known of the file at `filepath` with the contents `contents`,
    /// for a cache kept under `cache_directory`.
    pub fn new(cache_directory: &str, filepath: &str, contents: &[u8]) -> (r: EmptyCacheEntry)
        ensures
            r.deep_view() == empty_entry_for(cache_directory@, filepath@, contents@),
    {
        let file_name_digest = file_content_digest(filepath.as_bytes());
        let cache_file_path = cache_file_path_from_digest(
            cache_directory,
            file_name_digest.as_str(),
        );
        let file_contents_digest = file_content_digest(contents);
        EmptyCacheEntry {
            filepath: filepath.to_owned(),
            file_contents_digest,
            cache_file_path,
            file_name_digest,
        }
    }
}

} // verus!
