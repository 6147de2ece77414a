//! What every cache of processed files offers.

use vstd::prelude::*;
use crate::cache::cached_file::{CacheEntry, CacheEntryModel};
use crate::cache::{CacheResult, CacheResultModel, EmptyCacheEntry, EmptyCacheEntryModel};
use crate::parser::{ProcessedFile, ProcessedFileModel};

verus! {

/// What a cache kept under `directory` answers for the file at `path` with
/// the contents `contents`, where `stored` is the entry read back for it, if
/// one could be read: the stored file where the entry was written for
/// contents of the same digest; else a miss. A cache without a directory misses always.
pub open spec fn cache_answer(
    directory: Option<Seq<char>>,
    path: Seq<char>,
    contents: Seq<u8>,
    stored: Option<CacheEntryModel>,
) -> CacheResultModel {
    match directory {
        None => CacheResultModel::Miss(
            EmptyCacheEntryModel {
                filepath: Seq::empty(),
                file_contents_digest: Seq::empty(),
                file_name_digest: Seq::empty(),
                cache_file_path: Seq::empty(),
            },
        ),
        Some(cache_dir) => {
            let empty = crate::cache::empty_entry_for(cache_dir, path, contents);
            match stored {
                Some(entry) => if entry.file_contents_digest == empty.file_contents_digest {
                    CacheResultModel::Processed(entry.processed_file)
                } else {
                    CacheResultModel::Miss(empty)
                },
                None => CacheResultModel::Miss(empty),
            }
        },
    }
}

/// The entry that a cache writes for a processed file after a miss: the file
/// with the digest of the contents that it was processed from. A cache without
/// a directory writes nothing.
pub open spec fn entry_to_write(
    directory: Option<Seq<char>>,
    empty_cache_entry: EmptyCacheEntryModel,
    processed_file: ProcessedFileModel,
) -> Option<CacheEntryModel> {
    match directory {
        None => None,
        Some(_) => Some(
            CacheEntryModel {
                file_contents_digest: empty_cache_entry.file_contents_digest,
                processed_file,
            },
        ),
    }
}

/// A cache of processed files. Reading and writing the entries is left to
/// the caller: the cache says where an entry is kept, what a stored entry is
/// worth, and what is to be stored.
pub trait Cache: Send + Sync {
    /// The directory that the entries are kept under, if any are kept.
    spec fn directory(&self) -> Option<Seq<char>>;

    /// Where the entry of the file at `path` is kept, if any is.
    fn cache_file_path(&self, path: &str) -> (r: Option<String>)
        ensures
            r.deep_view() == match self.directory() {
                Some(cache_dir) => Some(
                    crate::cache::cache_path_of(
                        cache_dir,
                        crate::cache::digest_text(vstd::utf8::encode_utf8(path@)),
                    ),
                ),
                None => None,
            },
    ;

    /// The answer for the file at `path` with the contents `contents`, where
    /// `stored` is the entry read back from its place, or `None` where none
    /// could be read there.
    fn get(&self, path: &str, contents: &[u8], stored: Option<CacheEntry>) -> (r: CacheResult)
        ensures
            r.deep_view() == cache_answer(self.directory(), path@, contents@, stored.deep_view()),
    ;

    /// The entry to be stored at `empty_cache_entry.cache_file_path`, if any.
    fn write(&self, empty_cache_entry: &EmptyCacheEntry, processed_file: &ProcessedFile) -> (r:
        Option<CacheEntry>)
        ensures
            r.deep_view() == entry_to_write(
                self.directory(),
                empty_cache_entry.deep_view(),
                processed_file.deep_view(),
            ),
    ;
}

/// Different numbers below 16 have different hexadecimal digits.
proof fn lemma_hex_digit_injective(a: int, b: int)
    requires
        0 <= a < 16,
        0 <= b < 16,
        crate::cache::hex_digit(a) == crate::cache::hex_digit(b),
    ensures
        a == b,
{
    let x = crate::cache::hex_digit(a);
    let y = crate::cache::hex_digit(b);
    assert(x as u8 == y as u8);
}

/// Different bytes are written differently in hexadecimal.
pub proof fn lemma_hex_injective(a: Seq<u8>, b: Seq<u8>)
    requires
        crate::cache::hex_of(a) == crate::cache::hex_of(b),
    ensures
        a == b,
{
    let x = crate::cache::hex_of(a);
    let y = crate::cache::hex_of(b);
    assert(x.len() == 2 * a.len());
    assert(y.len() == 2 * b.len());
    assert(a.len() == b.len());
    assert forall|i: int| 0 <= i < a.len() implies a[i] == b[i] by {
        assert(x[2 * i] == y[2 * i]);
        assert(x[2 * i + 1] == y[2 * i + 1]);
        assert((2 * i) / 2 == i && (2 * i) % 2 == 0);
        assert((2 * i + 1) / 2 == i && (2 * i + 1) % 2 == 1);
        lemma_hex_digit_injective(a[i] as int / 16, b[i] as int / 16);
        lemma_hex_digit_injective(a[i] as int % 16, b[i] as int % 16);
    }
    assert(a =~= b);
}

/// What is written after a miss is found again: as long as the contents are
/// those that the file was processed from, the cache answers with the
/// processed file as it was written.
pub proof fn lemma_cache_round_trip(
    cache_dir: Seq<char>,
    path: Seq<char>,
    contents: Seq<u8>,
    processed_file: ProcessedFileModel,
)
    ensures
        ({
            let missed = cache_answer(Some(cache_dir), path, contents, None);
            let written = entry_to_write(Some(cache_dir), missed->Miss_0, processed_file);
            &&& missed is Miss
            &&& written is Some
            &&& cache_answer(Some(cache_dir), path, contents, written)
                == CacheResultModel::Processed(processed_file)
        }),
{
}

/// An entry is not valid for other contents: where the contents of the file
/// have changed to contents of another digest, the cache misses.
pub proof fn lemma_changed_contents_miss(
    cache_dir: Seq<char>,
    path: Seq<char>,
    contents: Seq<u8>,
    changed: Seq<u8>,
    processed_file: ProcessedFileModel,
)
    requires
        crate::cache::md5_digest(contents) != crate::cache::md5_digest(changed),
    ensures
        ({
            let missed = cache_answer(Some(cache_dir), path, contents, None);
            let written = entry_to_write(Some(cache_dir), missed->Miss_0, processed_file);
            cache_answer(Some(cache_dir), path, changed, written) is Miss
        }),
{
    if crate::cache::digest_text(contents) == crate::cache::digest_text(changed) {
        lemma_hex_injective(crate::cache::md5_digest(contents), crate::cache::md5_digest(changed));
    }
}

/// Where no entry could be read for a file, whatever stands in its place, the cache misses.
pub proof fn lemma_unreadable_entry_misses(
    directory: Option<Seq<char>>,
    path: Seq<char>,
    contents: Seq<u8>,
)
    ensures
        cache_answer(directory, path, contents, None) is Miss,
{
}

} // verus!
