use ruby_references::cache::cache::Cache;
use ruby_references::cache::cached_file::{CacheEntry, CachedFile};
use ruby_references::cache::cached_noop::NoopCache;
use ruby_references::cache::{
    cache_file_path_from_digest, file_content_digest, get_cache, to_hex, CacheResult,
    EmptyCacheEntry,
};
use ruby_references::parser::{ProcessedFile, Range, UnresolvedReference};

fn processed_file() -> ProcessedFile {
    ProcessedFile {
        absolute_path: "/tests/fixtures/simple_app/packs/foo/app/services/bar/foo.rb".to_owned(),
        unresolved_references: vec![UnresolvedReference {
            name: "Bar".to_owned(),
            namespace_path: vec!["Foo".to_owned(), "Bar".to_owned()],
            location: Range {
                start_row: 8,
                start_col: 22,
                end_row: 8,
                end_col: 25,
            },
        }],
    }
}

#[test]
fn digests_are_md5_in_lower_case_hexadecimal() {
    assert_eq!(file_content_digest(b""), "d41d8cd98f00b204e9800998ecf8427e");
    assert_eq!(
        file_content_digest(b"abcdefghijklmnopqrstuvwxyz"),
        "c3fcd3d76192e4007dfb496cca67e13b"
    );
    assert_eq!(
        file_content_digest(b"The quick brown fox jumps over the lazy dog"),
        "9e107d9d372bb6826bd81d3542a419d6"
    );
}

#[test]
fn bytes_are_written_with_two_digits_each() {
    assert_eq!(to_hex(&[]), "");
    assert_eq!(to_hex(&[0x00, 0x09, 0x0a, 0x0f, 0x10, 0x9f, 0xa0, 0xff]), "00090a0f109fa0ff");
}

#[test]
fn entries_are_sharded_by_the_first_two_digits() {
    assert_eq!(
        cache_file_path_from_digest("tmp/cache", "e57a05216069923190a4e03d264d9677"),
        "tmp/cache/e5/7a05216069923190a4e03d264d9677"
    );
    assert_eq!(
        cache_file_path_from_digest("tmp/cache/", "e57a05216069923190a4e03d264d9677"),
        "tmp/cache/e5/7a05216069923190a4e03d264d9677"
    );
    assert_eq!(cache_file_path_from_digest("", "abcd"), "ab/cd");
}

#[test]
fn an_empty_entry_holds_the_key_of_a_file() {
    let entry = EmptyCacheEntry::new("tmp/cache", "/app/models/user.rb", b"class User; end\n");
    assert_eq!(entry.filepath, "/app/models/user.rb");
    assert_eq!(entry.file_name_digest, file_content_digest(b"/app/models/user.rb"));
    assert_eq!(entry.file_contents_digest, file_content_digest(b"class User; end\n"));
    assert_eq!(
        entry.cache_file_path,
        format!(
            "tmp/cache/{}/{}",
            &entry.file_name_digest[..2],
            &entry.file_name_digest[2..]
        )
    );
    assert_eq!(entry.file_name_digest.len(), 32);
}

#[test]
fn what_is_written_is_found_again() {
    let cache = CachedFile {
        cache_dir: "tmp/cache".to_string(),
    };
    let path = "/app/models/user.rb";
    let contents = b"class User; end\n";
    let empty = match cache.get(path, contents, None) {
        CacheResult::Miss(empty) => empty,
        CacheResult::Processed(_) => panic!("nothing is stored yet"),
    };
    assert_eq!(Some(empty.cache_file_path.clone()), cache.cache_file_path(path));
    let written = cache.write(&empty, &processed_file()).unwrap();
    assert_eq!(
        written,
        CacheEntry {
            file_contents_digest: file_content_digest(contents),
            processed_file: processed_file()
        }
    );
    assert_eq!(
        cache.get(path, contents, Some(written)),
        CacheResult::Processed(processed_file())
    );
}

#[test]
fn changed_contents_miss() {
    let cache = CachedFile {
        cache_dir: "tmp/cache".to_string(),
    };
    let path = "/app/models/user.rb";
    let empty = EmptyCacheEntry::new("tmp/cache", path, b"class User; end\n");
    let written = cache.write(&empty, &processed_file()).unwrap();
    let changed = b"class User; def x; end; end\n";
    assert_eq!(
        cache.get(path, changed, Some(written)),
        CacheResult::Miss(EmptyCacheEntry::new("tmp/cache", path, changed))
    );
}

#[test]
fn an_unreadable_entry_misses() {
    let cache = CachedFile {
        cache_dir: "tmp/cache".to_string(),
    };
    let path = "/app/models/user.rb";
    assert_eq!(
        cache.get(path, b"x", None),
        CacheResult::Miss(EmptyCacheEntry::new("tmp/cache", path, b"x"))
    );
}

#[test]
fn the_noop_cache_keeps_nothing() {
    let cache = NoopCache {};
    let entry = CacheEntry {
        file_contents_digest: file_content_digest(b"x"),
        processed_file: processed_file(),
    };
    assert_eq!(
        cache.get("/a.rb", b"x", Some(entry)),
        CacheResult::Miss(EmptyCacheEntry::default())
    );
    assert_eq!(cache.write(&EmptyCacheEntry::default(), &processed_file()), None);
    assert_eq!(cache.cache_file_path("/a.rb"), None);
}

#[test]
fn get_cache_chooses_by_the_flag() {
    let enabled = get_cache(true, "tmp/cache".to_string());
    assert!(enabled.cache_file_path("/a.rb").is_some());
    assert!(enabled.write(&EmptyCacheEntry::default(), &processed_file()).is_some());
    let disabled = get_cache(false, "tmp/cache".to_string());
    assert!(disabled.cache_file_path("/a.rb").is_none());
    assert!(disabled.write(&EmptyCacheEntry::default(), &processed_file()).is_none());
}
