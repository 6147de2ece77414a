use ruby_references::cache::cache::Cache;
use ruby_references::cache::AnyCache;
use ruby_references::configuration::Configuration;

#[test]
fn default_configuration() {
    let configuration = Configuration::default();
    assert_eq!(configuration.absolute_root, String::from(""));
    assert_eq!(configuration.acronyms, Vec::<String>::new());
    assert_eq!(configuration.autoload_paths, Vec::<(String, String)>::new());
    assert_eq!(configuration.custom_associations, Vec::<String>::new());
    assert_eq!(
        configuration.ruby_special_files,
        vec!["Gemfile", "Rakefile"]
    );
    assert_eq!(
        configuration.ruby_extensions,
        vec!["rb", "rake", "builder", "gemspec", "ru"]
    );
}

#[test]
fn default_configuration_has_no_cache_and_no_files() {
    let configuration = Configuration::default();
    assert!(configuration.included_files.is_empty());
    assert!(!configuration.include_reference_is_definition);
    assert!(!configuration.cache_enabled);
    assert_eq!(configuration.cache_directory, "tmp/cache");
    assert!(configuration.extra_reference_fields_fn.is_none());
    assert!(matches!(configuration.get_cache(), AnyCache::NoOp(_)));
    assert_eq!(configuration.get_cache().cache_file_path("/a.rb"), None);
}

#[test]
fn an_enabled_cache_lives_below_the_cache_directory() {
    let configuration = Configuration {
        cache_enabled: true,
        ..Default::default()
    };
    match configuration.get_cache() {
        AnyCache::Persistent(cache) => assert_eq!(cache.cache_dir, "tmp/cache/ruby-references"),
        AnyCache::NoOp(_) => panic!("the cache is enabled"),
    }
}

#[test]
fn lists_that_stand_for_sets_hold_each_entry_once() {
    assert!(Configuration::default().has_unique_entries());
    let distinct = Configuration {
        included_files: vec!["/a.rb".to_string(), "/b.rb".to_string()],
        acronyms: vec!["API".to_string(), "CSV".to_string()],
        autoload_paths: vec![
            ("/app/models".to_string(), String::new()),
            ("/app/models/concerns".to_string(), String::new()),
        ],
        ..Default::default()
    };
    assert!(distinct.has_unique_entries());
    let file_twice = Configuration {
        included_files: vec!["/a.rb".to_string(), "/b.rb".to_string(), "/a.rb".to_string()],
        ..Default::default()
    };
    assert!(!file_twice.has_unique_entries());
    let acronym_twice = Configuration {
        acronyms: vec!["API".to_string(), "API".to_string()],
        ..Default::default()
    };
    assert!(!acronym_twice.has_unique_entries());
    let root_twice = Configuration {
        autoload_paths: vec![
            ("/app/models".to_string(), String::new()),
            ("/app/models".to_string(), "::Other".to_string()),
        ],
        ..Default::default()
    };
    assert!(!root_twice.has_unique_entries());
}
