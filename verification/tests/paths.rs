use ruby_references::paths::{extension_of, join, path_ends_with, strip_extension, strip_path_prefix};

#[test]
fn a_path_below_a_directory_loses_the_directory() {
    assert_eq!(strip_path_prefix("/app/models/user.rb", "/app"), Some("models/user.rb".to_string()));
    assert_eq!(strip_path_prefix("/app/models/user.rb", "/app/"), Some("models/user.rb".to_string()));
    assert_eq!(strip_path_prefix("/app", "/app"), Some(String::new()));
    assert_eq!(strip_path_prefix("models/user.rb", ""), Some("models/user.rb".to_string()));
    assert_eq!(strip_path_prefix("/apple/user.rb", "/app"), None);
    assert_eq!(strip_path_prefix("/ap", "/app"), None);
    assert_eq!(strip_path_prefix("app/user.rb", "/app"), None);
    assert_eq!(strip_path_prefix("/app/", "/app"), Some(String::new()));
}

#[test]
fn joining_undoes_stripping() {
    for (path, base) in [
        ("/app/models/user.rb", "/app"),
        ("/app/models/user.rb", "/app/"),
        ("/app/models/user.rb", "/app/models"),
        ("models/user.rb", ""),
        ("models/user.rb", "models"),
    ] {
        let relative = strip_path_prefix(path, base).unwrap();
        assert_eq!(join(base, &relative), path);
    }
    assert_eq!(join("/app", ""), "/app");
    assert_eq!(join("", ""), "");
}

#[test]
fn extensions_follow_the_last_dot_of_the_file_name() {
    assert_eq!(extension_of("app/models/user.rb"), Some("rb".to_string()));
    assert_eq!(extension_of("application.html.erb"), Some("erb".to_string()));
    assert_eq!(extension_of("Gemfile"), None);
    assert_eq!(extension_of("app.d/Gemfile"), None);
    assert_eq!(extension_of(".gitignore"), None);
    assert_eq!(extension_of("dir/.hidden.rb"), Some("rb".to_string()));
    assert_eq!(extension_of("trailing."), Some(String::new()));
    assert_eq!(extension_of(""), None);
    assert_eq!(strip_extension("my_module/some_class.rb"), "my_module/some_class");
    assert_eq!(strip_extension("a.b/c"), "a.b/c");
    assert_eq!(strip_extension("a/.hidden"), "a/.hidden");
    assert_eq!(strip_extension("a.tar.gz"), "a.tar");
}

#[test]
fn special_files_are_known_by_their_last_components() {
    assert!(path_ends_with("tests/fixtures/small-app/Gemfile", "Gemfile"));
    assert!(path_ends_with("Gemfile", "Gemfile"));
    assert!(path_ends_with("/Gemfile", "Gemfile"));
    assert!(path_ends_with("a/b/c", "b/c"));
    assert!(!path_ends_with("tests/MyGemfile", "Gemfile"));
    assert!(!path_ends_with("Gemfile.lock", "Gemfile"));
    assert!(!path_ends_with("file", "Gemfile"));
}
