use ruby_references::configuration::Configuration;
use ruby_references::parser::processor::{get_file_type, SupportedFileType};

#[test]
fn file_type() {
    let test_mapping = vec![
        (
            "tests/fixtures/small-app/app/models/client_invitation.rb",
            Some(SupportedFileType::Ruby),
        ),
        (
            "tests/fixtures/small-app/my.rake",
            Some(SupportedFileType::Ruby),
        ),
        (
            "tests/fixtures/small-app/my.builder",
            Some(SupportedFileType::Ruby),
        ),
        (
            "tests/fixtures/small-app/my.gemspec",
            Some(SupportedFileType::Ruby),
        ),
        (
            "tests/fixtures/small-app/my.ru",
            Some(SupportedFileType::Ruby),
        ),
        (
            "tests/fixtures/small-app/app/views/layouts/application.html.erb",
            Some(SupportedFileType::Erb),
        ),
        (
            "tests/fixtures/small-app/Gemfile",
            Some(SupportedFileType::Ruby),
        ),
        (
            "tests/fixtures/small-app/Rakefile",
            Some(SupportedFileType::Ruby),
        ),
        ("tests/fixtures/my.rs", None),
    ];
    let configuration = Configuration::default();
    for (path, expected) in test_mapping {
        let path = String::from(path);
        assert_eq!(get_file_type(&path, &configuration), expected);
    }
}
