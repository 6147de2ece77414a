use std::collections::HashMap;

use ruby_references::configuration::Configuration;
use ruby_references::constant_resolver::{ConstantDefinition, ConstantResolver};
use ruby_references::parser::inflector_shim::{camelize, to_class_case};
use ruby_references::zeitwerk::{
    get_zeitwerk_constant_resolver, inferred_constant_from_file, inferred_constants,
};

const SIMPLE_APP: &str = "/fixtures/simple_app";
const APP_WITH_INFLECTIONS: &str = "/fixtures/app_with_inflections";

fn get_absolute_root(fixture_name: &str) -> String {
    fixture_name.to_string()
}

fn join(root: &str, relative: &str) -> String {
    format!("{}/{}", root, relative)
}

/// The autoload roots of a fixture, each with its namespace and the Ruby files under it.
fn autoload_roots(fixture_name: &str) -> Vec<(&'static str, &'static str, Vec<&'static str>)> {
    if fixture_name == SIMPLE_APP {
        vec![
            ("app/services", "", vec!["app/services/some_root_class.rb"]),
            (
                "packs/bar/app/models",
                "",
                vec!["packs/bar/app/models/concerns/some_concern.rb"],
            ),
            (
                "packs/bar/app/models/concerns",
                "",
                vec!["packs/bar/app/models/concerns/some_concern.rb"],
            ),
            ("packs/bar/app/services", "", vec!["packs/bar/app/services/bar.rb"]),
            ("packs/baz/app/services", "", vec!["packs/baz/app/services/baz.rb"]),
            (
                "packs/foo/app/services",
                "",
                vec![
                    "packs/foo/app/services/foo.rb",
                    "packs/foo/app/services/foo/bar.rb",
                ],
            ),
            (
                "app/company_data",
                "::Company",
                vec!["app/company_data/widget.rb"],
            ),
        ]
    } else {
        vec![(
            "app/services",
            "",
            vec![
                "app/services/my_module/some_api_class.rb",
                "app/services/my_module/some_csv_class.rb",
            ],
        )]
    }
}

fn configuration_for_fixture(fixture_name: &str) -> (Configuration, Vec<Vec<String>>) {
    let absolute_root = get_absolute_root(fixture_name);
    let mut autoload_paths = Vec::new();
    let mut globbed_files = Vec::new();
    for (root, namespace, files) in autoload_roots(fixture_name) {
        autoload_paths.push((join(&absolute_root, root), namespace.to_string()));
        globbed_files.push(files.iter().map(|f| join(&absolute_root, f)).collect());
    }
    let acronyms = if fixture_name == APP_WITH_INFLECTIONS {
        vec!["API".to_string(), "CSV".to_string()]
    } else {
        vec![]
    };
    let configuration = Configuration {
        absolute_root,
        autoload_paths,
        acronyms,
        ..Default::default()
    };
    (configuration, globbed_files)
}

fn get_zeitwerk_constant_resolver_for_fixture(fixture_name: &str) -> Option<ConstantResolver> {
    let (configuration, globbed_files) = configuration_for_fixture(fixture_name);
    Some(get_zeitwerk_constant_resolver(&configuration, &globbed_files))
}

fn nesting(names: &[&str]) -> Vec<String> {
    names.iter().map(|n| n.to_string()).collect()
}

#[test]
fn unnested_reference_to_unnested_constant() {
    assert_eq!(
        vec![ConstantDefinition {
            fully_qualified_name: "::Foo".to_string(),
            absolute_path_of_definition: join(
                &get_absolute_root(SIMPLE_APP),
                "packs/foo/app/services/foo.rb"
            )
        }],
        get_zeitwerk_constant_resolver_for_fixture(SIMPLE_APP)
            .unwrap()
            .resolve(&String::from("Foo"), &nesting(&[]))
            .unwrap()
    );
}

#[test]
fn constant_in_overridden_namespace() {
    assert_eq!(
        vec![ConstantDefinition {
            fully_qualified_name: "::Company::Widget".to_string(),
            absolute_path_of_definition: join(
                &get_absolute_root(SIMPLE_APP),
                "app/company_data/widget.rb"
            )
        }],
        get_zeitwerk_constant_resolver_for_fixture(SIMPLE_APP)
            .unwrap()
            .resolve(&String::from("Widget"), &nesting(&["Company"]))
            .unwrap()
    );
}

#[test]
fn nested_reference_to_unnested_constant() {
    let absolute_root = get_absolute_root(SIMPLE_APP);
    let resolver = get_zeitwerk_constant_resolver_for_fixture(SIMPLE_APP).unwrap();

    assert_eq!(
        vec![ConstantDefinition {
            fully_qualified_name: "::Foo".to_string(),
            absolute_path_of_definition: join(&absolute_root, "packs/foo/app/services/foo.rb")
        }],
        resolver
            .resolve(&String::from("Foo"), &nesting(&["Foo", "Bar", "Baz"]))
            .unwrap()
    );
}

#[test]
fn nested_reference_to_nested_constant() {
    let absolute_root = get_absolute_root(SIMPLE_APP);
    let resolver = get_zeitwerk_constant_resolver_for_fixture(SIMPLE_APP).unwrap();
    assert_eq!(
        vec![ConstantDefinition {
            fully_qualified_name: "::Foo::Bar".to_string(),
            absolute_path_of_definition: join(&absolute_root, "packs/foo/app/services/foo/bar.rb")
        }],
        resolver.resolve("Bar", &nesting(&["Foo"])).unwrap()
    );
}

#[test]
fn nested_reference_to_global_constant() {
    let absolute_root = get_absolute_root(SIMPLE_APP);
    let resolver = get_zeitwerk_constant_resolver_for_fixture(SIMPLE_APP).unwrap();

    assert_eq!(
        vec![ConstantDefinition {
            fully_qualified_name: "::Bar".to_string(),
            absolute_path_of_definition: join(&absolute_root, "packs/bar/app/services/bar.rb")
        }],
        resolver.resolve("::Bar", &nesting(&["Foo"])).unwrap()
    );
}

#[test]
fn nested_reference_to_constant_defined_within_another_file() {
    let absolute_root = get_absolute_root(SIMPLE_APP);
    let resolver = get_zeitwerk_constant_resolver_for_fixture(SIMPLE_APP).unwrap();
    // A name is looked up as it stands: `BAR` is declared inside
    // `packs/bar/app/services/bar.rb`, which defines `::Bar` by its name and
    // nothing else, so that `::Bar::BAR` has no definition of its own.
    assert_eq!(None, resolver.resolve(&String::from("::Bar::BAR"), &nesting(&[])));
    assert_eq!(
        vec![ConstantDefinition {
            fully_qualified_name: "::Bar".to_string(),
            absolute_path_of_definition: join(&absolute_root, "packs/bar/app/services/bar.rb")
        }],
        resolver.resolve(&String::from("::Bar"), &nesting(&[])).unwrap()
    );
}

#[test]
fn inflected_constant() {
    let app = APP_WITH_INFLECTIONS;
    let absolute_root = get_absolute_root(app);
    let resolver = get_zeitwerk_constant_resolver_for_fixture(app).unwrap();

    assert_eq!(
        vec![ConstantDefinition {
            fully_qualified_name: "::MyModule::SomeAPIClass".to_string(),
            absolute_path_of_definition: join(
                &absolute_root,
                "app/services/my_module/some_api_class.rb"
            )
        }],
        resolver
            .resolve(&String::from("::MyModule::SomeAPIClass"), &nesting(&[]))
            .unwrap()
    );

    assert_eq!(
        vec![ConstantDefinition {
            fully_qualified_name: "::MyModule::SomeCSVClass".to_string(),
            absolute_path_of_definition: join(
                &absolute_root,
                "app/services/my_module/some_csv_class.rb"
            )
        }],
        resolver
            .resolve(&String::from("::MyModule::SomeCSVClass"), &nesting(&[]))
            .unwrap()
    );
}

#[test]
fn test_file_map() {
    let constant_resolver = get_zeitwerk_constant_resolver_for_fixture(SIMPLE_APP).unwrap();
    let actual_constant_map: HashMap<String, Vec<ConstantDefinition>> = constant_resolver
        .fully_qualified_constant_name_to_constant_definition_map()
        .into_iter()
        .collect();
    let absolute_root = get_absolute_root(SIMPLE_APP);

    let mut expected_constant_map = HashMap::new();
    expected_constant_map.insert(
        String::from("::Foo::Bar"),
        vec![ConstantDefinition {
            fully_qualified_name: "::Foo::Bar".to_owned(),
            absolute_path_of_definition: join(&absolute_root, "packs/foo/app/services/foo/bar.rb"),
        }],
    );

    expected_constant_map.insert(
        "::Bar".to_owned(),
        vec![ConstantDefinition {
            fully_qualified_name: "::Bar".to_owned(),
            absolute_path_of_definition: join(&absolute_root, "packs/bar/app/services/bar.rb"),
        }],
    );
    expected_constant_map.insert(
        "::Baz".to_owned(),
        vec![ConstantDefinition {
            fully_qualified_name: "::Baz".to_owned(),
            absolute_path_of_definition: join(&absolute_root, "packs/baz/app/services/baz.rb"),
        }],
    );
    expected_constant_map.insert(
        "::Foo".to_owned(),
        vec![ConstantDefinition {
            fully_qualified_name: "::Foo".to_owned(),
            absolute_path_of_definition: join(&absolute_root, "packs/foo/app/services/foo.rb"),
        }],
    );
    expected_constant_map.insert(
        "::SomeConcern".to_owned(),
        vec![ConstantDefinition {
            fully_qualified_name: "::SomeConcern".to_owned(),
            absolute_path_of_definition: join(
                &absolute_root,
                "packs/bar/app/models/concerns/some_concern.rb",
            ),
        }],
    );
    expected_constant_map.insert(
        "::SomeRootClass".to_owned(),
        vec![ConstantDefinition {
            fully_qualified_name: "::SomeRootClass".to_owned(),
            absolute_path_of_definition: join(&absolute_root, "app/services/some_root_class.rb"),
        }],
    );
    expected_constant_map.insert(
        "::Company::Widget".to_owned(),
        vec![ConstantDefinition {
            fully_qualified_name: "::Company::Widget".to_owned(),
            absolute_path_of_definition: join(&absolute_root, "app/company_data/widget.rb"),
        }],
    );

    assert_eq!(expected_constant_map, actual_constant_map);
}

#[test]
fn a_file_belongs_to_its_deepest_autoload_root() {
    let (configuration, globbed_files) = configuration_for_fixture(SIMPLE_APP);
    let constants = inferred_constants(&configuration, &globbed_files);
    let concerns: Vec<&ConstantDefinition> = constants
        .iter()
        .filter(|c| c.absolute_path_of_definition.ends_with("some_concern.rb"))
        .collect();
    // The file lies under `models` and under `models/concerns`: it defines one
    // constant, named from `models/concerns` on.
    assert_eq!(concerns.len(), 1);
    assert_eq!(concerns[0].fully_qualified_name, "::SomeConcern");
    assert_eq!(constants.len(), 7);
}

#[test]
fn constants_come_in_the_order_of_the_roots() {
    let (configuration, globbed_files) = configuration_for_fixture(SIMPLE_APP);
    let names: Vec<String> = inferred_constants(&configuration, &globbed_files)
        .into_iter()
        .map(|c| c.fully_qualified_name)
        .collect();
    assert_eq!(
        names,
        vec![
            "::SomeRootClass",
            "::SomeConcern",
            "::Bar",
            "::Baz",
            "::Foo",
            "::Foo::Bar",
            "::Company::Widget"
        ]
    );
}

#[test]
fn files_outside_their_root_define_nothing() {
    let configuration = Configuration {
        autoload_paths: vec![("/app/models".to_string(), String::new())],
        ..Default::default()
    };
    let globbed_files = vec![vec![
        "/app/models/user.rb".to_string(),
        "/app/modelsuser.rb".to_string(),
        "/lib/user.rb".to_string(),
    ]];
    let constants = inferred_constants(&configuration, &globbed_files);
    assert_eq!(
        constants,
        vec![ConstantDefinition {
            fully_qualified_name: "::User".to_string(),
            absolute_path_of_definition: "/app/models/user.rb".to_string()
        }]
    );
    // Roots without a list of files, and lists without a root, count for nothing.
    assert!(inferred_constants(&configuration, &vec![]).is_empty());
    assert!(inferred_constants(&Configuration::default(), &globbed_files).is_empty());
}

#[test]
fn a_constant_is_named_after_its_file() {
    let constant = inferred_constant_from_file(
        "/root/app/services/my_module/some_api_class.rb",
        "/root/app/services",
        &vec!["API".to_string()],
        &"::Namespace".to_string(),
    );
    assert_eq!(
        constant,
        ConstantDefinition {
            fully_qualified_name: "::Namespace::MyModule::SomeAPIClass".to_string(),
            absolute_path_of_definition: "/root/app/services/my_module/some_api_class.rb"
                .to_string()
        }
    );
}

#[test]
fn camelize_keeps_acronyms_in_capitals() {
    let acronyms = vec!["API".to_string()];
    assert_eq!(camelize("my_module/some_api_class", &acronyms), "MyModule::SomeAPIClass");
    assert_eq!(camelize("my_module/some_api_class", &vec![]), "MyModule::SomeApiClass");
    assert_eq!(camelize("foo", &vec![]), "Foo");
    assert_eq!(camelize("", &vec![]), "");
    assert_eq!(camelize("a__b-c d", &vec![]), "ABCD");
    assert_eq!(camelize("fooBAR", &vec![]), "Foobar");
}

#[test]
fn class_case_puts_the_last_word_in_the_singular() {
    let none: Vec<String> = vec![];
    assert_eq!(to_class_case("accounting_firm", true, &none), "AccountingFirm");
    assert_eq!(to_class_case("accounting_firms", true, &none), "AccountingFirm");
    assert_eq!(to_class_case("accounting_firms", false, &none), "AccountingFirms");
    assert_eq!(to_class_case("companies", true, &none), "Company");
    assert_eq!(to_class_case("addresses", true, &none), "Address");
    assert_eq!(to_class_case("boxes", true, &none), "Box");
    assert_eq!(to_class_case("branches", true, &none), "Branch");
    assert_eq!(to_class_case("wishes", true, &none), "Wish");
    assert_eq!(to_class_case("statuses", true, &none), "Status");
    assert_eq!(to_class_case("status", true, &none), "Status");
    assert_eq!(to_class_case("aliases", true, &none), "Alias");
    assert_eq!(to_class_case("buses", true, &none), "Bus");
    assert_eq!(to_class_case("analysis", true, &none), "Analysis");
    assert_eq!(to_class_case("address", true, &none), "Address");
    assert_eq!(to_class_case("people", true, &none), "Person");
    assert_eq!(to_class_case("children", true, &none), "Child");
    assert_eq!(to_class_case("sheep", true, &none), "Sheep");
    assert_eq!(to_class_case("users_", true, &none), "User");
    assert_eq!(to_class_case("admin/api_keys", true, &vec!["API".to_string()]), "Admin::APIKey");
    assert_eq!(to_class_case("_", true, &none), "");
}
