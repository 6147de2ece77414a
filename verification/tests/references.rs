use std::collections::HashMap;

use ruby_references::configuration::{Configuration, ExtraReferenceFieldsFn};
use ruby_references::constant_resolver::{ConstantDefinition, ConstantResolver};
use ruby_references::parser::{ProcessedFile, Range, SourceLocation, UnresolvedReference};
use ruby_references::reference::{all_references, references_in_file, Reference, ReferenceError};

const ROOT: &str = "/app";

fn definition(name: &str, path: &str) -> ConstantDefinition {
    ConstantDefinition {
        fully_qualified_name: name.to_string(),
        absolute_path_of_definition: path.to_string(),
    }
}

fn resolver() -> ConstantResolver {
    ConstantResolver::create(vec![
        definition("::Foo", "/app/packs/foo/app/services/foo.rb"),
        definition("::Foo::Bar", "/app/packs/foo/app/services/foo/bar.rb"),
        definition("::Bar", "/app/packs/bar/app/services/bar.rb"),
        definition("::Foo", "/app/packs/other/app/services/foo.rb"),
        definition("::Outside", "/elsewhere/outside.rb"),
    ])
}

fn configuration() -> Configuration {
    Configuration {
        absolute_root: ROOT.to_string(),
        ..Default::default()
    }
}

fn unresolved(name: &str, namespace_path: &[&str], row: usize, col: usize) -> UnresolvedReference {
    UnresolvedReference {
        name: name.to_string(),
        namespace_path: namespace_path.iter().map(|n| n.to_string()).collect(),
        location: Range {
            start_row: row,
            start_col: col,
            end_row: row,
            end_col: col + name.len(),
        },
    }
}

struct PackNames;

impl ExtraReferenceFieldsFn for PackNames {
    fn extra_reference_fields_fn(
        &self,
        referencing_file_path: &str,
        defining_file_path: Option<&str>,
    ) -> HashMap<String, String> {
        let mut extra_fields = HashMap::new();
        extra_fields.insert(
            "referencing_file".to_string(),
            referencing_file_path.to_string(),
        );
        if let Some(defining_file) = defining_file_path {
            extra_fields.insert("defining_file".to_string(), defining_file.to_string());
        }
        extra_fields
    }
}

#[test]
fn a_resolved_reference_names_the_defining_file() {
    let references = Reference::from_unresolved_reference(
        &configuration(),
        &resolver(),
        &unresolved("Bar", &["Foo"], 3, 4),
        "/app/packs/baz/app/services/baz.rb",
    )
    .unwrap();
    assert_eq!(
        references,
        vec![Reference {
            constant_name: "::Foo::Bar".to_string(),
            relative_defining_file: Some("packs/foo/app/services/foo/bar.rb".to_string()),
            relative_referencing_file: "packs/baz/app/services/baz.rb".to_string(),
            source_location: SourceLocation { line: 3, column: 4 },
            extra_fields: HashMap::new(),
        }]
    );
    // Joined with the root again, the paths are those of the files.
    assert_eq!(
        format!("{}/{}", ROOT, references[0].relative_referencing_file),
        "/app/packs/baz/app/services/baz.rb"
    );
    assert_eq!(
        format!("{}/{}", ROOT, references[0].relative_defining_file.as_ref().unwrap()),
        "/app/packs/foo/app/services/foo/bar.rb"
    );
}

#[test]
fn a_constant_with_two_definitions_gives_two_references() {
    let references = Reference::from_unresolved_reference(
        &configuration(),
        &resolver(),
        &unresolved("Foo", &[], 1, 0),
        "/app/a.rb",
    )
    .unwrap();
    let defining_files: Vec<Option<&str>> = references
        .iter()
        .map(|r| r.relative_defining_file.as_deref())
        .collect();
    assert_eq!(
        defining_files,
        vec![
            Some("packs/foo/app/services/foo.rb"),
            Some("packs/other/app/services/foo.rb")
        ]
    );
    assert!(references.iter().all(|r| r.constant_name == "::Foo"));
}

#[test]
fn an_unresolved_reference_keeps_its_written_name() {
    let references = Reference::from_unresolved_reference(
        &configuration(),
        &resolver(),
        &unresolved("Unknown::Thing", &["Foo"], 7, 2),
        "/app/a.rb",
    )
    .unwrap();
    assert_eq!(
        references,
        vec![Reference {
            constant_name: "Unknown::Thing".to_string(),
            relative_defining_file: None,
            relative_referencing_file: "a.rb".to_string(),
            source_location: SourceLocation { line: 7, column: 2 },
            extra_fields: HashMap::new(),
        }]
    );
}

#[test]
fn a_referencing_file_outside_the_root_is_an_error() {
    for path in ["/other/a.rb", "/apple/a.rb", "app/a.rb"] {
        assert_eq!(
            Reference::from_unresolved_reference(
                &configuration(),
                &resolver(),
                &unresolved("Foo", &[], 1, 0),
                path,
            ),
            Err(ReferenceError::ReferencingFileOutsideRoot)
        );
    }
}

#[test]
fn a_defining_file_outside_the_root_is_an_error() {
    assert_eq!(
        Reference::from_unresolved_reference(
            &configuration(),
            &resolver(),
            &unresolved("Outside", &[], 1, 0),
            "/app/a.rb",
        ),
        Err(ReferenceError::DefiningFileOutsideRoot)
    );
}

#[test]
fn extra_fields_come_from_the_configured_function() {
    let configuration = Configuration {
        absolute_root: ROOT.to_string(),
        extra_reference_fields_fn: Some(Box::new(PackNames)),
        ..Default::default()
    };
    let resolved = Reference::from_unresolved_reference(
        &configuration,
        &resolver(),
        &unresolved("::Bar", &[], 1, 0),
        "/app/a.rb",
    )
    .unwrap();
    let mut expected = HashMap::new();
    expected.insert("referencing_file".to_string(), "/app/a.rb".to_string());
    expected.insert(
        "defining_file".to_string(),
        "/app/packs/bar/app/services/bar.rb".to_string(),
    );
    assert_eq!(resolved[0].extra_fields, expected);

    let unresolved_references = Reference::from_unresolved_reference(
        &configuration,
        &resolver(),
        &unresolved("Nothing", &[], 1, 0),
        "/app/a.rb",
    )
    .unwrap();
    let mut expected = HashMap::new();
    expected.insert("referencing_file".to_string(), "/app/a.rb".to_string());
    assert_eq!(unresolved_references[0].extra_fields, expected);
}

fn files() -> Vec<ProcessedFile> {
    vec![
        ProcessedFile {
            absolute_path: "/app/one.rb".to_string(),
            unresolved_references: vec![
                unresolved("Foo", &[], 1, 0),
                unresolved("Missing", &[], 2, 0),
            ],
        },
        ProcessedFile {
            absolute_path: "/app/empty.rb".to_string(),
            unresolved_references: vec![],
        },
        ProcessedFile {
            absolute_path: "/app/two.rb".to_string(),
            unresolved_references: vec![unresolved("Bar", &["Foo"], 5, 6)],
        },
    ]
}

#[test]
fn all_references_come_file_by_file() {
    let references = all_references(&configuration(), &files(), &resolver()).unwrap();
    let summary: Vec<(&str, &str, usize)> = references
        .iter()
        .map(|r| {
            (
                r.constant_name.as_str(),
                r.relative_referencing_file.as_str(),
                r.source_location.line,
            )
        })
        .collect();
    assert_eq!(
        summary,
        vec![
            ("::Foo", "one.rb", 1),
            ("::Foo", "one.rb", 1),
            ("Missing", "one.rb", 2),
            ("::Foo::Bar", "two.rb", 5)
        ]
    );
    let first = references_in_file(&configuration(), &resolver(), &files()[0]).unwrap();
    assert_eq!(first, references[..3].to_vec());
}

#[test]
fn the_first_error_ends_the_run() {
    let mut files = files();
    files.insert(
        1,
        ProcessedFile {
            absolute_path: "/app/bad.rb".to_string(),
            unresolved_references: vec![
                unresolved("Foo", &[], 1, 0),
                unresolved("Outside", &[], 2, 0),
            ],
        },
    );
    files.push(ProcessedFile {
        absolute_path: "/elsewhere/late.rb".to_string(),
        unresolved_references: vec![unresolved("Foo", &[], 1, 0)],
    });
    assert_eq!(
        all_references(&configuration(), &files, &resolver()),
        Err(ReferenceError::DefiningFileOutsideRoot)
    );
    // A file outside the root is an error only where it holds a reference.
    let empty_outside = vec![ProcessedFile {
        absolute_path: "/elsewhere/late.rb".to_string(),
        unresolved_references: vec![],
    }];
    assert_eq!(
        all_references(&configuration(), &empty_outside, &resolver()),
        Ok(vec![])
    );
    assert_eq!(all_references(&configuration(), &vec![], &resolver()), Ok(vec![]));
}
