use ruby_references::constant_resolver::{ConstantDefinition, ConstantResolver};
use ruby_references::parser::namespace_calculator::possible_fully_qualified_constants;

fn definition(name: &str, path: &str) -> ConstantDefinition {
    ConstantDefinition {
        fully_qualified_name: name.to_string(),
        absolute_path_of_definition: path.to_string(),
    }
}

fn nesting(names: &[&str]) -> Vec<String> {
    names.iter().map(|n| n.to_string()).collect()
}

#[test]
fn candidates_run_from_the_innermost_namespace_to_the_root() {
    assert_eq!(
        possible_fully_qualified_constants(&nesting(&["A", "B", "C"]), "Name"),
        vec!["::A::B::C::Name", "::A::B::Name", "::A::Name", "::Name"]
    );
    assert_eq!(
        possible_fully_qualified_constants(&nesting(&["A"]), "Deep::Name"),
        vec!["::A::Deep::Name", "::Deep::Name"]
    );
    assert_eq!(
        possible_fully_qualified_constants(&nesting(&[]), "Name"),
        vec!["::Name"]
    );
    assert_eq!(
        possible_fully_qualified_constants(&nesting(&["A", "B"]), "::Name"),
        vec!["::Name"]
    );
}

#[test]
fn the_innermost_definition_wins() {
    let at = |names: &[&str]| {
        ConstantResolver::create(names.iter().map(|n| definition(n, n)).collect())
            .resolve("Name", &nesting(&["A", "B", "C"]))
            .map(|found| found[0].fully_qualified_name.clone())
    };
    assert_eq!(
        at(&["::Name", "::A::Name", "::A::B::Name", "::A::B::C::Name"]),
        Some("::A::B::C::Name".to_string())
    );
    assert_eq!(
        at(&["::Name", "::A::Name", "::A::B::Name"]),
        Some("::A::B::Name".to_string())
    );
    assert_eq!(at(&["::Name", "::A::Name"]), Some("::A::Name".to_string()));
    assert_eq!(at(&["::Name"]), Some("::Name".to_string()));
    assert_eq!(at(&["::B::Name", "::C::Name", "::B::C::Name"]), None);
    assert_eq!(at(&[]), None);
}

#[test]
fn an_absolute_name_ignores_the_nesting() {
    let resolver = ConstantResolver::create(vec![
        definition("::A::Name", "/a/name.rb"),
        definition("::Name", "/name.rb"),
    ]);
    assert_eq!(
        resolver.resolve("::Name", &nesting(&["A"])),
        Some(vec![definition("::Name", "/name.rb")])
    );
    assert_eq!(resolver.resolve("::Other", &nesting(&["A"])), None);
    assert_eq!(resolver.resolve("::A", &nesting(&[])), None);
}

#[test]
fn all_definitions_of_a_name_are_found_in_order() {
    let resolver = ConstantResolver::create(vec![
        definition("::Name", "/first.rb"),
        definition("::Other", "/other.rb"),
        definition("::Name", "/second.rb"),
    ]);
    assert_eq!(
        resolver.resolve("Name", &nesting(&[])),
        Some(vec![
            definition("::Name", "/first.rb"),
            definition("::Name", "/second.rb")
        ])
    );
    assert_eq!(
        resolver.definitions_of(&"::Other".to_string()),
        vec![definition("::Other", "/other.rb")]
    );
    assert_eq!(
        resolver.fully_qualified_constant_name_to_constant_definition_map(),
        vec![
            (
                "::Name".to_string(),
                vec![
                    definition("::Name", "/first.rb"),
                    definition("::Name", "/second.rb")
                ]
            ),
            (
                "::Other".to_string(),
                vec![definition("::Other", "/other.rb")]
            )
        ]
    );
}
