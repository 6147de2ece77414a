use ruby_references::parser::ast::{
    Casgn, Cbase, Class, Const, Kwargs, Loc, Module, Node, Other, Pair, Send, Str, Sym,
};
use ruby_references::parser::collector::{
    extract_class_name_from_kwargs, fetch_const_name, get_definition_from, loc_to_range,
    ParseError, ReferenceCollector, SuperclassReference,
};
use ruby_references::parser::self_reference_filterer::{
    definition_to_location_map, filter, find_location, name_prefixes_of,
};
use ruby_references::parser::{ParsedDefinition, Range, UnresolvedReference};

/// The span of the `occurrence`-th `needle` in `contents`, counted from 0.
fn span(contents: &str, needle: &str, occurrence: usize) -> Loc {
    let (begin, _) = contents
        .match_indices(needle)
        .nth(occurrence)
        .expect("the text holds the needle");
    Loc {
        begin,
        end: begin + needle.len(),
    }
}

fn constant(contents: &str, name: &str, occurrence: usize) -> Node {
    Node::Const(Const {
        scope: None,
        name: name.to_string(),
        expression_l: span(contents, name, occurrence),
    })
}

fn symbol(name: &str) -> Node {
    Node::Sym(Sym {
        name: name.to_string(),
    })
}

fn string(value: &str) -> Node {
    Node::Str(Str {
        value: value.to_string(),
    })
}

fn pair(key: Node, value: Node) -> Node {
    Node::Pair(Pair {
        key: Box::new(key),
        value: Box::new(value),
    })
}

fn call(contents: &str, text: &str, method_name: &str, args: Vec<Node>) -> Node {
    Node::Send(Send {
        recv: None,
        method_name: method_name.to_string(),
        args,
        expression_l: span(contents, text, 0),
    })
}

fn walk(contents: &str, tree: &Node, custom: &[&str], acronyms: &[&str]) -> (Vec<UnresolvedReference>, Vec<ParsedDefinition>) {
    let mut collector = ReferenceCollector::new(
        contents,
        custom.iter().map(|s| s.to_string()).collect(),
        acronyms.iter().map(|s| s.to_string()).collect(),
    );
    assert!(tree.is_within(contents.len()));
    collector.visit(tree);
    assert!(collector.current_namespaces.is_empty());
    assert_eq!(collector.superclasses, Vec::<SuperclassReference>::new());
    assert!(!collector.in_superclass);
    (collector.references, collector.definitions)
}

fn names(references: &[UnresolvedReference]) -> Vec<&str> {
    references.iter().map(|r| r.name.as_str()).collect()
}

#[test]
fn rows_count_from_one_and_columns_from_zero() {
    let text = "One\nTwo";
    assert_eq!(
        loc_to_range(&Loc { begin: 0, end: 3 }, text),
        Range { start_row: 1, start_col: 0, end_row: 1, end_col: 3 }
    );
    assert_eq!(
        loc_to_range(&Loc { begin: 4, end: 7 }, text),
        Range { start_row: 2, start_col: 0, end_row: 2, end_col: 3 }
    );
    assert_eq!(
        loc_to_range(&Loc { begin: 2, end: 5 }, text),
        Range { start_row: 1, start_col: 2, end_row: 2, end_col: 1 }
    );
    // A line break belongs to the line that it ends.
    assert_eq!(
        loc_to_range(&Loc { begin: 3, end: 4 }, text),
        Range { start_row: 1, start_col: 3, end_row: 2, end_col: 0 }
    );
    // Columns count bytes.
    assert_eq!(
        loc_to_range(&Loc { begin: 3, end: 3 }, "\u{e9}A"),
        Range { start_row: 1, start_col: 3, end_row: 1, end_col: 3 }
    );
    assert_eq!(
        loc_to_range(&Loc { begin: 0, end: 0 }, ""),
        Range { start_row: 1, start_col: 0, end_row: 1, end_col: 0 }
    );
}

#[test]
fn names_are_read_off_constants_only() {
    let text = "::Foo::Bar";
    let root = Node::Cbase(Cbase { expression_l: Loc { begin: 0, end: 2 } });
    let foo = Node::Const(Const {
        scope: Some(Box::new(root)),
        name: "Foo".to_string(),
        expression_l: span(text, "::Foo", 0),
    });
    let bar = Node::Const(Const {
        scope: Some(Box::new(foo)),
        name: "Bar".to_string(),
        expression_l: span(text, "::Foo::Bar", 0),
    });
    assert_eq!(fetch_const_name(&bar), Ok("::Foo::Bar".to_string()));
    assert_eq!(fetch_const_name(&constant(text, "Foo", 0)), Ok("Foo".to_string()));
    assert_eq!(
        fetch_const_name(&Node::Cbase(Cbase { expression_l: Loc { begin: 0, end: 2 } })),
        Ok(String::new())
    );
    let computed = Node::Const(Const {
        scope: Some(Box::new(call(text, "Foo", "foo", vec![]))),
        name: "Bar".to_string(),
        expression_l: span(text, "Foo::Bar", 0),
    });
    assert_eq!(fetch_const_name(&computed), Err(ParseError::Metaprogramming));
    assert_eq!(fetch_const_name(&symbol("foo")), Err(ParseError::Metaprogramming));
    assert_eq!(
        fetch_const_name(&Node::Other(Other { children: vec![] })),
        Err(ParseError::Metaprogramming)
    );
}

#[test]
fn definitions_are_fully_qualified() {
    let location = Range { start_row: 1, start_col: 2, end_row: 3, end_col: 4 };
    assert_eq!(
        get_definition_from(&"Baz".to_string(), &vec!["Foo".to_string(), "Bar".to_string()], &location),
        ParsedDefinition {
            fully_qualified_name: "::Foo::Bar::Baz".to_string(),
            location
        }
    );
    assert_eq!(
        get_definition_from(&"Foo::Bar".to_string(), &vec![], &location).fully_qualified_name,
        "::Foo::Bar"
    );
}

#[test]
fn modules_nest_and_constants_are_defined_inside_them() {
    let text = "module Foo\n  module Bar\n    BAZ = Qux\n  end\n  Quux\nend\n";
    let tree = Node::Module(Module {
        name: Box::new(constant(text, "Foo", 0)),
        body: Some(Box::new(Node::Other(Other {
            children: vec![
                Node::Module(Module {
                    name: Box::new(constant(text, "Bar", 0)),
                    body: Some(Box::new(Node::Casgn(Casgn {
                        scope: None,
                        name: "BAZ".to_string(),
                        value: Some(Box::new(constant(text, "Qux", 0))),
                        expression_l: span(text, "BAZ = Qux", 0),
                    }))),
                }),
                constant(text, "Quux", 0),
            ],
        }))),
    });
    let (references, definitions) = walk(text, &tree, &[], &[]);
    assert_eq!(names(&references), vec!["::Foo", "::Foo::Bar", "Qux", "Quux"]);
    assert_eq!(references[0].namespace_path, Vec::<String>::new());
    assert_eq!(references[1].namespace_path, vec!["Foo"]);
    assert_eq!(references[2].namespace_path, vec!["Foo", "Bar"]);
    assert_eq!(references[3].namespace_path, vec!["Foo"]);
    let defined: Vec<&str> = definitions
        .iter()
        .map(|d| d.fully_qualified_name.as_str())
        .collect();
    assert_eq!(defined, vec!["::Foo", "::Foo::Bar", "::Foo::Bar::BAZ"]);
    assert_eq!(
        definitions[2].location,
        Range { start_row: 3, start_col: 4, end_row: 3, end_col: 13 }
    );
    assert_eq!(definitions[0].location, references[0].location);
}

#[test]
fn a_reference_is_not_nested_in_a_namespace_of_its_own_name() {
    // Inside `Foo::Bar`, a reference to `Bar` is reported inside `Foo` alone.
    let text = "module Foo\n  module Bar\n    Bar\n  end\nend\n";
    let tree = Node::Module(Module {
        name: Box::new(constant(text, "Foo", 0)),
        body: Some(Box::new(Node::Module(Module {
            name: Box::new(constant(text, "Bar", 0)),
            body: Some(Box::new(constant(text, "Bar", 1))),
        }))),
    });
    let (references, _) = walk(text, &tree, &[], &[]);
    assert_eq!(names(&references), vec!["::Foo", "::Foo::Bar", "Bar"]);
    assert_eq!(references[2].namespace_path, vec!["Foo"]);
}

#[test]
fn a_superclass_is_reported_with_the_nesting_of_its_class() {
    // `Base` names the superclass, so inside the class it is still reported
    // with the nesting that the class is declared in.
    let text = "module Outer\n  class Inner < Base\n    Base\n    Other\n  end\n  Base\nend\n";
    let tree = Node::Module(Module {
        name: Box::new(constant(text, "Outer", 0)),
        body: Some(Box::new(Node::Other(Other {
            children: vec![
                Node::Class(Class {
                    name: Box::new(constant(text, "Inner", 0)),
                    superclass: Some(Box::new(constant(text, "Base", 0))),
                    body: Some(Box::new(Node::Other(Other {
                        children: vec![constant(text, "Base", 1), constant(text, "Other", 0)],
                    }))),
                }),
                constant(text, "Base", 2),
            ],
        }))),
    });
    let (references, _) = walk(text, &tree, &[], &[]);
    assert_eq!(
        names(&references),
        vec!["::Outer", "Base", "::Outer::Inner", "Base", "Other", "Base"]
    );
    assert_eq!(references[1].namespace_path, vec!["Outer"]);
    assert_eq!(references[3].namespace_path, vec!["Outer"]);
    assert_eq!(references[4].namespace_path, vec!["Outer", "Inner"]);
    // Behind the class its superclass is forgotten.
    assert_eq!(references[5].namespace_path, vec!["Outer"]);
}

#[test]
fn a_class_without_superclass_forgets_no_superclass_of_another() {
    let text = "class Outer < Base\n  class Inner\n  end\n  Outer\nend\n";
    let tree = Node::Class(Class {
        name: Box::new(constant(text, "Outer", 0)),
        superclass: Some(Box::new(constant(text, "Base", 0))),
        body: Some(Box::new(Node::Other(Other {
            children: vec![
                Node::Class(Class {
                    name: Box::new(constant(text, "Inner", 0)),
                    superclass: None,
                    body: None,
                }),
                constant(text, "Outer", 1),
            ],
        }))),
    });
    let mut collector = ReferenceCollector::new(text, vec![], vec![]);
    match &tree {
        Node::Class(class) => {
            collector.on_class(class);
        }
        _ => unreachable!(),
    }
    assert_eq!(
        names(&collector.references),
        vec!["Base", "::Outer", "::Outer::Inner", "Outer"]
    );
    // `Outer` is a namespace around the reference to it, and no superclass.
    assert_eq!(collector.references[3].namespace_path, Vec::<String>::new());
    assert!(collector.superclasses.is_empty());
}

#[test]
fn declarations_with_computed_names_are_passed_over() {
    let text = "class foo::Bar < Base\n  Inside\nend\nmodule foo::Baz\n  Inside\nend\nAfter\n";
    let computed = |occurrence: usize, name: &str| {
        Node::Const(Const {
            scope: Some(Box::new(Node::Send(Send {
                recv: None,
                method_name: "foo".to_string(),
                args: vec![],
                expression_l: span(text, "foo", occurrence),
            }))),
            name: name.to_string(),
            expression_l: span(text, &format!("foo::{}", name), 0),
        })
    };
    let tree = Node::Other(Other {
        children: vec![
            Node::Class(Class {
                name: Box::new(computed(0, "Bar")),
                superclass: Some(Box::new(constant(text, "Base", 0))),
                body: Some(Box::new(constant(text, "Inside", 0))),
            }),
            Node::Module(Module {
                name: Box::new(computed(1, "Baz")),
                body: Some(Box::new(constant(text, "Inside", 1))),
            }),
            constant(text, "After", 0),
        ],
    });
    let (references, definitions) = walk(text, &tree, &[], &[]);
    assert_eq!(names(&references), vec!["After"]);
    assert!(definitions.is_empty());
}

#[test]
fn associations_refer_to_classes() {
    let text = "has_many :companies\nhas_one :api_key, class_name: \"Keys::Api\"\nhas_and_belongs_to_many :boxes\nhas_uuid :thing\nvalidates :name\nbelongs_to Owner\n";
    let tree = Node::Other(Other {
        children: vec![
            call(text, "has_many :companies", "has_many", vec![symbol("companies")]),
            call(
                text,
                "has_one :api_key, class_name: \"Keys::Api\"",
                "has_one",
                vec![
                    symbol("api_key"),
                    Node::Kwargs(Kwargs {
                        pairs: vec![
                            pair(symbol("dependent"), symbol("destroy")),
                            pair(string("class_name"), string("NotASymbol")),
                            pair(symbol("class_name"), symbol("NotAString")),
                            pair(symbol("class_name"), string("Keys::Api")),
                            pair(symbol("class_name"), string("Late")),
                        ],
                    }),
                ],
            ),
            call(
                text,
                "has_and_belongs_to_many :boxes",
                "has_and_belongs_to_many",
                vec![symbol("boxes")],
            ),
            call(text, "has_uuid :thing", "has_uuid", vec![symbol("thing")]),
            call(text, "validates :name", "validates", vec![symbol("name")]),
            call(text, "belongs_to Owner", "belongs_to", vec![constant(text, "Owner", 0)]),
        ],
    });
    let (references, _) = walk(text, &tree, &["has_uuid"], &[]);
    assert_eq!(
        names(&references),
        vec!["Company", "Keys::Api", "Box", "Thing", "Owner"]
    );
    assert_eq!(
        references[1].location,
        Range { start_row: 2, start_col: 0, end_row: 2, end_col: 41 }
    );
    // Without the custom association `has_uuid` declares nothing.
    let (references, _) = walk(text, &tree, &[], &[]);
    assert_eq!(names(&references), vec!["Company", "Keys::Api", "Box", "Owner"]);
    // With acronyms the class of a symbol is spelled with them.
    let (references, _) = walk(text, &tree, &[], &["API"]);
    assert_eq!(names(&references)[1], "Keys::Api");
    let keys = call(text, "has_one :api_key", "has_one", vec![symbol("api_key")]);
    let (references, _) = walk(text, &keys, &[], &["API"]);
    assert_eq!(names(&references), vec!["APIKey"]);
}

#[test]
fn the_first_class_name_of_the_keyword_arguments_counts() {
    let kwargs = Kwargs {
        pairs: vec![
            pair(symbol("class_name"), string("First")),
            pair(symbol("class_name"), string("Second")),
        ],
    };
    assert_eq!(extract_class_name_from_kwargs(&kwargs), Some("First".to_string()));
    assert_eq!(extract_class_name_from_kwargs(&Kwargs { pairs: vec![] }), None);
    assert_eq!(
        extract_class_name_from_kwargs(&Kwargs {
            pairs: vec![symbol("class_name"), pair(symbol("foreign_key"), string("x"))]
        }),
        None
    );
}

fn reference(name: &str, namespace_path: &[&str], row: usize, col: usize) -> UnresolvedReference {
    UnresolvedReference {
        name: name.to_string(),
        namespace_path: namespace_path.iter().map(|n| n.to_string()).collect(),
        location: Range { start_row: row, start_col: col, end_row: row, end_col: col + 1 },
    }
}

fn definition(name: &str, row: usize, col: usize) -> ParsedDefinition {
    ParsedDefinition {
        fully_qualified_name: name.to_string(),
        location: Range { start_row: row, start_col: col, end_row: row, end_col: col + 1 },
    }
}

fn filtered(references: Vec<UnresolvedReference>, definitions: Vec<ParsedDefinition>) -> Vec<UnresolvedReference> {
    let mut collector = ReferenceCollector::new("", vec![], vec![]);
    collector.references = references;
    collector.definitions = definitions;
    filter(collector)
}

#[test]
fn namespaces_are_recorded_at_their_first_declaration() {
    assert_eq!(
        name_prefixes_of("::Foo::Bar::BAZ"),
        vec!["::Foo", "::Foo::Bar", "::Foo::Bar::BAZ"]
    );
    assert_eq!(name_prefixes_of("::Foo"), vec!["::Foo"]);
    assert_eq!(name_prefixes_of("Foo::Bar"), vec!["Foo", "Foo::Bar"]);
    assert_eq!(name_prefixes_of(""), vec![""]);
    assert_eq!(name_prefixes_of("::"), vec!["::"]);
    assert_eq!(name_prefixes_of("a:::b"), vec!["a", "a:::b"]);
    let map = definition_to_location_map(&vec![
        definition("::Foo::Bar", 1, 0),
        definition("::Foo::Bar::BAZ", 2, 0),
        definition("::Foo", 3, 0),
    ]);
    let keys: Vec<&str> = map.iter().map(|(key, _)| key.as_str()).collect();
    assert_eq!(keys, vec!["::Foo", "::Foo::Bar", "::Foo::Bar::BAZ"]);
    assert_eq!(find_location(&map, &"::Foo".to_string()).unwrap().start_row, 1);
    assert_eq!(find_location(&map, &"::Foo::Bar".to_string()).unwrap().start_row, 1);
    assert_eq!(find_location(&map, &"::Foo::Bar::BAZ".to_string()).unwrap().start_row, 2);
    assert_eq!(find_location(&map, &"::Bar".to_string()), None);
}

#[test]
fn references_that_are_their_own_definition_are_dropped() {
    let definitions = vec![definition("::Foo", 1, 6), definition("::Foo::BAR", 2, 2)];
    let references = vec![
        reference("::Foo", &[], 1, 6),
        reference("BAR", &["Foo"], 3, 4),
        reference("Baz", &["Foo"], 4, 4),
        reference("Foo", &[], 5, 0),
        reference("::Foo::BAR", &[], 6, 0),
    ];
    let kept = filtered(references.clone(), definitions);
    assert_eq!(kept, references[1..].to_vec());
}

#[test]
fn a_declaration_is_dropped_as_a_reference_to_itself() {
    let references = vec![reference("::Foo", &[], 1, 6)];
    assert_eq!(
        filtered(references.clone(), vec![definition("::Foo", 1, 6)]),
        vec![]
    );
    // The place counts as a whole: a span that ends elsewhere is another place.
    let mut longer = definition("::Foo", 1, 6);
    longer.location.end_col = 20;
    assert_eq!(filtered(references.clone(), vec![longer]), references);
    assert_eq!(filtered(references.clone(), vec![]), references);
    assert_eq!(filtered(vec![], vec![definition("::Foo", 1, 6)]), vec![]);
}

#[test]
fn a_reference_stays_where_one_declaration_is_elsewhere() {
    // `Bar` inside `Foo` may stand for `::Foo::Bar` and for `::Bar`.
    let nested_only = vec![definition("::Foo::Bar", 1, 0)];
    let both = vec![definition("::Foo::Bar", 1, 0), definition("::Bar", 7, 0)];
    let at_nested_declaration = reference("Bar", &["Foo"], 1, 0);
    let at_root_declaration = reference("Bar", &["Foo"], 7, 0);
    assert_eq!(filtered(vec![at_nested_declaration.clone()], nested_only.clone()), vec![]);
    assert_eq!(
        filtered(vec![at_root_declaration.clone()], nested_only),
        vec![at_root_declaration.clone()]
    );
    assert_eq!(
        filtered(
            vec![at_root_declaration.clone(), at_nested_declaration.clone()],
            both
        ),
        vec![at_root_declaration, at_nested_declaration]
    );
}
