use lib_ruby_parser::traverse::visitor::Visitor;
use lib_ruby_parser::{nodes, Parser, ParserOptions};
use ruby_references::configuration::Configuration;
use ruby_references::parser::ast::{
    Casgn, Cbase, Class, Const, Kwargs, Loc, Module, Node, Other, Pair, Send, Str, Sym,
};
use ruby_references::parser::processor::{
    convert_erb_to_ruby_without_sourcemaps, process_file, ruby_from_captures, ruby_source,
    source_to_parse, SupportedFileType,
};
use ruby_references::parser::{ProcessedFile, Range};

const CLIENT_INVITATION: &str = "class ClientInvitation < ApplicationRecord
  include HasUuid
  belongs_to :accounting_firm

  class InvitationType < T::Enum
  end

  class InvitationTrigger < T::Enum
  end

  validates :invitation_type, inclusion: InvitationType.values
end
";

const APPLICATION_LAYOUT: &str = "<html>
  <body>
    <%= Admin::User.name %>
  </body>
</html>
";

/// The span of the `occurrence`-th `needle` in `contents`, counted from 0.
fn span(contents: &str, needle: &str, occurrence: usize) -> Loc {
    let (begin, _) = contents
        .match_indices(needle)
        .nth(occurrence)
        .expect("the text holds the needle");
    Loc {
        begin,
        end: begin + needle.len(),
    }
}

fn constant(contents: &str, name: &str, occurrence: usize) -> Node {
    Node::Const(Const {
        scope: None,
        name: name.to_string(),
        expression_l: span(contents, name, occurrence),
    })
}

fn scoped_constant(contents: &str, scope: &str, name: &str, occurrence: usize) -> Node {
    let whole = format!("{}::{}", scope, name);
    let expression_l = span(contents, &whole, occurrence);
    Node::Const(Const {
        scope: Some(Box::new(Node::Const(Const {
            scope: None,
            name: scope.to_string(),
            expression_l: Loc {
                begin: expression_l.begin,
                end: expression_l.begin + scope.len(),
            },
        }))),
        name: name.to_string(),
        expression_l,
    })
}

fn call(contents: &str, text: &str, recv: Option<Node>, method_name: &str, args: Vec<Node>) -> Node {
    Node::Send(Send {
        recv: recv.map(Box::new),
        method_name: method_name.to_string(),
        args,
        expression_l: span(contents, text, 0),
    })
}

fn symbol(name: &str) -> Node {
    Node::Sym(Sym {
        name: name.to_string(),
    })
}

/// The syntax tree of `CLIENT_INVITATION`.
fn client_invitation_tree() -> Node {
    let text = CLIENT_INVITATION;
    let body = Node::Other(Other {
        children: vec![
            call(
                text,
                "include HasUuid",
                None,
                "include",
                vec![constant(text, "HasUuid", 0)],
            ),
            call(
                text,
                "belongs_to :accounting_firm",
                None,
                "belongs_to",
                vec![symbol("accounting_firm")],
            ),
            Node::Class(Class {
                name: Box::new(constant(text, "InvitationType", 0)),
                superclass: Some(Box::new(scoped_constant(text, "T", "Enum", 0))),
                body: None,
            }),
            Node::Class(Class {
                name: Box::new(constant(text, "InvitationTrigger", 0)),
                superclass: Some(Box::new(scoped_constant(text, "T", "Enum", 1))),
                body: None,
            }),
            call(
                text,
                "validates :invitation_type, inclusion: InvitationType.values",
                None,
                "validates",
                vec![
                    symbol("invitation_type"),
                    Node::Kwargs(Kwargs {
                        pairs: vec![Node::Pair(Pair {
                            key: Box::new(symbol("inclusion")),
                            value: Box::new(call(
                                text,
                                "InvitationType.values",
                                Some(constant(text, "InvitationType", 1)),
                                "values",
                                vec![],
                            )),
                        })],
                    }),
                ],
            ),
        ],
    });
    Node::Class(Class {
        name: Box::new(constant(text, "ClientInvitation", 0)),
        superclass: Some(Box::new(constant(text, "ApplicationRecord", 0))),
        body: Some(Box::new(body)),
    })
}

/// The syntax tree of the Ruby inside the tags of `APPLICATION_LAYOUT`.
fn application_layout_tree(ruby: &str) -> Node {
    call(
        ruby,
        "Admin::User.name",
        Some(scoped_constant(ruby, "Admin", "User", 0)),
        "name",
        vec![],
    )
}

fn process(path: &str, include_self_references: bool) -> ProcessedFile {
    let configuration = Configuration {
        include_reference_is_definition: include_self_references,
        ..Default::default()
    };
    if path.ends_with(".erb") {
        let ruby = ruby_source(SupportedFileType::Erb, APPLICATION_LAYOUT);
        let tree = application_layout_tree(&ruby);
        process_file(path, &configuration, APPLICATION_LAYOUT, Some(&tree)).unwrap()
    } else {
        let tree = client_invitation_tree();
        process_file(path, &configuration, CLIENT_INVITATION, Some(&tree)).unwrap()
    }
}

#[test]
fn process_from_path() {
    let path = "tests/fixtures/small-app/app/models/client_invitation.rb";
    let processed_file = process(path, false);
    assert_eq!(Some(processed_file.absolute_path.as_str()), Some(path));
    assert_eq!(processed_file.unresolved_references.len(), 6);
    let reference_names: Vec<&str> = processed_file
        .unresolved_references
        .iter()
        .map(|r| r.name.as_str())
        .collect();
    assert_eq!(
        reference_names,
        vec![
            "ApplicationRecord",
            "HasUuid",
            "AccountingFirm",
            "T::Enum",
            "T::Enum",
            "InvitationType"
        ]
    );
}

#[test]
fn process_from_path_with_self_references() {
    let path = "tests/fixtures/small-app/app/models/client_invitation.rb";
    let processed_file = process(path, true);
    assert_eq!(Some(processed_file.absolute_path.as_str()), Some(path));
    assert_eq!(processed_file.unresolved_references.len(), 9);
    let reference_names: Vec<&str> = processed_file
        .unresolved_references
        .iter()
        .map(|r| r.name.as_str())
        .collect();
    assert_eq!(
        reference_names,
        vec![
            "ApplicationRecord",
            "::ClientInvitation",
            "HasUuid",
            "AccountingFirm",
            "T::Enum",
            "::ClientInvitation::InvitationType",
            "T::Enum",
            "::ClientInvitation::InvitationTrigger",
            "InvitationType"
        ]
    );
}

#[test]
fn process_erb_file() {
    let processed_file = process(
        "tests/fixtures/small-app/app/views/layouts/application.html.erb",
        false,
    );
    assert_eq!(processed_file.unresolved_references.len(), 1);
    assert_eq!(processed_file.unresolved_references[0].name, "Admin::User");
}

#[test]
fn erb_tags_are_joined_by_line_breaks() {
    let template = "<p><%= Foo.bar %></p>\n<% if Baz %>\n  <%- Qux -%>\n<% end %>";
    assert_eq!(
        convert_erb_to_ruby_without_sourcemaps(template),
        "Foo.bar\nif Baz\nQux\nend"
    );
    assert_eq!(
        ruby_source(SupportedFileType::Erb, APPLICATION_LAYOUT),
        "Admin::User.name"
    );
    assert_eq!(ruby_source(SupportedFileType::Ruby, template), template);
    assert_eq!(convert_erb_to_ruby_without_sourcemaps("no tags"), "");
}

#[test]
fn references_carry_rows_and_columns() {
    let processed_file = process(
        "tests/fixtures/small-app/app/models/client_invitation.rb",
        true,
    );
    let references = &processed_file.unresolved_references;
    // `ApplicationRecord` stands in the first row, behind `class ClientInvitation < `.
    assert_eq!(
        references[0].location,
        Range {
            start_row: 1,
            start_col: 25,
            end_row: 1,
            end_col: 42
        }
    );
    assert_eq!(references[0].namespace_path, Vec::<String>::new());
    // The declaration of the class is a reference at the place of its name.
    assert_eq!(
        references[1].location,
        Range {
            start_row: 1,
            start_col: 6,
            end_row: 1,
            end_col: 22
        }
    );
    // `belongs_to :accounting_firm` spans its whole call, in the third row.
    assert_eq!(
        references[3].location,
        Range {
            start_row: 3,
            start_col: 2,
            end_row: 3,
            end_col: 29
        }
    );
    assert_eq!(references[3].namespace_path, vec!["ClientInvitation"]);
    // A superclass is reported with the nesting of its class.
    assert_eq!(references[4].namespace_path, vec!["ClientInvitation"]);
    assert_eq!(references[5].namespace_path, vec!["ClientInvitation"]);
    assert_eq!(references[8].location.start_row, 11);
    assert_eq!(references[8].location.start_col, 41);
}

#[test]
fn unknown_file_types_hold_no_references() {
    let tree = client_invitation_tree();
    let configuration = Configuration::default();
    let processed_file =
        process_file("tests/fixtures/my.rs", &configuration, CLIENT_INVITATION, Some(&tree)).unwrap();
    assert_eq!(processed_file.absolute_path, "tests/fixtures/my.rs");
    assert!(processed_file.unresolved_references.is_empty());
}

#[test]
fn unparsable_files_hold_no_references() {
    let configuration = Configuration::default();
    let processed_file = process_file("broken.rb", &configuration, "class", None).unwrap();
    assert_eq!(processed_file.absolute_path, "broken.rb");
    assert!(processed_file.unresolved_references.is_empty());
}

#[test]
fn a_tree_that_does_not_fit_the_text_is_refused() {
    let tree = client_invitation_tree();
    let configuration = Configuration::default();
    assert!(process_file("short.rb", &configuration, "class A; end", Some(&tree)).is_err());
}

fn loc(loc: &lib_ruby_parser::Loc) -> Loc {
    Loc {
        begin: loc.begin,
        end: loc.end,
    }
}

fn convert_optional(node: &Option<Box<lib_ruby_parser::Node>>) -> Option<Box<Node>> {
    node.as_ref().map(|inner| Box::new(convert(inner)))
}

fn convert_class(node: &nodes::Class) -> Node {
    Node::Class(Class {
        name: Box::new(convert(&node.name)),
        superclass: convert_optional(&node.superclass),
        body: convert_optional(&node.body),
    })
}

fn convert_module(node: &nodes::Module) -> Node {
    Node::Module(Module {
        name: Box::new(convert(&node.name)),
        body: convert_optional(&node.body),
    })
}

fn convert_const(node: &nodes::Const) -> Node {
    Node::Const(Const {
        scope: convert_optional(&node.scope),
        name: node.name.clone(),
        expression_l: loc(&node.expression_l),
    })
}

fn convert_casgn(node: &nodes::Casgn) -> Node {
    Node::Casgn(Casgn {
        scope: convert_optional(&node.scope),
        name: node.name.clone(),
        value: convert_optional(&node.value),
        expression_l: loc(&node.expression_l),
    })
}

fn convert_send(node: &nodes::Send) -> Node {
    Node::Send(Send {
        recv: convert_optional(&node.recv),
        method_name: node.method_name.clone(),
        args: node.args.iter().map(convert).collect(),
        expression_l: loc(&node.expression_l),
    })
}

/// The parser's tree as the tree that references are read from.
fn convert(node: &lib_ruby_parser::Node) -> Node {
    match node {
        lib_ruby_parser::Node::Class(inner) => convert_class(inner),
        lib_ruby_parser::Node::Module(inner) => convert_module(inner),
        lib_ruby_parser::Node::Const(inner) => convert_const(inner),
        lib_ruby_parser::Node::Cbase(inner) => Node::Cbase(Cbase {
            expression_l: loc(&inner.expression_l),
        }),
        lib_ruby_parser::Node::Casgn(inner) => convert_casgn(inner),
        lib_ruby_parser::Node::Send(inner) => convert_send(inner),
        lib_ruby_parser::Node::Kwargs(inner) => Node::Kwargs(Kwargs {
            pairs: inner.pairs.iter().map(convert).collect(),
        }),
        lib_ruby_parser::Node::Pair(inner) => Node::Pair(Pair {
            key: Box::new(convert(&inner.key)),
            value: Box::new(convert(&inner.value)),
        }),
        lib_ruby_parser::Node::Sym(inner) => Node::Sym(Sym {
            name: inner.name.to_string_lossy(),
        }),
        lib_ruby_parser::Node::Str(inner) => Node::Str(Str {
            value: inner.value.to_string_lossy(),
        }),
        other => {
            let mut below = Below { children: vec![] };
            below.visit(other);
            Node::Other(Other {
                children: below.children,
            })
        }
    }
}

struct Below {
    children: Vec<Node>,
}

impl Visitor for Below {
    fn on_class(&mut self, node: &nodes::Class) {
        self.children.push(convert_class(node));
    }

    fn on_module(&mut self, node: &nodes::Module) {
        self.children.push(convert_module(node));
    }

    fn on_const(&mut self, node: &nodes::Const) {
        self.children.push(convert_const(node));
    }

    fn on_casgn(&mut self, node: &nodes::Casgn) {
        self.children.push(convert_casgn(node));
    }

    fn on_send(&mut self, node: &nodes::Send) {
        self.children.push(convert_send(node));
    }
}

fn parse(contents: &str) -> Option<Node> {
    let options = ParserOptions {
        buffer_name: "".to_string(),
        ..Default::default()
    };
    Parser::new(contents, options)
        .do_parse()
        .ast
        .map(|ast| convert(&ast))
}

#[test]
fn the_trees_are_those_of_the_parser() {
    assert_eq!(parse(CLIENT_INVITATION), Some(client_invitation_tree()));
    let ruby = ruby_source(SupportedFileType::Erb, APPLICATION_LAYOUT);
    assert_eq!(parse(&ruby), Some(application_layout_tree(&ruby)));
}

#[test]
fn parsed_files_give_their_references() {
    let contents = "module Api\n  class KeysController < ApplicationController\n    has_many :api_keys, class_name: \"Api::Key\"\n    LIMIT = Settings.limit\n\n    def index\n      render json: Key.all.limit(LIMIT)\n    end\n  end\nend\n";
    let tree = parse(contents).unwrap();
    let configuration = Configuration {
        include_reference_is_definition: true,
        ..Default::default()
    };
    let processed_file = process_file("api.rb", &configuration, contents, Some(&tree)).unwrap();
    let summary: Vec<(&str, Vec<&str>, usize, usize)> = processed_file
        .unresolved_references
        .iter()
        .map(|r| {
            (
                r.name.as_str(),
                r.namespace_path.iter().map(|n| n.as_str()).collect(),
                r.location.start_row,
                r.location.start_col,
            )
        })
        .collect();
    assert_eq!(
        summary,
        vec![
            ("::Api", vec![], 1, 7),
            ("ApplicationController", vec!["Api"], 2, 25),
            ("::Api::KeysController", vec!["Api"], 2, 8),
            ("Api::Key", vec!["Api", "KeysController"], 3, 4),
            ("Settings", vec!["Api", "KeysController"], 4, 12),
            ("Key", vec!["Api", "KeysController"], 7, 19),
            ("LIMIT", vec!["Api", "KeysController"], 7, 33),
        ]
    );
    let filtered = process_file("api.rb", &Configuration::default(), contents, Some(&tree)).unwrap();
    let names: Vec<&str> = filtered
        .unresolved_references
        .iter()
        .map(|r| r.name.as_str())
        .collect();
    assert_eq!(
        names,
        vec![
            "ApplicationController",
            "Api::Key",
            "Settings",
            "Key",
            "LIMIT"
        ]
    );
    assert_eq!(parse("class"), None);
}

#[test]
fn a_preprocessed_file_holds_references_and_definitions() {
    let tree = client_invitation_tree();
    let configuration = Configuration::default();
    let path = "tests/fixtures/small-app/app/models/client_invitation.rb";
    let file = ruby_references::preprocess::process_file(
        path,
        &configuration,
        CLIENT_INVITATION,
        Some(&tree),
    )
    .unwrap();
    assert_eq!(file.absolute_path, path);
    assert_eq!(file.unresolved_references.len(), 9);
    let defined: Vec<(&str, usize)> = file
        .definitions
        .iter()
        .map(|d| (d.fully_qualified_name.as_str(), d.location.start_row))
        .collect();
    assert_eq!(
        defined,
        vec![
            ("::ClientInvitation", 1),
            ("::ClientInvitation::InvitationType", 5),
            ("::ClientInvitation::InvitationTrigger", 8)
        ]
    );
    let unknown =
        ruby_references::preprocess::process_file("a.txt", &configuration, "Foo", Some(&tree))
            .unwrap();
    assert!(unknown.unresolved_references.is_empty() && unknown.definitions.is_empty());
    assert!(
        ruby_references::preprocess::process_file("a.rb", &configuration, "Foo", Some(&tree))
            .is_err()
    );
}

#[test]
fn every_reference_has_a_name_and_a_place() {
    for include_self_references in [false, true] {
        let processed_file = process(
            "tests/fixtures/small-app/app/models/client_invitation.rb",
            include_self_references,
        );
        for reference in &processed_file.unresolved_references {
            assert!(!reference.name.is_empty());
            let location = &reference.location;
            assert!(location.start_row >= 1);
            assert!(
                (location.start_row, location.start_col) < (location.end_row, location.end_col)
            );
        }
    }
}

#[test]
fn captures_are_joined_one_per_line() {
    let captures = vec![
        Some("Foo.bar".to_string()),
        None,
        Some(String::new()),
        Some("end".to_string()),
    ];
    assert_eq!(ruby_from_captures(Some(captures)), "Foo.bar\n\n\nend");
    assert_eq!(ruby_from_captures(Some(vec![Some("one".to_string())])), "one");
    assert_eq!(ruby_from_captures(Some(vec![])), "");
    assert_eq!(ruby_from_captures(None), "");
}

#[test]
fn the_text_to_parse_depends_on_the_kind_of_file() {
    let configuration = Configuration::default();
    assert_eq!(
        source_to_parse("a.rb", &configuration, APPLICATION_LAYOUT),
        Some(APPLICATION_LAYOUT.to_string())
    );
    assert_eq!(
        source_to_parse("a.html.erb", &configuration, APPLICATION_LAYOUT),
        Some("Admin::User.name".to_string())
    );
    assert_eq!(source_to_parse("a.txt", &configuration, APPLICATION_LAYOUT), None);
    let narrow = Configuration {
        ruby_extensions: vec!["ruby".to_string()],
        ruby_special_files: vec!["config/Rubyfile".to_string()],
        ..Default::default()
    };
    assert_eq!(source_to_parse("a.rb", &narrow, "A"), None);
    assert_eq!(source_to_parse("a.ruby", &narrow, "A"), Some("A".to_string()));
    assert_eq!(source_to_parse("x/config/Rubyfile", &narrow, "A"), Some("A".to_string()));
    assert_eq!(source_to_parse("x/Rubyfile", &narrow, "A"), None);
}

#[test]
fn scoped_names_and_other_syntax_are_read_as_written() {
    let contents = "# encoding: utf-8\nmodule A::B\n  NAME = [\"\u{e9}\", Q]\n  class C < ::Base\n    X::Y = Z\n    has_many :items, class_name: \"A::Item\"\n    def call\n      ::Top.new(NAME, self.class::Inner)\n    end\n  end\nend\n";
    let tree = parse(contents).unwrap();
    let configuration = Configuration {
        include_reference_is_definition: true,
        ..Default::default()
    };
    let file = ruby_references::preprocess::process_file("a.rb", &configuration, contents, Some(&tree))
        .unwrap();
    let summary: Vec<(&str, Vec<&str>, usize, usize)> = file
        .unresolved_references
        .iter()
        .map(|r| {
            (
                r.name.as_str(),
                r.namespace_path.iter().map(|n| n.as_str()).collect(),
                r.location.start_row,
                r.location.start_col,
            )
        })
        .collect();
    assert_eq!(
        summary,
        vec![
            ("::A::B", vec![], 2, 7),
            // The column counts bytes: the letter before `Q` takes two.
            ("Q", vec!["A::B"], 3, 16),
            ("::Base", vec!["A::B"], 4, 12),
            ("::A::B::C", vec!["A::B"], 4, 8),
            ("Z", vec!["A::B", "C"], 5, 11),
            ("A::Item", vec!["A::B", "C"], 6, 4),
            ("::Top", vec!["A::B", "C"], 8, 6),
            ("NAME", vec!["A::B", "C"], 8, 16),
        ]
    );
    let defined: Vec<&str> = file
        .definitions
        .iter()
        .map(|d| d.fully_qualified_name.as_str())
        .collect();
    assert_eq!(
        defined,
        vec!["::A::B", "::A::B::NAME", "::A::B::C", "::A::B::C::X::Y"]
    );
    let filtered = process_file("a.rb", &Configuration::default(), contents, Some(&tree)).unwrap();
    let names: Vec<&str> = filtered
        .unresolved_references
        .iter()
        .map(|r| r.name.as_str())
        .collect();
    assert_eq!(
        names,
        vec!["Q", "::Base", "Z", "A::Item", "::Top", "NAME"]
    );
}

#[test]
fn a_lone_declaration_refers_to_nothing_but_itself() {
    let contents = "class Foo; end";
    let tree = parse(contents).unwrap();
    let by_default = process_file("foo.rb", &Configuration::default(), contents, Some(&tree)).unwrap();
    assert_eq!(
        by_default,
        ProcessedFile {
            absolute_path: "foo.rb".to_string(),
            unresolved_references: vec![]
        }
    );
    let configuration = Configuration {
        include_reference_is_definition: true,
        ..Default::default()
    };
    let with_itself = process_file("foo.rb", &configuration, contents, Some(&tree)).unwrap();
    assert_eq!(with_itself.unresolved_references.len(), 1);
    assert_eq!(with_itself.unresolved_references[0].name, "::Foo");
    // Rows count from 1, columns from 0, and the end is exclusive.
    assert_eq!(
        with_itself.unresolved_references[0].location,
        Range {
            start_row: 1,
            start_col: 6,
            end_row: 1,
            end_col: 9
        }
    );
}
