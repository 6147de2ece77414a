//! From the contents of one file to the references found in it.

use vstd::prelude::*;
use vstd::string::StringSliceAdditionalSpecFns;
use regex::Regex;
use crate::configuration::Configuration;
use crate::parser::ast::{Class, Node};
use crate::parser::collector::{
    all_sound,
    collect,
    collect_class,
    collect_optional,
    const_name,
    definition_name,
    entered,
    range_of,
    span_of,
    is_filled,
    is_placed,
    is_sound,
    lemma_asks_nothing,
    lemma_collect_sound,
    reported_well,
    CollectorModel,
    ReferenceCollector,
};
use crate::parser::self_reference_filterer::{
    filter,
    kept_references,
    lemma_kept_are_among,
    lemma_own_declaration_is_dropped,
};
use crate::parser::{ProcessedFile, ProcessedFileModel, UnresolvedReference};
use crate::paths::{ends_with_path, extension, extension_of, path_ends_with};
use crate::text::{byte_len, clone_strings, contains_text, join, join_strings, same_text};

verus! {

/// The kinds of file that references are read from.
#[derive(Debug, PartialEq, Eq, Clone, Copy, Structural)]
pub enum SupportedFileType {
    /// Ruby source.
    Ruby,
    /// A template with Ruby between `<%` and `%>`.
    Erb,
}

/// Does one of `names` spell the last components of `path`?
pub open spec fn ends_with_any(path: Seq<char>, names: Seq<Seq<char>>) -> bool {
    exists|i: int| 0 <= i < names.len() && ends_with_path(path, #[trigger] names[i])
}

/// The kind of the file at `path`: a template where its extension is `erb`;
/// else Ruby where its extension is one of `ruby_extensions` or its last
/// components spell one of `ruby_special_files`; else none.
pub open spec fn file_type_of(
    path: Seq<char>,
    ruby_extensions: Seq<Seq<char>>,
    ruby_special_files: Seq<Seq<char>>,
) -> Option<SupportedFileType> {
    if extension(path) == Some("erb"@) {
        Some(SupportedFileType::Erb)
    } else if (extension(path) is Some && ruby_extensions.contains(extension(path)->0))
        || ends_with_any(path, ruby_special_files) {
        Some(SupportedFileType::Ruby)
    } else {
        None
    }
}

/// Does one of `names` spell the last components of `path`?
fn ends_with_one_of(path: &str, names: &Vec<String>) -> (r: bool)
    ensures
        r == ends_with_any(path@, names.deep_view()),
{
    let ghost all = names.deep_view();
    let mut i: usize = 0;
    while i < names.len()
        invariant
            i <= names.len(),
            all == names.deep_view(),
            forall|j: int| 0 <= j < i ==> !ends_with_path(path@, #[trigger] all[j]),
        decreases names.len() - i,
    {
        if path_ends_with(path, names[i].as_str()) {
            assert(ends_with_path(path@, all[i as int]));
            return true;
        }
        i += 1;
    }
    false
}

/// The kind of the file at `path` under `configuration`.
pub fn get_file_type(path: &str, configuration: &Configuration) -> (r: Option<SupportedFileType>)
    ensures
        r == file_type_of(
            path@,
            configuration.ruby_extensions.deep_view(),
            configuration.ruby_special_files.deep_view(),
        ),
{
    let extension = extension_of(path);
    let is_ruby_extension = match &extension {
        Some(ext) => {
            if same_text(ext.as_str(), "erb") {
                return Some(SupportedFileType::Erb);
            }
            contains_text(&configuration.ruby_extensions, ext)
        },
        None => false,
    };
    if is_ruby_extension || ends_with_one_of(path, &configuration.ruby_special_files) {
        Some(SupportedFileType::Ruby)
    } else {
        None
    }
}

/// What the first group of the regular expression `pattern` captures in each
/// of its successive matches in `haystack`, `None` standing for a match in
/// which the group took no part; `None` for a pattern that is no regular expression.
pub uninterp spec fn first_group_captures(pattern: Seq<char>, haystack: Seq<char>) -> Option<
    Seq<Option<Seq<char>>>,
>;

/// `Regex::new` of the crate regex, then `Regex::captures_iter` on `haystack`
/// and `Captures::get(1)` on each match: the text of the first capture group
/// in each of the successive non-overlapping matches. Nothing is claimed of
/// the result but that it depends on the pattern and the text alone.
#[verifier::external_body]
fn capture_first_group(pattern: &str, haystack: &str) -> (r: Option<Vec<Option<String>>>)
    ensures
        r.deep_view() == first_group_captures(pattern@, haystack@),
{
    match Regex::new(pattern) {
        Ok(regex) => Some(
            regex.captures_iter(haystack).map(
                |capture| capture.get(1).map(|m| m.as_str().to_string()),
            ).collect(),
        ),
        Err(_) => None,
    }
}

/// The regular expression for one template tag, `<% ... %>`, `<%= ... %>` or
/// `<%- ... -%>`, whose first group is the Ruby inside the tag without the
/// blanks around it.
pub open spec fn erb_pattern() -> Seq<char> {
    r"(?s)<%=?-?\s*(.*?)\s*-?%>"@
}

/// The line break as a text.
pub open spec fn line_break() -> Seq<char> {
    "\n"@
}

/// The captured texts, with nothing for a group that took no part.
pub open spec fn captured_texts(captures: Seq<Option<Seq<char>>>) -> Seq<Seq<char>> {
    Seq::new(
        captures.len(),
        |i: int|
            match captures[i] {
                Some(text) => text,
                None => Seq::empty(),
            },
    )
}

/// The Ruby of a template, given what its tags hold: the insides of the tags, one per line.
pub open spec fn ruby_of_captures(captures: Option<Seq<Option<Seq<char>>>>) -> Seq<char> {
    match captures {
        Some(found) => join(captured_texts(found), line_break()),
        None => Seq::empty(),
    }
}

/// The Ruby of a template, given what its tags hold.
pub fn ruby_from_captures(captures: Option<Vec<Option<String>>>) -> (r: String)
    ensures
        r@ == ruby_of_captures(captures.deep_view()),
{
    match captures {
        None => String::new(),
        Some(found) => {
            let mut texts: Vec<String> = Vec::new();
            let ghost all = found.deep_view();
            let mut i: usize = 0;
            while i < found.len()
                invariant
                    i <= found.len(),
                    all == found.deep_view(),
                    texts.deep_view() == captured_texts(all).take(i as int),
                decreases found.len() - i,
            {
                let ghost before = texts.deep_view();
                let text = match &found[i] {
                    Some(text) => text.clone(),
                    None => String::new(),
                };
                assert(text@ == captured_texts(all)[i as int]);
                texts.push(text);
                assert(texts.deep_view() =~= before.push(text@));
                i += 1;
                assert(texts.deep_view() =~= captured_texts(all).take(i as int));
            }
            assert(captured_texts(all).take(found.len() as int) =~= captured_texts(all));
            join_strings(&texts, "\n")
        },
    }
}

/// The Ruby of a template: the insides of its tags, one per line. The places
/// of the tags in the template are lost.
pub fn convert_erb_to_ruby_without_sourcemaps(contents: &str) -> (r: String)
    ensures
        r@ == ruby_of_captures(first_group_captures(erb_pattern(), contents@)),
{
    let captures = capture_first_group(r"(?s)<%=?-?\s*(.*?)\s*-?%>", contents);
    ruby_from_captures(captures)
}

/// The text that is parsed for a file of the kind `file_type` with these contents.
pub open spec fn ruby_source_of(file_type: SupportedFileType, contents: Seq<char>) -> Seq<char> {
    match file_type {
        SupportedFileType::Ruby => contents,
        SupportedFileType::Erb => ruby_of_captures(first_group_captures(erb_pattern(), contents)),
    }
}

/// The text that is parsed for a file of the kind `file_type` with these contents.
pub fn ruby_source(file_type: SupportedFileType, contents: &str) -> (r: String)
    ensures
        r@ == ruby_source_of(file_type, contents@),
{
    match file_type {
        SupportedFileType::Ruby => contents.to_owned(),
        SupportedFileType::Erb => convert_erb_to_ruby_without_sourcemaps(contents),
    }
}

/// The state of a collector at the start of a walk.
pub open spec fn fresh_collector(
    source: Seq<u8>,
    custom_associations: Seq<Seq<char>>,
    acronyms: Seq<Seq<char>>,
) -> CollectorModel {
    CollectorModel {
        references: Seq::empty(),
        definitions: Seq::empty(),
        current_namespaces: Seq::empty(),
        source,
        in_superclass: false,
        superclasses: Seq::empty(),
        custom_associations,
        acronyms,
    }
}

/// The references of a file whose text `source` has been parsed to `ast`: none
/// where it did not parse; else those collected on a walk over the tree,
/// without the references that are their own definitions unless
/// `include_reference_is_definition` asks for them.
pub open spec fn references_in(
    source: Seq<u8>,
    ast: Option<Node>,
    custom_associations: Seq<Seq<char>>,
    acronyms: Seq<Seq<char>>,
    include_reference_is_definition: bool,
) -> Seq<crate::parser::UnresolvedReferenceModel> {
    match ast {
        None => Seq::empty(),
        Some(tree) => {
            let collected = collect(fresh_collector(source, custom_associations, acronyms), tree);
            if include_reference_is_definition {
                collected.references
            } else {
                kept_references(collected.references, collected.definitions)
            }
        },
    }
}

/// The references of the file at `path`, whose text `contents` has been parsed
/// to `ast` (`None` where it did not parse).
pub fn process_from_contents(
    contents: &str,
    ast: Option<&Node>,
    path: &str,
    configuration: &Configuration,
) -> (r: ProcessedFile)
    requires
        ast matches Some(tree) ==> tree.within(contents.spec_bytes().len() as int),
    ensures
        r.deep_view() == (ProcessedFileModel {
            absolute_path: path@,
            unresolved_references: references_in(
                contents.spec_bytes(),
                match ast {
                    Some(tree) => Some(*tree),
                    None => None,
                },
                configuration.custom_associations.deep_view(),
                configuration.acronyms.deep_view(),
                configuration.include_reference_is_definition,
            ),
        }),
{
    let tree = match ast {
        Some(tree) => tree,
        None => {
            let unresolved_references: Vec<UnresolvedReference> = Vec::new();
            assert(unresolved_references.deep_view() =~= Seq::empty());
            return ProcessedFile { absolute_path: path.to_owned(), unresolved_references };
        },
    };
    let mut collector = ReferenceCollector::new(
        contents,
        clone_strings(&configuration.custom_associations),
        clone_strings(&configuration.acronyms),
    );
    collector.visit(tree);
    let unresolved_references = if configuration.include_reference_is_definition {
        collector.references
    } else {
        filter(collector)
    };
    ProcessedFile { absolute_path: path.to_owned(), unresolved_references }
}

/// Why no references could be read from a file.
#[derive(Debug, PartialEq, Eq, Clone, Copy, Structural)]
pub enum ProcessError {
    /// The syntax tree holds a span that ends before it begins, or behind the end of the parsed text.
    TreeOutsideText,
}

/// The file at `path` with no references.
pub open spec fn without_references(path: Seq<char>) -> ProcessedFileModel {
    ProcessedFileModel { absolute_path: path, unresolved_references: Seq::empty() }
}

/// What processing the file at `path` gives: nothing for a file of no known
/// kind; for any other the references read from the tree `ast` of its parsed
/// text, which for a template is the Ruby inside its tags.
pub open spec fn processed_file(
    path: Seq<char>,
    contents: Seq<char>,
    ast: Option<Node>,
    ruby_extensions: Seq<Seq<char>>,
    ruby_special_files: Seq<Seq<char>>,
    custom_associations: Seq<Seq<char>>,
    acronyms: Seq<Seq<char>>,
    include_reference_is_definition: bool,
) -> ProcessedFileModel {
    match file_type_of(path, ruby_extensions, ruby_special_files) {
        None => without_references(path),
        Some(file_type) => ProcessedFileModel {
            absolute_path: path,
            unresolved_references: references_in(
                vstd::utf8::encode_utf8(ruby_source_of(file_type, contents)),
                ast,
                custom_associations,
                acronyms,
                include_reference_is_definition,
            ),
        },
    }
}

/// Does the tree fit the text that is parsed for the file at `path`? Every
/// tree fits a file of no known kind, which is not parsed at all.
pub open spec fn tree_fits(
    path: Seq<char>,
    contents: Seq<char>,
    ast: Option<Node>,
    ruby_extensions: Seq<Seq<char>>,
    ruby_special_files: Seq<Seq<char>>,
) -> bool {
    match (file_type_of(path, ruby_extensions, ruby_special_files), ast) {
        (Some(file_type), Some(tree)) => tree.within(
            vstd::utf8::encode_utf8(ruby_source_of(file_type, contents)).len() as int,
        ),
        _ => true,
    }
}

/// The text that is parsed for the file at `path` with the contents
/// `contents`: none for a file of no known kind, the Ruby inside its tags for
/// a template, the contents themselves for a Ruby file.
pub fn source_to_parse(path: &str, configuration: &Configuration, contents: &str) -> (r: Option<
    String,
>)
    ensures
        r.deep_view() == match file_type_of(
            path@,
            configuration.ruby_extensions.deep_view(),
            configuration.ruby_special_files.deep_view(),
        ) {
            Some(file_type) => Some(ruby_source_of(file_type, contents@)),
            None => None,
        },
{
    match get_file_type(path, configuration) {
        Some(file_type) => Some(ruby_source(file_type, contents)),
        None => None,
    }
}

/// The references of the file at `path` with the contents `contents`, where
/// `ast` is the syntax tree of the text that is parsed for it (see
/// [`source_to_parse`]), or `None` where that text does not parse. A tree that
/// does not fit that text is refused.
pub fn process_file(
    path: &str,
    configuration: &Configuration,
    contents: &str,
    ast: Option<&Node>,
) -> (r: Result<ProcessedFile, ProcessError>)
    ensures
        match r {
            Ok(file) => {
                &&& tree_fits(
                    path@,
                    contents@,
                    match ast {
                        Some(tree) => Some(*tree),
                        None => None,
                    },
                    configuration.ruby_extensions.deep_view(),
                    configuration.ruby_special_files.deep_view(),
                )
                &&& file.deep_view() == processed_file(
                    path@,
                    contents@,
                    match ast {
                        Some(tree) => Some(*tree),
                        None => None,
                    },
                    configuration.ruby_extensions.deep_view(),
                    configuration.ruby_special_files.deep_view(),
                    configuration.custom_associations.deep_view(),
                    configuration.acronyms.deep_view(),
                    configuration.include_reference_is_definition,
                )
            },
            Err(_) => !tree_fits(
                path@,
                contents@,
                match ast {
                    Some(tree) => Some(*tree),
                    None => None,
                },
                configuration.ruby_extensions.deep_view(),
                configuration.ruby_special_files.deep_view(),
            ),
        },
{
    match source_to_parse(path, configuration, contents) {
        None => {
            let unresolved_references: Vec<UnresolvedReference> = Vec::new();
            assert(unresolved_references.deep_view() =~= Seq::empty());
            Ok(ProcessedFile { absolute_path: path.to_owned(), unresolved_references })
        },
        Some(source) => {
            if let Some(tree) = ast {
                if !tree.is_within(byte_len(source.as_str())) {
                    return Err(ProcessError::TreeOutsideText);
                }
            }
            Ok(process_from_contents(source.as_str(), ast, path, configuration))
        },
    }
}

/// What is read from a tree whose walk is reported well is sound.
proof fn lemma_references_in_are_sound(
    source: Seq<u8>,
    tree: Node,
    custom_associations: Seq<Seq<char>>,
    acronyms: Seq<Seq<char>>,
    include_reference_is_definition: bool,
    names: bool,
    filled: bool,
)
    requires
        tree.within(source.len() as int),
        source.len() < usize::MAX,
        reported_well(tree, custom_associations, acronyms, names, filled),
    ensures
        all_sound(
            references_in(
                source,
                Some(tree),
                custom_associations,
                acronyms,
                include_reference_is_definition,
            ),
            names,
            filled,
        ),
{
    let start = fresh_collector(source, custom_associations, acronyms);
    lemma_collect_sound(start, tree, names, filled);
    let collected = collect(start, tree);
    assert(collected.source == source);
    if !include_reference_is_definition {
        let kept = kept_references(collected.references, collected.definitions);
        assert forall|i: int| 0 <= i < kept.len() implies is_sound(
            #[trigger] kept[i],
            names,
            filled,
        ) by {
            lemma_kept_are_among(collected.references, collected.definitions, i);
        }
    }
}

/// Every reference read from a file has a place in the text: it begins in a
/// row from 1 on and does not end before its beginning. This holds of every
/// tree whose spans are spans of the text.
pub proof fn lemma_references_are_placed(
    source: Seq<u8>,
    tree: Node,
    custom_associations: Seq<Seq<char>>,
    acronyms: Seq<Seq<char>>,
    include_reference_is_definition: bool,
)
    requires
        tree.within(source.len() as int),
        source.len() < usize::MAX,
    ensures
        forall|i: int|
            0 <= i < references_in(
                source,
                Some(tree),
                custom_associations,
                acronyms,
                include_reference_is_definition,
            ).len() ==> is_placed(
                (#[trigger] references_in(
                    source,
                    Some(tree),
                    custom_associations,
                    acronyms,
                    include_reference_is_definition,
                )[i]).location,
            ),
{
    lemma_asks_nothing(tree, custom_associations, acronyms);
    lemma_references_in_are_sound(
        source,
        tree,
        custom_associations,
        acronyms,
        include_reference_is_definition,
        false,
        false,
    );
}

/// Every reference read from a file has a name that is not empty, where
/// every constant and association that the walk meets is named; and it ends
/// behind its beginning, where no span that the walk reports is empty.
pub proof fn lemma_references_are_sound(
    source: Seq<u8>,
    tree: Node,
    custom_associations: Seq<Seq<char>>,
    acronyms: Seq<Seq<char>>,
    include_reference_is_definition: bool,
    names: bool,
    filled: bool,
)
    requires
        tree.within(source.len() as int),
        source.len() < usize::MAX,
        reported_well(tree, custom_associations, acronyms, names, filled),
    ensures
        forall|i: int|
            0 <= i < references_in(
                source,
                Some(tree),
                custom_associations,
                acronyms,
                include_reference_is_definition,
            ).len() ==> {
                let reference = #[trigger] references_in(
                    source,
                    Some(tree),
                    custom_associations,
                    acronyms,
                    include_reference_is_definition,
                )[i];
                &&& names ==> reference.name.len() > 0
                &&& filled ==> is_filled(reference.location)
            },
{
    lemma_references_in_are_sound(
        source,
        tree,
        custom_associations,
        acronyms,
        include_reference_is_definition,
        names,
        filled,
    );
}

/// With `include_reference_is_definition`, a file keeps every reference that
/// the walk over its tree collects.
pub proof fn lemma_self_references_included(
    source: Seq<u8>,
    tree: Node,
    custom_associations: Seq<Seq<char>>,
    acronyms: Seq<Seq<char>>,
)
    ensures
        references_in(source, Some(tree), custom_associations, acronyms, true) == collect(
            fresh_collector(source, custom_associations, acronyms),
            tree,
        ).references,
{
}

/// A file that holds nothing but the declaration of one class, a class
/// without superclass and body, gives no reference unless
/// `include_reference_is_definition` asks for the one that the declaration
/// makes to itself.
pub proof fn lemma_lone_declaration_is_dropped(
    source: Seq<u8>,
    class: Class,
    custom_associations: Seq<Seq<char>>,
    acronyms: Seq<Seq<char>>,
)
    requires
        const_name(*class.name) is Some,
        class.superclass is None,
        class.body is None,
    ensures
        references_in(source, Some(Node::Class(class)), custom_associations, acronyms, false)
            == Seq::<crate::parser::UnresolvedReferenceModel>::empty(),
        references_in(source, Some(Node::Class(class)), custom_associations, acronyms, true).len()
            == 1,
{
    let start = fresh_collector(source, custom_associations, acronyms);
    let name = const_name(*class.name)->0;
    let location = range_of(source, span_of(*class.name));
    let inside = entered(start, name, location);
    assert(collect_optional(inside, class.body) == inside);
    let collected = collect(start, Node::Class(class));
    assert(collected == collect_class(start, class));
    assert(collected.references == inside.references);
    assert(collected.definitions == inside.definitions);
    let fully_qualified_name = definition_name(start.current_namespaces, name);
    let reference = crate::parser::UnresolvedReferenceModel {
        name: fully_qualified_name,
        namespace_path: start.current_namespaces,
        location,
    };
    let definition = crate::parser::ParsedDefinitionModel { fully_qualified_name, location };
    assert(collected.references =~= seq![reference]);
    assert(collected.definitions =~= seq![definition]);
    assert(fully_qualified_name.take(2) =~= crate::text::colons());
    lemma_own_declaration_is_dropped(reference, definition);
}

} // verus!
