//! What a file holds before anything is dropped from it: every reference and
//! every definition that the walk over its syntax tree collects.

use vstd::prelude::*;
use crate::configuration::Configuration;
use crate::parser::ast::Node;
use crate::parser::collector::{collect, ReferenceCollector};
use crate::parser::processor::{
    file_type_of,
    fresh_collector,
    ruby_source_of,
    source_to_parse,
    tree_fits,
    ProcessError,
};
use crate::parser::{
    ParsedDefinition,
    ParsedDefinitionModel,
    UnresolvedReference,
    UnresolvedReferenceModel,
};
use crate::text::{byte_len, clone_strings};

verus! {

/// The references and the definitions found in one file, in the order of the walk.
#[derive(Debug, PartialEq, Eq)]
pub struct PreprocessedFile {
    pub absolute_path: String,
    pub unresolved_references: Vec<UnresolvedReference>,
    pub definitions: Vec<ParsedDefinition>,
}

/// The mathematical value of a [`PreprocessedFile`].
pub struct PreprocessedFileModel {
    pub absolute_path: Seq<char>,
    pub unresolved_references: Seq<UnresolvedReferenceModel>,
    pub definitions: Seq<ParsedDefinitionModel>,
}

impl DeepView for PreprocessedFile {
    type V = PreprocessedFileModel;

    open spec fn deep_view(&self) -> PreprocessedFileModel {
        PreprocessedFileModel {
            absolute_path: self.absolute_path@,
            unresolved_references: self.unresolved_references.deep_view(),
            definitions: self.definitions.deep_view(),
        }
    }
}

/// What the file at `path` holds: nothing for a file of no known kind or one
/// that does not parse; else what the walk over the tree of its parsed text collects.
pub open spec fn preprocessed_file(
    path: Seq<char>,
    contents: Seq<char>,
    ast: Option<Node>,
    ruby_extensions: Seq<Seq<char>>,
    ruby_special_files: Seq<Seq<char>>,
    custom_associations: Seq<Seq<char>>,
    acronyms: Seq<Seq<char>>,
) -> PreprocessedFileModel {
    match (file_type_of(path, ruby_extensions, ruby_special_files), ast) {
        (Some(file_type), Some(tree)) => {
            let collected = collect(
                fresh_collector(
                    vstd::utf8::encode_utf8(ruby_source_of(file_type, contents)),
                    custom_associations,
                    acronyms,
                ),
                tree,
            );
            PreprocessedFileModel {
                absolute_path: path,
                unresolved_references: collected.references,
                definitions: collected.definitions,
            }
        },
        _ => PreprocessedFileModel {
            absolute_path: path,
            unresolved_references: Seq::empty(),
            definitions: Seq::empty(),
        },
    }
}

/// The references and the definitions of the file at `path` with the contents
/// `contents`, where `ast` is the syntax tree of the text that is parsed for
/// it, or `None` where that text does not parse. A tree that does not fit
/// that text is refused.
pub fn process_file(
    path: &str,
    configuration: &Configuration,
    contents: &str,
    ast: Option<&Node>,
) -> (r: Result<PreprocessedFile, ProcessError>)
    ensures
        match r {
            Ok(file) => {
                &&& tree_fits(
                    path@,
                    contents@,
                    match ast {
                        Some(tree) => Some(*tree),
                        None => None,
                    },
                    configuration.ruby_extensions.deep_view(),
                    configuration.ruby_special_files.deep_view(),
                )
                &&& file.deep_view() == preprocessed_file(
                    path@,
                    contents@,
                    match ast {
                        Some(tree) => Some(*tree),
                        None => None,
                    },
                    configuration.ruby_extensions.deep_view(),
                    configuration.ruby_special_files.deep_view(),
                    configuration.custom_associations.deep_view(),
                    configuration.acronyms.deep_view(),
                )
            },
            Err(_) => !tree_fits(
                path@,
                contents@,
                match ast {
                    Some(tree) => Some(*tree),
                    None => None,
                },
                configuration.ruby_extensions.deep_view(),
                configuration.ruby_special_files.deep_view(),
            ),
        },
{
    match (source_to_parse(path, configuration, contents), ast) {
        (Some(source), Some(tree)) => {
            if !tree.is_within(byte_len(source.as_str())) {
                return Err(ProcessError::TreeOutsideText);
            }
            let mut collector = ReferenceCollector::new(
                source.as_str(),
                clone_strings(&configuration.custom_associations),
                clone_strings(&configuration.acronyms),
            );
            collector.visit(tree);
            Ok(
                PreprocessedFile {
                    absolute_path: path.to_owned(),
                    unresolved_references: collector.references,
                    definitions: collector.definitions,
                },
            )
        },
        _ => {
            let unresolved_references: Vec<UnresolvedReference> = Vec::new();
            let definitions: Vec<ParsedDefinition> = Vec::new();
            assert(unresolved_references.deep_view() =~= Seq::empty());
            assert(definitions.deep_view() =~= Seq::empty());
            Ok(PreprocessedFile { absolute_path: path.to_owned(), unresolved_references, definitions })
        },
    }
}

} // verus!
