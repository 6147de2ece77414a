//! What is read out of one source file: the constants it names and where.

pub mod ast;
pub mod collector;
pub mod inflector_shim;
pub mod namespace_calculator;
pub mod processor;
pub mod self_reference_filterer;

use vstd::prelude::*;

verus! {

/// A span of source text. Rows count from 1, columns from 0; the end is exclusive.
#[derive(Debug, PartialEq, Eq, Clone, Copy, Default, Structural)]
pub struct Range {
    pub start_row: usize,
    pub start_col: usize,
    pub end_row: usize,
    pub end_col: usize,
}

/// A constant that a file declares, under its fully qualified name.
#[derive(Debug, PartialEq, Eq, Clone)]
pub struct ParsedDefinition {
    pub fully_qualified_name: String,
    pub location: Range,
}

/// The mathematical value of a [`ParsedDefinition`].
pub struct ParsedDefinitionModel {
    pub fully_qualified_name: Seq<char>,
    pub location: Range,
}

impl DeepView for ParsedDefinition {
    type V = ParsedDefinitionModel;

    open spec fn deep_view(&self) -> ParsedDefinitionModel {
        ParsedDefinitionModel {
            fully_qualified_name: self.fully_qualified_name@,
            location: self.location,
        }
    }
}

/// A use of a constant's name in source text, with the nesting it stands in,
/// outermost namespace first.
#[derive(Debug, PartialEq, Eq, Clone)]
pub struct UnresolvedReference {
    pub name: String,
    pub namespace_path: Vec<String>,
    pub location: Range,
}

/// The mathematical value of an [`UnresolvedReference`].
pub struct UnresolvedReferenceModel {
    pub name: Seq<char>,
    pub namespace_path: Seq<Seq<char>>,
    pub location: Range,
}

impl DeepView for UnresolvedReference {
    type V = UnresolvedReferenceModel;

    open spec fn deep_view(&self) -> UnresolvedReferenceModel {
        UnresolvedReferenceModel {
            name: self.name@,
            namespace_path: self.namespace_path.deep_view(),
            location: self.location,
        }
    }
}

/// The references found in one file, in source order.
#[derive(Debug, Clone, Default, PartialEq, Eq)]
pub struct ProcessedFile {
    pub absolute_path: String,
    pub unresolved_references: Vec<UnresolvedReference>,
}

/// The mathematical value of a [`ProcessedFile`].
pub struct ProcessedFileModel {
    pub absolute_path: Seq<char>,
    pub unresolved_references: Seq<UnresolvedReferenceModel>,
}

impl DeepView for ProcessedFile {
    type V = ProcessedFileModel;

    open spec fn deep_view(&self) -> ProcessedFileModel {
        ProcessedFileModel {
            absolute_path: self.absolute_path@,
            unresolved_references: self.unresolved_references.deep_view(),
        }
    }
}

/// The line and column at which a reference begins.
#[derive(Debug, PartialEq, Eq, Clone, Copy, Default, PartialOrd, Ord, Structural)]
pub struct SourceLocation {
    pub line: usize,
    pub column: usize,
}

} // verus!
