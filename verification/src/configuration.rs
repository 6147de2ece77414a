//! What an analysis is run with.

use vstd::prelude::*;
use vstd::string::StringExecFns;
use std::collections::HashMap;
use crate::cache::cache::Cache;
use crate::cache::{get_cache, AnyCache};
use crate::paths::{join, join_path};
use crate::text::{has_no_duplicates, no_duplicates};

verus! {

/// Further fields for a reference, computed by the caller from the absolute path
/// of the file that holds the reference and of the file that defines the constant.
pub trait ExtraReferenceFieldsFn: Sync + Send {
    /// Are `fields` what the function may give for the two paths? An
    /// implementation says here what it promises of its results; one that
    /// promises nothing lets every result pass.
    open spec fn gives(
        &self,
        referencing_file_path: Seq<char>,
        defining_file_path: Option<Seq<char>>,
        fields: Map<String, String>,
    ) -> bool {
        true
    }

    fn extra_reference_fields_fn(
        &self,
        referencing_file_path: &str,
        defining_file_path: Option<&str>,
    ) -> (r: HashMap<String, String>)
        ensures
            self.gives(
                referencing_file_path@,
                match defining_file_path {
                    Some(path) => Some(path@),
                    None => None,
                },
                r@,
            ),
    ;
}

/// The inputs of an analysis.
pub struct Configuration {
    /// The directory that the reported paths are relative to.
    pub absolute_root: String,
    /// The files to analyse.
    pub included_files: Vec<String>,
    /// Words that stay in capitals when a file name is turned into a constant name.
    pub acronyms: Vec<String>,
    /// Each autoload root with the namespace that its files live in (empty for the root namespace).
    pub autoload_paths: Vec<(String, String)>,
    /// Methods that declare an association, besides the built-in ones.
    pub custom_associations: Vec<String>,
    /// File names that hold Ruby whatever their extension.
    pub ruby_special_files: Vec<String>,
    /// Extensions of Ruby files.
    pub ruby_extensions: Vec<String>,
    /// Keep the references that are their own definitions: those that the
    /// declarations of a file make to what they declare.
    pub include_reference_is_definition: bool,
    pub cache_enabled: bool,
    pub cache_directory: String,
    pub extra_reference_fields_fn: Option<Box<dyn ExtraReferenceFieldsFn>>,
}

/// The text of a string literal as a `String`.
fn text(literal: &str) -> (r: String)
    ensures
        r@ == literal@,
{
    String::from_str(literal)
}

impl Default for Configuration {
    /// The configuration of an analysis of nothing: no root, no files, no
    /// autoload roots, no cache and no extra fields; Ruby is looked for in
    /// `Gemfile`, `Rakefile` and the files that end in `.rb`, `.rake`,
    /// `.builder`, `.gemspec` and `.ru`.
    fn default() -> (r: Self)
        ensures
            r.absolute_root@ == Seq::<char>::empty(),
            r.included_files@ == Seq::<String>::empty(),
            r.acronyms@ == Seq::<String>::empty(),
            r.autoload_paths@ == Seq::<(String, String)>::empty(),
            r.custom_associations@ == Seq::<String>::empty(),
            r.ruby_special_files.deep_view() == seq!["Gemfile"@, "Rakefile"@],
            r.ruby_extensions.deep_view() == seq![
                "rb"@,
                "rake"@,
                "builder"@,
                "gemspec"@,
                "ru"@,
            ],
            !r.include_reference_is_definition,
            !r.cache_enabled,
            r.cache_directory@ == "tmp/cache"@,
            r.extra_reference_fields_fn is None,
    {
        let mut ruby_special_files: Vec<String> = Vec::new();
        ruby_special_files.push(text("Gemfile"));
        ruby_special_files.push(text("Rakefile"));
        let mut ruby_extensions: Vec<String> = Vec::new();
        ruby_extensions.push(text("rb"));
        ruby_extensions.push(text("rake"));
        ruby_extensions.push(text("builder"));
        ruby_extensions.push(text("gemspec"));
        ruby_extensions.push(text("ru"));
        assert(ruby_special_files.deep_view() =~= seq!["Gemfile"@, "Rakefile"@]);
        assert(ruby_extensions.deep_view() =~= seq![
            "rb"@,
            "rake"@,
            "builder"@,
            "gemspec"@,
            "ru"@,
        ]);
        Configuration {
            absolute_root: String::new(),
            included_files: Vec::new(),
            acronyms: Vec::new(),
            autoload_paths: Vec::new(),
            custom_associations: Vec::new(),
            ruby_special_files,
            ruby_extensions,
            include_reference_is_definition: false,
            cache_enabled: false,
            cache_directory: text("tmp/cache"),
            extra_reference_fields_fn: None,
        }
    }
}

/// The autoload roots of the configuration, without their namespaces.
pub open spec fn autoload_roots(autoload_paths: Seq<(String, String)>) -> Seq<Seq<char>> {
    Seq::new(autoload_paths.len(), |i: int| autoload_paths[i].0@)
}

impl Configuration {
    /// Do the lists of the configuration that stand for sets hold each entry
    /// once: is no file included twice, no acronym given twice, and no
    /// autoload root given twice, with one namespace or with two?
    pub open spec fn holds_sets(&self) -> bool {
        &&& no_duplicates(self.included_files.deep_view())
        &&& no_duplicates(self.acronyms.deep_view())
        &&& no_duplicates(autoload_roots(self.autoload_paths@))
    }

    /// Do the lists of the configuration that stand for sets hold each entry once?
    pub fn has_unique_entries(&self) -> (r: bool)
        ensures
            r == self.holds_sets(),
    {
        let mut roots: Vec<String> = Vec::new();
        let mut i: usize = 0;
        while i < self.autoload_paths.len()
            invariant
                i <= self.autoload_paths.len(),
                roots.deep_view() == autoload_roots(self.autoload_paths@).take(i as int),
            decreases self.autoload_paths.len() - i,
        {
            let ghost before = roots.deep_view();
            roots.push(self.autoload_paths[i].0.clone());
            assert(roots.deep_view() =~= before.push(self.autoload_paths[i as int].0@));
            i += 1;
            assert(roots.deep_view() =~= autoload_roots(self.autoload_paths@).take(i as int));
        }
        assert(autoload_roots(self.autoload_paths@).take(self.autoload_paths.len() as int)
            =~= autoload_roots(self.autoload_paths@));
        has_no_duplicates(&self.included_files) && has_no_duplicates(&self.acronyms)
            && has_no_duplicates(&roots)
    }

    /// The cache that the configuration asks for: one that keeps its entries
    /// in the directory `ruby-references` of the cache directory, or one that
    /// keeps nothing where caching is off.
    pub fn get_cache(&self) -> (r: AnyCache)
        ensures
            r.directory() == if self.cache_enabled {
                Some(join_path(self.cache_directory@, "ruby-references"@))
            } else {
                None
            },
    {
        let cache_dir = if self.cache_enabled {
            join(self.cache_directory.as_str(), "ruby-references")
        } else {
            String::new()
        };
        get_cache(self.cache_enabled, cache_dir)
    }
}

} // verus!
