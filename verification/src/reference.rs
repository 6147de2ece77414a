//! The final references: each use of a constant, with the file that defines it.

use vstd::prelude::*;
use std::collections::HashMap;
use crate::configuration::{Configuration, ExtraReferenceFieldsFn};
use crate::constant_resolver::{
    resolve_in,
    ConstantDefinition,
    ConstantDefinitionModel,
    ConstantResolver,
};
use crate::parser::{
    ProcessedFile,
    ProcessedFileModel,
    SourceLocation,
    UnresolvedReference,
    UnresolvedReferenceModel,
};
use crate::paths::{is_under, join_path, lemma_join_restores_stripped, strip_path_prefix, strip_prefix};

verus! {

/// A use of a constant: its name, the file that defines it (where the name could
/// be resolved), and the file and place of the use. Paths are relative to the
/// configured root.
#[derive(Debug, PartialEq, Eq, Clone)]
pub struct Reference {
    pub constant_name: String,
    pub relative_defining_file: Option<String>,
    pub relative_referencing_file: String,
    pub source_location: SourceLocation,
    pub extra_fields: HashMap<String, String>,
}

/// The mathematical value of a [`Reference`].
pub struct ReferenceModel {
    pub constant_name: Seq<char>,
    pub relative_defining_file: Option<Seq<char>>,
    pub relative_referencing_file: Seq<char>,
    pub source_location: SourceLocation,
    pub extra_fields: Map<String, String>,
}

impl DeepView for Reference {
    type V = ReferenceModel;

    open spec fn deep_view(&self) -> ReferenceModel {
        ReferenceModel {
            constant_name: self.constant_name@,
            relative_defining_file: self.relative_defining_file.deep_view(),
            relative_referencing_file: self.relative_referencing_file@,
            source_location: self.source_location,
            extra_fields: self.extra_fields@,
        }
    }
}

/// Why a reference could not be built.
#[derive(Debug, PartialEq, Eq, Clone, Copy, Structural)]
pub enum ReferenceError {
    /// The file that holds the reference does not lie under the configured root.
    ReferencingFileOutsideRoot,
    /// A file that defines the constant does not lie under the configured root.
    DefiningFileOutsideRoot,
}

/// Where a reference begins.
pub open spec fn source_location_of(reference: UnresolvedReferenceModel) -> SourceLocation {
    SourceLocation { line: reference.location.start_row, column: reference.location.start_col }
}

/// A reference that is to be built: the reference but for its extra fields,
/// and the absolute paths of the referencing and of the defining file, which
/// the extra fields are asked for.
pub struct ExpectedReference {
    pub constant_name: Seq<char>,
    pub relative_defining_file: Option<Seq<char>>,
    pub relative_referencing_file: Seq<char>,
    pub source_location: SourceLocation,
    pub referencing_file: Seq<char>,
    pub defining_file: Option<Seq<char>>,
}

/// Are `fields` the extra fields of a reference from the file
/// `referencing_file` to a constant that `defining_file` defines, both by
/// their absolute paths: are they what the configured function gave when it
/// was asked for these two paths, or none where none is configured?
pub open spec fn fields_given(
    extra: Option<Box<dyn ExtraReferenceFieldsFn>>,
    referencing_file: Seq<char>,
    defining_file: Option<Seq<char>>,
    fields: Map<String, String>,
) -> bool {
    match extra {
        Some(function) => function.gives(referencing_file, defining_file, fields),
        None => fields == Map::<String, String>::empty(),
    }
}

/// Is `built` the reference that `expected` asks for, with the extra fields
/// that belong to it?
pub open spec fn fulfils(
    built: ReferenceModel,
    expected: ExpectedReference,
    extra: Option<Box<dyn ExtraReferenceFieldsFn>>,
) -> bool {
    &&& built.constant_name == expected.constant_name
    &&& built.relative_defining_file == expected.relative_defining_file
    &&& built.relative_referencing_file == expected.relative_referencing_file
    &&& built.source_location == expected.source_location
    &&& fields_given(extra, expected.referencing_file, expected.defining_file, built.extra_fields)
}

/// The reference to a constant that `definition` defines, used in `referencing_file`.
pub open spec fn resolved_reference(
    absolute_root: Seq<char>,
    definition: ConstantDefinitionModel,
    referencing_file: Seq<char>,
    source_location: SourceLocation,
) -> ExpectedReference {
    ExpectedReference {
        constant_name: definition.fully_qualified_name,
        relative_defining_file: strip_prefix(definition.absolute_path_of_definition, absolute_root),
        relative_referencing_file: strip_prefix(referencing_file, absolute_root)->0,
        source_location,
        referencing_file,
        defining_file: Some(definition.absolute_path_of_definition),
    }
}

/// The reference that stands for a name that no definition was found for: it
/// keeps the name as it was written.
pub open spec fn unresolved_name_reference(
    absolute_root: Seq<char>,
    name: Seq<char>,
    referencing_file: Seq<char>,
    source_location: SourceLocation,
) -> ExpectedReference {
    ExpectedReference {
        constant_name: name,
        relative_defining_file: None,
        relative_referencing_file: strip_prefix(referencing_file, absolute_root)->0,
        source_location,
        referencing_file,
        defining_file: None,
    }
}

/// Do all of `definitions` lie under `absolute_root`?
pub open spec fn all_under(
    definitions: Seq<ConstantDefinitionModel>,
    absolute_root: Seq<char>,
) -> bool {
    forall|i: int|
        0 <= i < definitions.len() ==> is_under(
            (#[trigger] definitions[i]).absolute_path_of_definition,
            absolute_root,
        )
}

/// The references that one use of a constant gives rise to: one for each
/// definition that the name resolved to, in their order, or one that keeps the
/// written name where it resolved to nothing; each with the extra fields that
/// the configured function is to give for the absolute paths of the referencing
/// and the defining file. It is an error for the referencing file, or for one
/// of the defining files, to lie outside the root.
pub open spec fn references_for(
    absolute_root: Seq<char>,
    resolved: Option<Seq<ConstantDefinitionModel>>,
    reference: UnresolvedReferenceModel,
    referencing_file: Seq<char>,
) -> Result<Seq<ExpectedReference>, ReferenceError> {
    match strip_prefix(referencing_file, absolute_root) {
        None => Err(ReferenceError::ReferencingFileOutsideRoot),
        Some(_) => match resolved {
            None => Ok(
                seq![
                    unresolved_name_reference(
                        absolute_root,
                        reference.name,
                        referencing_file,
                        source_location_of(reference),
                    ),
                ],
            ),
            Some(definitions) => if all_under(definitions, absolute_root) {
                Ok(
                    Seq::new(
                        definitions.len(),
                        |i: int|
                            resolved_reference(
                                absolute_root,
                                definitions[i],
                                referencing_file,
                                source_location_of(reference),
                            ),
                    ),
                )
            } else {
                Err(ReferenceError::DefiningFileOutsideRoot)
            },
        },
    }
}

/// The references of the first `count` uses in `file`.
pub open spec fn references_of_file(
    absolute_root: Seq<char>,
    constants: Seq<ConstantDefinitionModel>,
    file: ProcessedFileModel,
    count: int,
) -> Result<Seq<ExpectedReference>, ReferenceError>
    decreases count,
{
    if count <= 0 {
        Ok(Seq::empty())
    } else {
        let reference = file.unresolved_references[count - 1];
        match references_of_file(absolute_root, constants, file, count - 1) {
            Err(e) => Err(e),
            Ok(before) => match references_for(
                absolute_root,
                resolve_in(constants, reference.name, reference.namespace_path),
                reference,
                file.absolute_path,
            ) {
                Err(e) => Err(e),
                Ok(more) => Ok(before + more),
            },
        }
    }
}

/// The references of the first `count` of `files`: those of each file in
/// turn, or the first error met on the way.
pub open spec fn references_of_files(
    absolute_root: Seq<char>,
    constants: Seq<ConstantDefinitionModel>,
    files: Seq<ProcessedFileModel>,
    count: int,
) -> Result<Seq<ExpectedReference>, ReferenceError>
    decreases count,
{
    if count <= 0 {
        Ok(Seq::empty())
    } else {
        let file = files[count - 1];
        match references_of_files(absolute_root, constants, files, count - 1) {
            Err(e) => Err(e),
            Ok(before) => match references_of_file(
                absolute_root,
                constants,
                file,
                file.unresolved_references.len() as int,
            ) {
                Err(e) => Err(e),
                Ok(more) => Ok(before + more),
            },
        }
    }
}

/// Does each of `built` fulfil the one of `expected` at its place?
pub open spec fn all_fulfil(
    built: Seq<ReferenceModel>,
    expected: Seq<ExpectedReference>,
    extra: Option<Box<dyn ExtraReferenceFieldsFn>>,
) -> bool {
    &&& built.len() == expected.len()
    &&& forall|i: int| 0 <= i < built.len() ==> fulfils(#[trigger] built[i], expected[i], extra)
}

/// Does `built` hold what `expected` asks for: the expected references, each
/// with the extra fields that belong to it, or the expected error?
pub open spec fn meets(
    built: Result<Vec<Reference>, ReferenceError>,
    expected: Result<Seq<ExpectedReference>, ReferenceError>,
    extra: Option<Box<dyn ExtraReferenceFieldsFn>>,
) -> bool {
    match expected {
        Ok(references) => built is Ok && all_fulfil(built->Ok_0.deep_view(), references, extra),
        Err(e) => built == Err::<Vec<Reference>, ReferenceError>(e),
    }
}

/// The extra fields of a reference from `referencing_file_path` to a constant that
/// `defining_file_path` defines: what the configured function returns, or none
/// where none is configured.
fn extra_fields_for(
    configuration: &Configuration,
    referencing_file_path: &str,
    defining_file_path: Option<&str>,
) -> (r: HashMap<String, String>)
    ensures
        fields_given(
            configuration.extra_reference_fields_fn,
            referencing_file_path@,
            match defining_file_path {
                Some(path) => Some(path@),
                None => None,
            },
            r@,
        ),
{
    match &configuration.extra_reference_fields_fn {
        Some(f) => f.extra_reference_fields_fn(referencing_file_path, defining_file_path),
        None => HashMap::new(),
    }
}

/// One reference for a name that resolved to nothing.
fn references_without_constant_definitions(
    configuration: &Configuration,
    unresolved_reference: &UnresolvedReference,
    referencing_file_path: &str,
    relative_referencing_file: String,
    source_location: SourceLocation,
) -> (r: Vec<Reference>)
    requires
        strip_prefix(referencing_file_path@, configuration.absolute_root@) == Some(
            relative_referencing_file@,
        ),
    ensures
        all_fulfil(
            r.deep_view(),
            seq![
                unresolved_name_reference(
                    configuration.absolute_root@,
                    unresolved_reference.name@,
                    referencing_file_path@,
                    source_location,
                ),
            ],
            configuration.extra_reference_fields_fn,
        ),
{
    let extra_fields = extra_fields_for(configuration, referencing_file_path, None);
    let reference = Reference {
        constant_name: unresolved_reference.name.clone(),
        relative_defining_file: None,
        relative_referencing_file,
        source_location,
        extra_fields,
    };
    let mut out: Vec<Reference> = Vec::new();
    out.push(reference);
    assert(out.deep_view()[0] == reference.deep_view());
    out
}

/// One reference for each definition that a name resolved to.
fn references_from_constant_definitions(
    configuration: &Configuration,
    constant_definitions: &Vec<ConstantDefinition>,
    referencing_file_path: &str,
    relative_referencing_file: &String,
    source_location: SourceLocation,
) -> (r: Result<Vec<Reference>, ReferenceError>)
    requires
        strip_prefix(referencing_file_path@, configuration.absolute_root@) == Some(
            relative_referencing_file@,
        ),
    ensures
        all_under(constant_definitions.deep_view(), configuration.absolute_root@) ==> r is Ok,
        !all_under(constant_definitions.deep_view(), configuration.absolute_root@) ==> r == Err::<
            Vec<Reference>,
            ReferenceError,
        >(ReferenceError::DefiningFileOutsideRoot),
        r matches Ok(built) ==> {
            &&& built.len() == constant_definitions.len()
            &&& forall|i: int|
                0 <= i < built.len() ==> fulfils(
                    #[trigger] built.deep_view()[i],
                    resolved_reference(
                        configuration.absolute_root@,
                        constant_definitions.deep_view()[i],
                        referencing_file_path@,
                        source_location,
                    ),
                    configuration.extra_reference_fields_fn,
                )
        },
{
    let mut out: Vec<Reference> = Vec::new();
    let ghost definitions = constant_definitions.deep_view();
    let ghost root = configuration.absolute_root@;
    let mut i: usize = 0;
    while i < constant_definitions.len()
        invariant
            i <= constant_definitions.len(),
            definitions == constant_definitions.deep_view(),
            root == configuration.absolute_root@,
            strip_prefix(referencing_file_path@, root) == Some(relative_referencing_file@),
            out.len() == i,
            forall|j: int| 0 <= j < i ==> is_under(definitions[j].absolute_path_of_definition, root),
            forall|j: int|
                0 <= j < i ==> fulfils(
                    #[trigger] out.deep_view()[j],
                    resolved_reference(
                        root,
                        definitions[j],
                        referencing_file_path@,
                        source_location,
                    ),
                    configuration.extra_reference_fields_fn,
                ),
        decreases constant_definitions.len() - i,
    {
        let constant = &constant_definitions[i];
        assert(definitions[i as int] == constant.deep_view());
        let relative_defining_file = match strip_path_prefix(
            constant.absolute_path_of_definition.as_str(),
            configuration.absolute_root.as_str(),
        ) {
            Some(relative) => relative,
            None => {
                return Err(ReferenceError::DefiningFileOutsideRoot);
            },
        };
        let extra_fields = extra_fields_for(
            configuration,
            referencing_file_path,
            Some(constant.absolute_path_of_definition.as_str()),
        );
        let reference = Reference {
            constant_name: constant.fully_qualified_name.clone(),
            relative_defining_file: Some(relative_defining_file),
            relative_referencing_file: relative_referencing_file.clone(),
            source_location,
            extra_fields,
        };
        let ghost before = out.deep_view();
        out.push(reference);
        assert(out.deep_view() =~= before.push(reference.deep_view()));
        i += 1;
    }
    Ok(out)
}

impl Reference {
    /// The references that one use of a constant in the file `referencing_file_path`
    /// gives rise to: one for each definition that the resolver finds for the name in
    /// its nesting, or one that keeps the written name where it finds none. Each
    /// carries the extra fields that the configured function returns for the
    /// absolute paths of the referencing file and of the defining file, none
    /// where none is configured.
    pub fn from_unresolved_reference(
        configuration: &Configuration,
        constant_resolver: &ConstantResolver,
        unresolved_reference: &UnresolvedReference,
        referencing_file_path: &str,
    ) -> (r: Result<Vec<Reference>, ReferenceError>)
        ensures
            meets(
                r,
                references_for(
                    configuration.absolute_root@,
                    resolve_in(
                        constant_resolver.definitions(),
                        unresolved_reference.name@,
                        unresolved_reference.namespace_path.deep_view(),
                    ),
                    unresolved_reference.deep_view(),
                    referencing_file_path@,
                ),
                configuration.extra_reference_fields_fn,
            ),
    {
        let loc = &unresolved_reference.location;
        let source_location = SourceLocation { line: loc.start_row, column: loc.start_col };
        let relative_referencing_file = match strip_path_prefix(
            referencing_file_path,
            configuration.absolute_root.as_str(),
        ) {
            Some(relative) => relative,
            None => {
                return Err(ReferenceError::ReferencingFileOutsideRoot);
            },
        };
        let maybe_constant_definition = constant_resolver.resolve(
            unresolved_reference.name.as_str(),
            &unresolved_reference.namespace_path,
        );
        match maybe_constant_definition {
            Some(constant_definitions) => {
                let r = references_from_constant_definitions(
                    configuration,
                    &constant_definitions,
                    referencing_file_path,
                    &relative_referencing_file,
                    source_location,
                );
                proof {
                    let expected = references_for(
                        configuration.absolute_root@,
                        Some(constant_definitions.deep_view()),
                        unresolved_reference.deep_view(),
                        referencing_file_path@,
                    );
                    if r is Ok {
                        let built = r->Ok_0;
                        assert(all_fulfil(
                            built.deep_view(),
                            expected->Ok_0,
                            configuration.extra_reference_fields_fn,
                        ));
                    }
                }
                r
            },
            None => Ok(
                references_without_constant_definitions(
                    configuration,
                    unresolved_reference,
                    referencing_file_path,
                    relative_referencing_file,
                    source_location,
                ),
            ),
        }
    }
}

/// Once the uses of a file have met an error, further uses do not change it.
proof fn lemma_file_error_stays(
    absolute_root: Seq<char>,
    constants: Seq<ConstantDefinitionModel>,
    file: ProcessedFileModel,
    at: int,
    count: int,
)
    requires
        references_of_file(absolute_root, constants, file, at) is Err,
        at <= count,
    ensures
        references_of_file(absolute_root, constants, file, count) == references_of_file(
            absolute_root,
            constants,
            file,
            at,
        ),
    decreases count - at,
{
    if at < count {
        lemma_file_error_stays(absolute_root, constants, file, at, count - 1);
    }
}

/// Once the files have met an error, further files do not change it.
proof fn lemma_files_error_stays(
    absolute_root: Seq<char>,
    constants: Seq<ConstantDefinitionModel>,
    files: Seq<ProcessedFileModel>,
    at: int,
    count: int,
)
    requires
        references_of_files(absolute_root, constants, files, at) is Err,
        at <= count,
    ensures
        references_of_files(absolute_root, constants, files, count) == references_of_files(
            absolute_root,
            constants,
            files,
            at,
        ),
    decreases count - at,
{
    if at < count {
        lemma_files_error_stays(absolute_root, constants, files, at, count - 1);
    }
}

/// Two lists that fulfil what is asked of each fulfil together what is asked of both.
proof fn lemma_fulfil_both(
    first: Seq<ReferenceModel>,
    first_expected: Seq<ExpectedReference>,
    second: Seq<ReferenceModel>,
    second_expected: Seq<ExpectedReference>,
    extra: Option<Box<dyn ExtraReferenceFieldsFn>>,
)
    requires
        all_fulfil(first, first_expected, extra),
        all_fulfil(second, second_expected, extra),
    ensures
        all_fulfil(first + second, first_expected + second_expected, extra),
{
    let built = first + second;
    let expected = first_expected + second_expected;
    assert forall|i: int| 0 <= i < built.len() implies fulfils(
        #[trigger] built[i],
        expected[i],
        extra,
    ) by {
        if i < first.len() {
            assert(built[i] == first[i] && expected[i] == first_expected[i]);
        } else {
            assert(built[i] == second[i - first.len()]);
            assert(expected[i] == second_expected[i - first.len()]);
        }
    }
}

/// The references that the uses in one file give rise to, in the order of the
/// uses, or the first error met.
pub fn references_in_file(
    configuration: &Configuration,
    constant_resolver: &ConstantResolver,
    processed_file: &ProcessedFile,
) -> (r: Result<Vec<Reference>, ReferenceError>)
    ensures
        meets(
            r,
            references_of_file(
                configuration.absolute_root@,
                constant_resolver.definitions(),
                processed_file.deep_view(),
                processed_file.unresolved_references.len() as int,
            ),
            configuration.extra_reference_fields_fn,
        ),
{
    let mut out: Vec<Reference> = Vec::new();
    let ghost root = configuration.absolute_root@;
    let ghost extra = configuration.extra_reference_fields_fn;
    let ghost mut expected: Seq<ExpectedReference> = Seq::empty();
    let ghost constants = constant_resolver.definitions();
    let ghost file = processed_file.deep_view();
    let mut i: usize = 0;
    while i < processed_file.unresolved_references.len()
        invariant
            i <= processed_file.unresolved_references.len(),
            root == configuration.absolute_root@,
            extra == configuration.extra_reference_fields_fn,
            constants == constant_resolver.definitions(),
            file == processed_file.deep_view(),
            references_of_file(root, constants, file, i as int) == Ok::<
                Seq<ExpectedReference>,
                ReferenceError,
            >(expected),
            all_fulfil(out.deep_view(), expected, extra),
        decreases processed_file.unresolved_references.len() - i,
    {
        let unresolved_reference = &processed_file.unresolved_references[i];
        assert(file.unresolved_references[i as int] == unresolved_reference.deep_view());
        let built = Reference::from_unresolved_reference(
            configuration,
            constant_resolver,
            unresolved_reference,
            processed_file.absolute_path.as_str(),
        );
        match built {
            Err(e) => {
                proof {
                    lemma_file_error_stays(
                        root,
                        constants,
                        file,
                        i + 1,
                        processed_file.unresolved_references.len() as int,
                    );
                }
                return Err(e);
            },
            Ok(mut more) => {
                let ghost before = out.deep_view();
                let ghost added = more.deep_view();
                let ghost wanted = references_for(
                    root,
                    resolve_in(
                        constants,
                        unresolved_reference.name@,
                        unresolved_reference.namespace_path.deep_view(),
                    ),
                    unresolved_reference.deep_view(),
                    processed_file.absolute_path@,
                )->Ok_0;
                out.append(&mut more);
                proof {
                    assert(out.deep_view() =~= before + added);
                    lemma_fulfil_both(before, expected, added, wanted, extra);
                    expected = expected + wanted;
                }
            },
        }
        i += 1;
    }
    Ok(out)
}

/// The references of all the files: those of each file in turn, each file's in
/// the order of its uses. The first file or definition outside the root ends
/// the run with its error.
pub fn all_references(
    configuration: &Configuration,
    processed_files: &Vec<ProcessedFile>,
    constant_resolver: &ConstantResolver,
) -> (r: Result<Vec<Reference>, ReferenceError>)
    ensures
        meets(
            r,
            references_of_files(
                configuration.absolute_root@,
                constant_resolver.definitions(),
                processed_files.deep_view(),
                processed_files.len() as int,
            ),
            configuration.extra_reference_fields_fn,
        ),
{
    let mut out: Vec<Reference> = Vec::new();
    let ghost root = configuration.absolute_root@;
    let ghost extra = configuration.extra_reference_fields_fn;
    let ghost mut expected: Seq<ExpectedReference> = Seq::empty();
    let ghost constants = constant_resolver.definitions();
    let ghost files = processed_files.deep_view();
    let mut i: usize = 0;
    while i < processed_files.len()
        invariant
            i <= processed_files.len(),
            root == configuration.absolute_root@,
            extra == configuration.extra_reference_fields_fn,
            constants == constant_resolver.definitions(),
            files == processed_files.deep_view(),
            references_of_files(root, constants, files, i as int) == Ok::<
                Seq<ExpectedReference>,
                ReferenceError,
            >(expected),
            all_fulfil(out.deep_view(), expected, extra),
        decreases processed_files.len() - i,
    {
        let processed_file = &processed_files[i];
        assert(files[i as int] == processed_file.deep_view());
        assert(files[i as int].unresolved_references.len()
            == processed_file.unresolved_references.len());
        match references_in_file(configuration, constant_resolver, processed_file) {
            Err(e) => {
                proof {
                    lemma_files_error_stays(
                        root,
                        constants,
                        files,
                        i + 1,
                        processed_files.len() as int,
                    );
                }
                return Err(e);
            },
            Ok(mut more) => {
                let ghost before = out.deep_view();
                let ghost added = more.deep_view();
                let ghost wanted = references_of_file(
                    root,
                    constants,
                    processed_file.deep_view(),
                    processed_file.unresolved_references.len() as int,
                )->Ok_0;
                out.append(&mut more);
                proof {
                    assert(out.deep_view() =~= before + added);
                    lemma_fulfil_both(before, expected, added, wanted, extra);
                    expected = expected + wanted;
                }
            },
        }
        i += 1;
    }
    Ok(out)
}

/// Every reference built for a use in a file names that file: its referencing
/// file is what is left of the file's path below the root, so that, where
/// anything is left, the root joined with it is the file's path again.
pub proof fn lemma_referencing_file_is_relative(
    absolute_root: Seq<char>,
    resolved: Option<Seq<ConstantDefinitionModel>>,
    reference: UnresolvedReferenceModel,
    referencing_file: Seq<char>,
    i: int,
)
    requires
        references_for(absolute_root, resolved, reference, referencing_file) is Ok,
        0 <= i < references_for(
            absolute_root,
            resolved,
            reference,
            referencing_file,
        )->Ok_0.len(),
    ensures
        ({
            let built = references_for(
                absolute_root,
                resolved,
                reference,
                referencing_file,
            )->Ok_0[i];
            &&& strip_prefix(referencing_file, absolute_root) == Some(
                built.relative_referencing_file,
            )
            &&& built.relative_referencing_file.len() > 0 ==> join_path(
                absolute_root,
                built.relative_referencing_file,
            ) == referencing_file
        }),
{
    let relative = strip_prefix(referencing_file, absolute_root)->0;
    if relative.len() > 0 {
        lemma_join_restores_stripped(referencing_file, absolute_root);
    }
}

/// Every reference built from a definition names the file of that definition:
/// its defining file is what is left of the definition's path below the root,
/// so that, where anything is left, the root joined with it is that path again.
pub proof fn lemma_defining_file_is_relative(
    absolute_root: Seq<char>,
    definitions: Seq<ConstantDefinitionModel>,
    reference: UnresolvedReferenceModel,
    referencing_file: Seq<char>,
    i: int,
)
    requires
        references_for(absolute_root, Some(definitions), reference, referencing_file)
            is Ok,
        0 <= i < definitions.len(),
    ensures
        ({
            let built = references_for(
                absolute_root,
                Some(definitions),
                reference,
                referencing_file,
            )->Ok_0;
            &&& built.len() == definitions.len()
            &&& built[i].constant_name == definitions[i].fully_qualified_name
            &&& built[i].relative_defining_file is Some
            &&& built[i].relative_defining_file == strip_prefix(
                definitions[i].absolute_path_of_definition,
                absolute_root,
            )
            &&& built[i].relative_defining_file->0.len() > 0 ==> join_path(
                absolute_root,
                built[i].relative_defining_file->0,
            ) == definitions[i].absolute_path_of_definition
        }),
{
    let path = definitions[i].absolute_path_of_definition;
    assert(is_under(path, absolute_root));
    if strip_prefix(path, absolute_root)->0.len() > 0 {
        lemma_join_restores_stripped(path, absolute_root);
    }
}

/// Two runs over the same files, constants and configuration give the same
/// references in the same order: whatever fulfils what is asked agrees, place
/// by place, in the name of the constant, in both files and in the place of
/// the use. The extra fields are what the configured function gave in each
/// run for the same two paths, and none in both runs where none is configured.
pub proof fn lemma_runs_agree(
    first: Seq<ReferenceModel>,
    second: Seq<ReferenceModel>,
    expected: Seq<ExpectedReference>,
    extra: Option<Box<dyn ExtraReferenceFieldsFn>>,
)
    requires
        all_fulfil(first, expected, extra),
        all_fulfil(second, expected, extra),
    ensures
        first.len() == second.len(),
        forall|i: int|
            0 <= i < first.len() ==> {
                &&& (#[trigger] first[i]).constant_name == second[i].constant_name
                &&& first[i].relative_defining_file == second[i].relative_defining_file
                &&& first[i].relative_referencing_file == second[i].relative_referencing_file
                &&& first[i].source_location == second[i].source_location
                &&& fields_given(
                    extra,
                    expected[i].referencing_file,
                    expected[i].defining_file,
                    first[i].extra_fields,
                )
                &&& fields_given(
                    extra,
                    expected[i].referencing_file,
                    expected[i].defining_file,
                    second[i].extra_fields,
                )
            },
        extra is None ==> first == second,
{
    assert forall|i: int| 0 <= i < first.len() implies {
        &&& (#[trigger] first[i]).constant_name == second[i].constant_name
        &&& first[i].relative_defining_file == second[i].relative_defining_file
        &&& first[i].relative_referencing_file == second[i].relative_referencing_file
        &&& first[i].source_location == second[i].source_location
        &&& fields_given(
            extra,
            expected[i].referencing_file,
            expected[i].defining_file,
            first[i].extra_fields,
        )
        &&& fields_given(
            extra,
            expected[i].referencing_file,
            expected[i].defining_file,
            second[i].extra_fields,
        )
    } by {
        assert(fulfils(first[i], expected[i], extra));
        assert(fulfils(second[i], expected[i], extra));
    }
    if extra is None {
        assert forall|i: int| 0 <= i < first.len() implies first[i] == second[i] by {
            assert(fulfils(first[i], expected[i], extra));
            assert(fulfils(second[i], expected[i], extra));
        }
        assert(first =~= second);
    }
}

} // verus!
