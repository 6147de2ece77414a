//! The constants that the files under the autoload roots define by their names.

use vstd::prelude::*;
use vstd::string::StringExecFns;
use crate::configuration::Configuration;
use crate::constant_resolver::{ConstantDefinition, ConstantDefinitionModel, ConstantResolver};
use crate::parser::inflector_shim::{camelize, class_case};
use crate::parser::namespace_calculator::colons_str;
use crate::paths::{
    component_count,
    count_components,
    is_under,
    prefix_cut,
    strip_extension,
    strip_path_prefix,
    strip_prefix,
    without_extension,
};
use crate::text::{chars_of, colons, no_duplicates, rows};

verus! {

/// The roots of `autoload_paths`, without their namespaces.
pub open spec fn roots_of(autoload_paths: Seq<(Seq<char>, Seq<char>)>) -> Seq<Seq<char>> {
    Seq::new(autoload_paths.len(), |i: int| autoload_paths[i].0)
}

/// The mathematical value of a list of autoload roots with their namespaces.
pub open spec fn autoload_paths_of(autoload_paths: Seq<(String, String)>) -> Seq<
    (Seq<char>, Seq<char>),
> {
    Seq::new(autoload_paths.len(), |i: int| (autoload_paths[i].0@, autoload_paths[i].1@))
}

/// Among the first `upto` roots, the one that `file` belongs to: of the roots
/// that `file` lies under, the one with the most components, and of several
/// such the first.
pub open spec fn deepest_root(roots: Seq<Seq<char>>, file: Seq<char>, upto: int) -> Option<int>
    decreases upto,
{
    if upto <= 0 {
        None
    } else {
        let before = deepest_root(roots, file, upto - 1);
        let last = upto - 1;
        if is_under(file, roots[last]) && (before is None || component_count(roots[last])
            > component_count(roots[before->0])) {
            Some(last)
        } else {
            before
        }
    }
}

/// The constant that the file `absolute_path` defines under the autoload root
/// `absolute_autoload_path`: its path below the root, without extension, read
/// as the name of a class, inside `default_namespace`.
pub open spec fn inferred_constant(
    absolute_path: Seq<char>,
    absolute_autoload_path: Seq<char>,
    acronyms: Seq<Seq<char>>,
    default_namespace: Seq<char>,
) -> ConstantDefinitionModel {
    ConstantDefinitionModel {
        fully_qualified_name: default_namespace + colons() + class_case(
            without_extension(strip_prefix(absolute_path, absolute_autoload_path)->0),
            false,
            acronyms,
        ),
        absolute_path_of_definition: absolute_path,
    }
}

/// The constants of the first `upto` of `files`, found under the root at
/// `index`: one for each file that belongs to that root.
pub open spec fn constants_of_root(
    autoload_paths: Seq<(Seq<char>, Seq<char>)>,
    acronyms: Seq<Seq<char>>,
    index: int,
    files: Seq<Seq<char>>,
    upto: int,
) -> Seq<ConstantDefinitionModel>
    decreases upto,
{
    if upto <= 0 {
        Seq::empty()
    } else {
        let before = constants_of_root(autoload_paths, acronyms, index, files, upto - 1);
        let file = files[upto - 1];
        if deepest_root(roots_of(autoload_paths), file, autoload_paths.len() as int) == Some(
            index,
        ) {
            before.push(
                inferred_constant(
                    file,
                    autoload_paths[index].0,
                    acronyms,
                    autoload_paths[index].1,
                ),
            )
        } else {
            before
        }
    }
}

/// The files found under the root at `index`; none where `globbed_files` has no entry for it.
pub open spec fn files_under(globbed_files: Seq<Seq<Seq<char>>>, index: int) -> Seq<Seq<char>> {
    if 0 <= index < globbed_files.len() {
        globbed_files[index]
    } else {
        Seq::empty()
    }
}

/// The constants of the first `upto` roots: those of each root in turn.
pub open spec fn inferred_constants_of(
    autoload_paths: Seq<(Seq<char>, Seq<char>)>,
    acronyms: Seq<Seq<char>>,
    globbed_files: Seq<Seq<Seq<char>>>,
    upto: int,
) -> Seq<ConstantDefinitionModel>
    decreases upto,
{
    if upto <= 0 {
        Seq::empty()
    } else {
        let files = files_under(globbed_files, upto - 1);
        inferred_constants_of(autoload_paths, acronyms, globbed_files, upto - 1)
            + constants_of_root(autoload_paths, acronyms, upto - 1, files, files.len() as int)
    }
}

/// The mathematical value of the files found under each root.
pub open spec fn globbed_of(globbed_files: Seq<Vec<String>>) -> Seq<Seq<Seq<char>>> {
    Seq::new(globbed_files.len(), |i: int| globbed_files[i].deep_view())
}

/// The root that a file belongs to lies above it, and no root above the file has more components.
pub proof fn lemma_deepest_root_is_deepest(roots: Seq<Seq<char>>, file: Seq<char>, upto: int)
    requires
        0 <= upto <= roots.len(),
    ensures
        match deepest_root(roots, file, upto) {
            Some(best) => {
                &&& 0 <= best < upto
                &&& is_under(file, roots[best])
                &&& forall|k: int|
                    0 <= k < upto && is_under(file, #[trigger] roots[k]) ==> component_count(
                        roots[k],
                    ) <= component_count(roots[best])
            },
            None => forall|k: int| 0 <= k < upto ==> !is_under(file, #[trigger] roots[k]),
        },
    decreases upto,
{
    if upto > 0 {
        lemma_deepest_root_is_deepest(roots, file, upto - 1);
    }
}

/// A file that lies under two autoload roots belongs to neither of them if
/// the other has more components: it is attributed to the deeper root.
pub proof fn lemma_nested_root_wins(
    roots: Seq<Seq<char>>,
    file: Seq<char>,
    outer: int,
    inner: int,
)
    requires
        0 <= outer < roots.len(),
        0 <= inner < roots.len(),
        is_under(file, roots[outer]),
        is_under(file, roots[inner]),
        component_count(roots[inner]) > component_count(roots[outer]),
    ensures
        deepest_root(roots, file, roots.len() as int) is Some,
        deepest_root(roots, file, roots.len() as int) != Some(outer),
        component_count(roots[deepest_root(roots, file, roots.len() as int)->0])
            >= component_count(roots[inner]),
{
    lemma_deepest_root_is_deepest(roots, file, roots.len() as int);
}

/// The files that the constants are defined by, in their order.
pub open spec fn defining_files(constants: Seq<ConstantDefinitionModel>) -> Seq<Seq<char>> {
    Seq::new(constants.len(), |k: int| constants[k].absolute_path_of_definition)
}

/// Is every one of `constants` defined by a file that belongs to one of the first `upto` roots?
pub open spec fn belong_to_roots(
    constants: Seq<ConstantDefinitionModel>,
    roots: Seq<Seq<char>>,
    upto: int,
) -> bool {
    forall|k: int|
        0 <= k < constants.len() ==> deepest_root(
            roots,
            (#[trigger] constants[k]).absolute_path_of_definition,
            roots.len() as int,
        ) is Some && deepest_root(
            roots,
            constants[k].absolute_path_of_definition,
            roots.len() as int,
        )->0 < upto
}

/// The constants found under one root are defined by files of that root's
/// list, each of which belongs to the root; and where the list holds no file
/// twice, no file defines two of them.
proof fn lemma_constants_of_root_once(
    autoload_paths: Seq<(Seq<char>, Seq<char>)>,
    acronyms: Seq<Seq<char>>,
    index: int,
    files: Seq<Seq<char>>,
    upto: int,
)
    requires
        0 <= upto <= files.len(),
        no_duplicates(files),
    ensures
        ({
            let constants = constants_of_root(autoload_paths, acronyms, index, files, upto);
            &&& forall|k: int|
                0 <= k < constants.len() ==> files.take(upto).contains(
                    (#[trigger] constants[k]).absolute_path_of_definition,
                ) && deepest_root(
                    roots_of(autoload_paths),
                    constants[k].absolute_path_of_definition,
                    autoload_paths.len() as int,
                ) == Some(index)
            &&& no_duplicates(defining_files(constants))
        }),
    decreases upto,
{
    if upto > 0 {
        lemma_constants_of_root_once(autoload_paths, acronyms, index, files, upto - 1);
        let before = constants_of_root(autoload_paths, acronyms, index, files, upto - 1);
        let constants = constants_of_root(autoload_paths, acronyms, index, files, upto);
        let file = files[upto - 1];
        assert(files.take(upto)[upto - 1] == file);
        assert forall|k: int| 0 <= k < constants.len() implies files.take(upto).contains(
            (#[trigger] constants[k]).absolute_path_of_definition,
        ) && deepest_root(
            roots_of(autoload_paths),
            constants[k].absolute_path_of_definition,
            autoload_paths.len() as int,
        ) == Some(index) by {
            if k < before.len() {
                assert(constants[k] == before[k]);
                let path = before[k].absolute_path_of_definition;
                assert(files.take(upto - 1).contains(path));
                let shorter = files.take(upto - 1);
                let w = choose|w: int| 0 <= w < shorter.len() && shorter[w] == path;
                assert(files.take(upto)[w] == path);
            }
        }
        assert forall|i: int, j: int|
            0 <= i < j < defining_files(constants).len() implies defining_files(constants)[i]
            != defining_files(constants)[j] by {
            assert(constants[i] == before[i]);
            if j < before.len() {
                assert(constants[j] == before[j]);
                assert(defining_files(before)[i] != defining_files(before)[j]);
            } else {
                let path = before[i].absolute_path_of_definition;
                assert(files.take(upto - 1).contains(path));
                let shorter = files.take(upto - 1);
                let w = choose|w: int| 0 <= w < shorter.len() && shorter[w] == path;
                assert(files[w] != files[upto - 1]);
            }
        }
    }
}

/// No file defines two constants: where the list of each root holds no file
/// twice, the inferred constants are defined by files that all differ, also
/// where a file stands in the lists of several roots.
pub proof fn lemma_each_file_defines_once(
    autoload_paths: Seq<(Seq<char>, Seq<char>)>,
    acronyms: Seq<Seq<char>>,
    globbed_files: Seq<Seq<Seq<char>>>,
    upto: int,
)
    requires
        0 <= upto <= autoload_paths.len(),
        forall|i: int| 0 <= i < upto ==> no_duplicates(#[trigger] files_under(globbed_files, i)),
    ensures
        no_duplicates(
            defining_files(inferred_constants_of(autoload_paths, acronyms, globbed_files, upto)),
        ),
        belong_to_roots(
            inferred_constants_of(autoload_paths, acronyms, globbed_files, upto),
            roots_of(autoload_paths),
            upto,
        ),
    decreases upto,
{
    if upto > 0 {
        lemma_each_file_defines_once(autoload_paths, acronyms, globbed_files, upto - 1);
        let files = files_under(globbed_files, upto - 1);
        lemma_constants_of_root_once(
            autoload_paths,
            acronyms,
            upto - 1,
            files,
            files.len() as int,
        );
        let before = inferred_constants_of(autoload_paths, acronyms, globbed_files, upto - 1);
        let added = constants_of_root(
            autoload_paths,
            acronyms,
            upto - 1,
            files,
            files.len() as int,
        );
        let constants = inferred_constants_of(autoload_paths, acronyms, globbed_files, upto);
        let roots = roots_of(autoload_paths);
        assert(constants == before + added);
        assert forall|k: int| 0 <= k < constants.len() implies deepest_root(
            roots,
            (#[trigger] constants[k]).absolute_path_of_definition,
            roots.len() as int,
        ) is Some && deepest_root(
            roots,
            constants[k].absolute_path_of_definition,
            roots.len() as int,
        )->0 < upto by {
            if k < before.len() {
                assert(constants[k] == before[k]);
            } else {
                assert(constants[k] == added[k - before.len()]);
            }
        }
        assert forall|i: int, j: int|
            0 <= i < j < defining_files(constants).len() implies defining_files(constants)[i]
            != defining_files(constants)[j] by {
            if j < before.len() {
                assert(constants[i] == before[i] && constants[j] == before[j]);
                assert(defining_files(before)[i] != defining_files(before)[j]);
            } else if i >= before.len() {
                assert(constants[i] == added[i - before.len()]);
                assert(constants[j] == added[j - before.len()]);
                assert(defining_files(added)[i - before.len()] != defining_files(added)[j
                    - before.len()]);
            } else {
                assert(constants[i] == before[i]);
                assert(constants[j] == added[j - before.len()]);
            }
        }
    }
}

/// The constant that the file `absolute_path` defines under the autoload root
/// `absolute_autoload_path`.
pub fn inferred_constant_from_file(
    absolute_path: &str,
    absolute_autoload_path: &str,
    acronyms: &Vec<String>,
    default_namespace: &String,
) -> (r: ConstantDefinition)
    requires
        is_under(absolute_path@, absolute_autoload_path@),
    ensures
        r.deep_view() == inferred_constant(
            absolute_path@,
            absolute_autoload_path@,
            acronyms.deep_view(),
            default_namespace@,
        ),
{
    let relative_path = match strip_path_prefix(absolute_path, absolute_autoload_path) {
        Some(relative) => relative,
        None => String::new(),
    };
    let relative_path = strip_extension(relative_path.as_str());
    let camelized_path = camelize(relative_path.as_str(), acronyms);
    let mut fully_qualified_name = default_namespace.clone();
    fully_qualified_name.append(colons_str());
    fully_qualified_name.append(camelized_path.as_str());
    ConstantDefinition {
        fully_qualified_name,
        absolute_path_of_definition: absolute_path.to_owned(),
    }
}

/// Among `roots`, the one that `file` belongs to.
fn find_deepest_root(roots: &Vec<Vec<char>>, depths: &Vec<usize>, file: &Vec<char>) -> (r: Option<
    usize,
>)
    requires
        depths.len() == roots.len(),
        forall|k: int| 0 <= k < roots.len() ==> depths[k] == component_count(#[trigger] rows(*roots)[k]),
    ensures
        match r {
            Some(best) => deepest_root(rows(*roots), file@, roots.len() as int) == Some(
                best as int,
            ),
            None => deepest_root(rows(*roots), file@, roots.len() as int) is None,
        },
{
    let mut best: Option<usize> = None;
    let mut i: usize = 0;
    while i < roots.len()
        invariant
            i <= roots.len(),
            depths.len() == roots.len(),
            forall|k: int|
                0 <= k < roots.len() ==> depths[k] == component_count(#[trigger] rows(*roots)[k]),
            match best {
                Some(b) => b < i && deepest_root(rows(*roots), file@, i as int) == Some(b as int),
                None => deepest_root(rows(*roots), file@, i as int) is None,
            },
        decreases roots.len() - i,
    {
        assert(rows(*roots)[i as int] == roots[i as int]@);
        let under = prefix_cut(file, &roots[i]).is_some();
        if under {
            let deeper = match best {
                Some(b) => {
                    assert(depths[b as int] == component_count(rows(*roots)[b as int]));
                    depths[i] > depths[b]
                },
                None => true,
            };
            if deeper {
                best = Some(i);
            }
        }
        i += 1;
    }
    best
}

/// The constants that the files found under the autoload roots define by
/// their names. `globbed_files` holds for each root of the configuration, in
/// their order, the Ruby files found under it. A file under several roots
/// defines one constant, under the root that it belongs to.
pub fn inferred_constants(configuration: &Configuration, globbed_files: &Vec<Vec<String>>) -> (r:
    Vec<ConstantDefinition>)
    ensures
        r.deep_view() == inferred_constants_of(
            autoload_paths_of(configuration.autoload_paths@),
            configuration.acronyms.deep_view(),
            globbed_of(globbed_files@),
            configuration.autoload_paths.len() as int,
        ),
{
    let ghost autoload_paths = autoload_paths_of(configuration.autoload_paths@);
    let ghost acronyms = configuration.acronyms.deep_view();
    let ghost globbed = globbed_of(globbed_files@);
    // Which root a file belongs to is decided by the number of components of the roots above it.
    let mut roots: Vec<Vec<char>> = Vec::new();
    let mut depths: Vec<usize> = Vec::new();
    let mut i: usize = 0;
    while i < configuration.autoload_paths.len()
        invariant
            i <= configuration.autoload_paths.len(),
            autoload_paths == autoload_paths_of(configuration.autoload_paths@),
            roots.len() == i,
            depths.len() == i,
            forall|k: int| 0 <= k < i ==> (#[trigger] rows(roots)[k]) == autoload_paths[k].0,
            forall|k: int| 0 <= k < i ==> depths[k] == component_count(#[trigger] rows(roots)[k]),
        decreases configuration.autoload_paths.len() - i,
    {
        let root = chars_of(configuration.autoload_paths[i].0.as_str());
        let depth = count_components(&root);
        let ghost before = rows(roots);
        roots.push(root);
        depths.push(depth);
        assert forall|k: int| 0 <= k < i + 1 implies (#[trigger] rows(roots)[k])
            == autoload_paths[k].0 by {
            if k < i {
                assert(rows(roots)[k] == before[k]);
            }
        }
        assert forall|k: int| 0 <= k < i + 1 implies depths[k] == component_count(
            #[trigger] rows(roots)[k],
        ) by {
            if k < i {
                assert(rows(roots)[k] == before[k]);
            }
        }
        i += 1;
    }
    assert(rows(roots) =~= roots_of(autoload_paths));
    let mut constants: Vec<ConstantDefinition> = Vec::new();
    let mut index: usize = 0;
    assert(constants.deep_view() =~= Seq::empty());
    while index < configuration.autoload_paths.len()
        invariant
            index <= configuration.autoload_paths.len(),
            autoload_paths == autoload_paths_of(configuration.autoload_paths@),
            acronyms == configuration.acronyms.deep_view(),
            globbed == globbed_of(globbed_files@),
            roots.len() == configuration.autoload_paths.len(),
            depths.len() == roots.len(),
            rows(roots) == roots_of(autoload_paths),
            forall|k: int|
                0 <= k < roots.len() ==> depths[k] == component_count(#[trigger] rows(roots)[k]),
            constants.deep_view() == inferred_constants_of(
                autoload_paths,
                acronyms,
                globbed,
                index as int,
            ),
        decreases configuration.autoload_paths.len() - index,
    {
        if index < globbed_files.len() {
            let files = &globbed_files[index];
            let ghost found = files.deep_view();
            let ghost earlier = constants.deep_view();
            assert(files_under(globbed, index as int) == found);
            let mut f: usize = 0;
            assert(constants.deep_view() =~= earlier + constants_of_root(
                autoload_paths,
                acronyms,
                index as int,
                found,
                0,
            ));
            while f < files.len()
                invariant
                    f <= files.len(),
                    index < configuration.autoload_paths.len(),
                    autoload_paths == autoload_paths_of(configuration.autoload_paths@),
                    acronyms == configuration.acronyms.deep_view(),
                    found == files.deep_view(),
                    roots.len() == configuration.autoload_paths.len(),
                    depths.len() == roots.len(),
                    rows(roots) == roots_of(autoload_paths),
                    forall|k: int|
                        0 <= k < roots.len() ==> depths[k] == component_count(
                            #[trigger] rows(roots)[k],
                        ),
                    constants.deep_view() == earlier + constants_of_root(
                        autoload_paths,
                        acronyms,
                        index as int,
                        found,
                        f as int,
                    ),
                decreases files.len() - f,
            {
                let file = &files[f];
                assert(found[f as int] == file@);
                let file_chars = chars_of(file.as_str());
                let owner = find_deepest_root(&roots, &depths, &file_chars);
                let belongs = match owner {
                    Some(best) => best == index,
                    None => false,
                };
                if belongs {
                    proof {
                        lemma_deepest_root_is_deepest(
                            roots_of(autoload_paths),
                            file@,
                            autoload_paths.len() as int,
                        );
                        assert(roots_of(autoload_paths)[index as int] == autoload_paths[index as int].0);
                    }
                    let (absolute_autoload_path, default_namespace) =
                        &configuration.autoload_paths[index];
                    let constant = inferred_constant_from_file(
                        file.as_str(),
                        absolute_autoload_path.as_str(),
                        &configuration.acronyms,
                        default_namespace,
                    );
                    let ghost before = constants.deep_view();
                    constants.push(constant);
                    assert(constants.deep_view() =~= before.push(constant.deep_view()));
                    assert(constants.deep_view() =~= earlier + constants_of_root(
                        autoload_paths,
                        acronyms,
                        index as int,
                        found,
                        f + 1,
                    ));
                }
                f += 1;
            }
        } else {
            assert(files_under(globbed, index as int) =~= Seq::empty());
            assert(constants.deep_view() + Seq::<ConstantDefinitionModel>::empty()
                =~= constants.deep_view());
        }
        index += 1;
    }
    constants
}

/// The resolver over the constants that the files found under the autoload
/// roots define by their names.
pub fn get_zeitwerk_constant_resolver(
    configuration: &Configuration,
    globbed_files: &Vec<Vec<String>>,
) -> (r: ConstantResolver)
    ensures
        r.definitions() == inferred_constants_of(
            autoload_paths_of(configuration.autoload_paths@),
            configuration.acronyms.deep_view(),
            globbed_of(globbed_files@),
            configuration.autoload_paths.len() as int,
        ),
{
    let constants = inferred_constants(configuration, globbed_files);
    ConstantResolver::create(constants)
}

} // verus!
