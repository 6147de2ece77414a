//! Drops the references of a file that are their own definitions.

use vstd::prelude::*;
use crate::parser::collector::ReferenceCollector;
use crate::parser::namespace_calculator::{
    is_absolute,
    possible_fully_qualified_constants,
    possible_names,
};
use crate::parser::{
    ParsedDefinition,
    ParsedDefinitionModel,
    Range,
    UnresolvedReference,
    UnresolvedReferenceModel,
};
use crate::text::{chars_of, clone_strings, no_duplicates, string_of_range};

verus! {

/// The names of the namespaces around the constant `name` that end at or
/// behind `from`, and `name` itself last: what stands before each `::` of
/// `name` but the first place, where nothing stands.
pub open spec fn name_prefixes_from(name: Seq<char>, from: int) -> Seq<Seq<char>>
    decreases name.len() - from,
{
    if from < 0 || from + 1 >= name.len() {
        seq![name]
    } else if name[from] == ':' && name[from + 1] == ':' {
        if from == 0 {
            name_prefixes_from(name, from + 2)
        } else {
            seq![name.take(from)] + name_prefixes_from(name, from + 2)
        }
    } else {
        name_prefixes_from(name, from + 1)
    }
}

/// The constant `name` and the namespaces around it: `::Foo::Bar::BAZ` gives
/// `::Foo`, `::Foo::Bar` and `::Foo::Bar::BAZ`.
pub open spec fn name_prefixes(name: Seq<char>) -> Seq<Seq<char>> {
    name_prefixes_from(name, 0)
}

/// Where the file declares `name`: the place of the first definition that is
/// `name` or lies inside the namespace `name`.
pub open spec fn recorded_location(definitions: Seq<ParsedDefinitionModel>, name: Seq<char>) -> Option<
    Range,
>
    decreases definitions.len(),
{
    if definitions.len() == 0 {
        None
    } else {
        match recorded_location(definitions.drop_last(), name) {
            Some(location) => Some(location),
            None => if name_prefixes(definitions.last().fully_qualified_name).contains(name) {
                Some(definitions.last().location)
            } else {
                None
            },
        }
    }
}

/// The place recorded under the first of `entries` with the key `name`.
pub open spec fn entry_location(entries: Seq<(Seq<char>, Range)>, name: Seq<char>) -> Option<Range>
    decreases entries.len(),
{
    if entries.len() == 0 {
        None
    } else {
        match entry_location(entries.drop_last(), name) {
            Some(location) => Some(location),
            None => if entries.last().0 == name {
                Some(entries.last().1)
            } else {
                None
            },
        }
    }
}

/// The keys and places of `entries`.
pub open spec fn entries_of(entries: Seq<(String, Range)>) -> Seq<(Seq<char>, Range)> {
    Seq::new(entries.len(), |i: int| (entries[i].0@, entries[i].1))
}

/// Does the file declare one of `candidates`?
pub open spec fn is_declared(
    definitions: Seq<ParsedDefinitionModel>,
    candidates: Seq<Seq<char>>,
) -> bool {
    exists|i: int|
        0 <= i < candidates.len() && recorded_location(definitions, #[trigger] candidates[i])
            is Some
}

/// Does the file declare one of `candidates` at another place than `location`?
pub open spec fn is_declared_elsewhere(
    definitions: Seq<ParsedDefinitionModel>,
    candidates: Seq<Seq<char>>,
    location: Range,
) -> bool {
    exists|i: int|
        0 <= i < candidates.len() && recorded_location(definitions, #[trigger] candidates[i])
            is Some && recorded_location(definitions, candidates[i]) != Some(location)
}

/// Is the reference kept? It is dropped where it is its own definition: where
/// the file declares a constant that the reference may stand for, and
/// declares every such constant at the very place of the reference. A
/// reference to a constant that is declared at another place stays, and so
/// does one to a constant that the file does not declare.
pub open spec fn is_kept(
    definitions: Seq<ParsedDefinitionModel>,
    reference: UnresolvedReferenceModel,
) -> bool {
    let candidates = possible_names(reference.name, reference.namespace_path);
    !is_declared(definitions, candidates) || is_declared_elsewhere(
        definitions,
        candidates,
        reference.location,
    )
}

/// The references that are kept, in their order.
pub open spec fn kept_references(
    references: Seq<UnresolvedReferenceModel>,
    definitions: Seq<ParsedDefinitionModel>,
) -> Seq<UnresolvedReferenceModel>
    decreases references.len(),
{
    if references.len() == 0 {
        Seq::empty()
    } else {
        let before = kept_references(references.drop_last(), definitions);
        if is_kept(definitions, references.last()) {
            before.push(references.last())
        } else {
            before
        }
    }
}

/// The constant `name` and the namespaces around it.
pub fn name_prefixes_of(name: &str) -> (r: Vec<String>)
    ensures
        r.deep_view() == name_prefixes(name@),
{
    let chars = chars_of(name);
    let n = chars.len();
    let mut out: Vec<String> = Vec::new();
    let mut i: usize = 0;
    assert(out.deep_view() + name_prefixes_from(name@, 0) =~= name_prefixes(name@));
    while i < n && n - i >= 2
        invariant
            i <= n,
            n == chars.len(),
            chars@ == name@,
            out.deep_view() + name_prefixes_from(name@, i as int) == name_prefixes(name@),
        decreases n - i,
    {
        if chars[i] == ':' && chars[i + 1] == ':' {
            let ghost before = out.deep_view();
            if i > 0 {
                let prefix = string_of_range(&chars, 0, i);
                assert(chars@.subrange(0, i as int) =~= name@.take(i as int));
                out.push(prefix);
                assert(out.deep_view() =~= before.push(name@.take(i as int)));
                assert(out.deep_view() + name_prefixes_from(name@, i + 2) =~= before
                    + name_prefixes_from(name@, i as int));
            }
            i += 2;
        } else {
            i += 1;
        }
    }
    let ghost before = out.deep_view();
    out.push(name.to_owned());
    proof {
        assert(out.deep_view() =~= before.push(name@));
        assert(out.deep_view() =~= before + name_prefixes_from(name@, i as int));
    }
    out
}

/// The place recorded under the key `name`.
pub fn find_location(entries: &Vec<(String, Range)>, name: &String) -> (r: Option<Range>)
    ensures
        r == entry_location(entries_of(entries@), name@),
{
    let ghost all = entries_of(entries@);
    let mut i: usize = 0;
    while i < entries.len()
        invariant
            i <= entries.len(),
            all == entries_of(entries@),
            entry_location(all.take(i as int), name@) is None,
        decreases entries.len() - i,
    {
        proof {
            assert(all.take(i + 1).drop_last() =~= all.take(i as int));
            assert(all.take(i + 1).last() == (entries[i as int].0@, entries[i as int].1));
        }
        if entries[i].0 == *name {
            proof {
                lemma_entry_found(all, i as int, name@);
            }
            return Some(entries[i].1);
        }
        i += 1;
    }
    assert(all.take(entries.len() as int) =~= all);
    None
}

/// The first entry with a key decides, whatever follows it.
proof fn lemma_entry_found(entries: Seq<(Seq<char>, Range)>, i: int, name: Seq<char>)
    requires
        0 <= i < entries.len(),
        entry_location(entries.take(i), name) is None,
        entries[i].0 == name,
    ensures
        entry_location(entries, name) == Some(entries[i].1),
{
    assert(entries.take(i + 1).drop_last() =~= entries.take(i));
    lemma_entry_stays(entries, i + 1, entries.len() as int, name);
    assert(entries.take(entries.len() as int) =~= entries);
}

/// A key that is found among the first entries is found the same among more.
proof fn lemma_entry_stays(entries: Seq<(Seq<char>, Range)>, at: int, upto: int, name: Seq<char>)
    requires
        0 <= at <= upto <= entries.len(),
        entry_location(entries.take(at), name) is Some,
    ensures
        entry_location(entries.take(upto), name) == entry_location(entries.take(at), name),
    decreases upto - at,
{
    if at < upto {
        lemma_entry_stays(entries, at, upto - 1, name);
        assert(entries.take(upto).drop_last() =~= entries.take(upto - 1));
    }
}

/// The names that the entries stand under, in their order.
pub open spec fn keys_of(entries: Seq<(Seq<char>, Range)>) -> Seq<Seq<char>> {
    Seq::new(entries.len(), |i: int| entries[i].0)
}

/// A name that is found under no entry is the key of none.
proof fn lemma_not_a_key(entries: Seq<(Seq<char>, Range)>, name: Seq<char>)
    requires
        entry_location(entries, name) is None,
    ensures
        forall|i: int| 0 <= i < entries.len() ==> (#[trigger] entries[i]).0 != name,
    decreases entries.len(),
{
    if entries.len() > 0 {
        lemma_not_a_key(entries.drop_last(), name);
        assert forall|i: int| 0 <= i < entries.len() implies (#[trigger] entries[i]).0
            != name by {
            if i < entries.len() - 1 {
                assert(entries.drop_last()[i] == entries[i]);
            }
        }
    }
}

/// For every constant that the definitions declare, and every namespace
/// around one, the place of the first definition that declares it. Each name
/// stands in the result once.
pub fn definition_to_location_map(definitions: &Vec<ParsedDefinition>) -> (r: Vec<(String, Range)>)
    ensures
        forall|name: Seq<char>|
            entry_location(entries_of(r@), name) == recorded_location(
                definitions.deep_view(),
                name,
            ),
        no_duplicates(keys_of(entries_of(r@))),
{
    let mut map: Vec<(String, Range)> = Vec::new();
    let ghost all = definitions.deep_view();
    let mut d: usize = 0;
    assert(all.take(0) =~= Seq::empty());
    assert(entries_of(map@) =~= Seq::empty());
    while d < definitions.len()
        invariant
            d <= definitions.len(),
            all == definitions.deep_view(),
            no_duplicates(keys_of(entries_of(map@))),
            forall|name: Seq<char>|
                entry_location(entries_of(map@), name) == recorded_location(
                    all.take(d as int),
                    name,
                ),
        decreases definitions.len() - d,
    {
        let definition = &definitions[d];
        let parts = name_prefixes_of(definition.fully_qualified_name.as_str());
        let ghost keys = parts.deep_view();
        let ghost location = definition.location;
        let mut index: usize = 0;
        assert(all.take(d + 1).drop_last() =~= all.take(d as int));
        assert(all.take(d + 1).last() == definition.deep_view());
        while index < parts.len()
            invariant
                index <= parts.len(),
                d < definitions.len(),
                all == definitions.deep_view(),
                keys == parts.deep_view(),
                keys == name_prefixes(all[d as int].fully_qualified_name),
                location == all[d as int].location,
                location == definition.location,
                no_duplicates(keys_of(entries_of(map@))),
                forall|name: Seq<char>|
                    entry_location(entries_of(map@), name) == match recorded_location(
                        all.take(d as int),
                        name,
                    ) {
                        Some(place) => Some(place),
                        None => if keys.take(index as int).contains(name) {
                            Some(location)
                        } else {
                            None
                        },
                    },
            decreases parts.len() - index,
        {
            let combined = &parts[index];
            let ghost before = entries_of(map@);
            let ghost seen = keys.take(index as int);
            let ghost key = combined@;
            assert(keys[index as int] == key);
            // A namespace keeps the place of its first declaration.
            let known = find_location(&map, combined);
            if known.is_none() {
                map.push((combined.clone(), definition.location));
                proof {
                    let after = entries_of(map@);
                    assert(after.len() == before.len() + 1);
                    assert(after.drop_last() =~= before);
                    assert(after[after.len() - 1] == (key, location));
                    lemma_not_a_key(before, key);
                    assert forall|i: int, j: int|
                        0 <= i < j < keys_of(after).len() implies keys_of(after)[i] != keys_of(
                        after,
                    )[j] by {
                        assert(keys_of(after)[i] == keys_of(before)[i]);
                        if j < before.len() {
                            assert(keys_of(after)[j] == keys_of(before)[j]);
                        } else {
                            assert(before[i].0 != key);
                        }
                    }
                }
            }
            proof {
                let after = entries_of(map@);
                let next = keys.take(index + 1);
                assert(next =~= seen.push(key));
                assert forall|name: Seq<char>|
                    entry_location(after, name) == match recorded_location(
                        all.take(d as int),
                        name,
                    ) {
                        Some(place) => Some(place),
                        None => if next.contains(name) {
                            Some(location)
                        } else {
                            None
                        },
                    } by {
                    let earlier = recorded_location(all.take(d as int), name);
                    let found = entry_location(before, name);
                    assert(found == match earlier {
                        Some(place) => Some(place),
                        None => if seen.contains(name) {
                            Some(location)
                        } else {
                            None
                        },
                    });
                    assert(next.contains(name) <==> (seen.contains(name) || name == key)) by {
                        if next.contains(name) {
                            let w = choose|w: int| 0 <= w < next.len() && next[w] == name;
                            if w < index {
                                assert(seen[w] == name);
                            }
                        }
                        if seen.contains(name) {
                            let w = choose|w: int| 0 <= w < seen.len() && seen[w] == name;
                            assert(next[w] == name);
                        }
                        if name == key {
                            assert(next[index as int] == name);
                        }
                    }
                    if known is None {
                        assert(after.drop_last() =~= before);
                        assert(after.last() == (key, location));
                    } else {
                        assert(after =~= before);
                    }
                }
            }
            index += 1;
        }
        proof {
            assert(keys.take(parts.len() as int) =~= keys);
        }
        d += 1;
    }
    assert(all.take(definitions.len() as int) =~= all);
    map
}

/// Is the reference kept, given the places that the definitions are recorded at?
fn keeps(
    map: &Vec<(String, Range)>,
    reference: &UnresolvedReference,
    Ghost(definitions): Ghost<Seq<ParsedDefinitionModel>>,
) -> (r: bool)
    requires
        forall|name: Seq<char>|
            entry_location(entries_of(map@), name) == recorded_location(definitions, name),
    ensures
        r == is_kept(definitions, reference.deep_view()),
{
    let mut declared = false;
    let mut declared_elsewhere = false;
    let possible_constants = possible_fully_qualified_constants(
        &reference.namespace_path,
        reference.name.as_str(),
    );
    let ghost candidates = possible_constants.deep_view();
    let mut i: usize = 0;
    while i < possible_constants.len()
        invariant
            i <= possible_constants.len(),
            candidates == possible_constants.deep_view(),
            forall|name: Seq<char>|
                entry_location(entries_of(map@), name) == recorded_location(definitions, name),
            declared == is_declared(definitions, candidates.take(i as int)),
            declared_elsewhere == is_declared_elsewhere(
                definitions,
                candidates.take(i as int),
                reference.location,
            ),
        decreases possible_constants.len() - i,
    {
        let constant_name = &possible_constants[i];
        let found = find_location(map, constant_name);
        proof {
            let before = candidates.take(i as int);
            let longer = candidates.take(i + 1);
            assert(longer[i as int] == constant_name@);
            assert(found == recorded_location(definitions, constant_name@));
            if is_declared(definitions, before) {
                let w = choose|w: int|
                    0 <= w < before.len() && recorded_location(definitions, #[trigger] before[w])
                        is Some;
                assert(longer[w] == before[w]);
            }
            if is_declared_elsewhere(definitions, before, reference.location) {
                let w = choose|w: int|
                    0 <= w < before.len() && recorded_location(definitions, #[trigger] before[w])
                        is Some && recorded_location(definitions, before[w]) != Some(
                        reference.location,
                    );
                assert(longer[w] == before[w]);
            }
            if is_declared(definitions, longer) {
                let w = choose|w: int|
                    0 <= w < longer.len() && recorded_location(definitions, #[trigger] longer[w])
                        is Some;
                if w < i {
                    assert(before[w] == longer[w]);
                }
            }
            if is_declared_elsewhere(definitions, longer, reference.location) {
                let w = choose|w: int|
                    0 <= w < longer.len() && recorded_location(definitions, #[trigger] longer[w])
                        is Some && recorded_location(definitions, longer[w]) != Some(
                        reference.location,
                    );
                if w < i {
                    assert(before[w] == longer[w]);
                }
            }
        }
        if let Some(location) = found {
            declared = true;
            if location != reference.location {
                declared_elsewhere = true;
            }
        }
        i += 1;
    }
    assert(candidates.take(possible_constants.len() as int) =~= candidates);
    !declared || declared_elsewhere
}

/// The references of a file without those that are their own definitions. A
/// declaration counts as a reference to what it declares, at the place of
/// the declaration, and that reference is dropped; references to the same
/// constant from other places stay.
pub fn filter(reference_collector: ReferenceCollector) -> (r: Vec<UnresolvedReference>)
    ensures
        r.deep_view() == kept_references(
            reference_collector.references.deep_view(),
            reference_collector.definitions.deep_view(),
        ),
{
    let definition_to_location_map = definition_to_location_map(&reference_collector.definitions);
    let references = &reference_collector.references;
    let ghost all = references.deep_view();
    let ghost definitions = reference_collector.definitions.deep_view();
    let mut out: Vec<UnresolvedReference> = Vec::new();
    let mut i: usize = 0;
    assert(all.take(0) =~= Seq::empty());
    assert(out.deep_view() =~= Seq::empty());
    while i < references.len()
        invariant
            i <= references.len(),
            all == references.deep_view(),
            definitions == reference_collector.definitions.deep_view(),
            forall|name: Seq<char>|
                entry_location(entries_of(definition_to_location_map@), name) == recorded_location(
                    definitions,
                    name,
                ),
            out.deep_view() == kept_references(all.take(i as int), definitions),
        decreases references.len() - i,
    {
        let reference = &references[i];
        proof {
            assert(all.take(i + 1).drop_last() =~= all.take(i as int));
            assert(all.take(i + 1).last() == reference.deep_view());
        }
        if keeps(&definition_to_location_map, reference, Ghost(definitions)) {
            let ghost before = out.deep_view();
            let kept = UnresolvedReference {
                name: reference.name.clone(),
                namespace_path: clone_strings(&reference.namespace_path),
                location: reference.location,
            };
            out.push(kept);
            assert(out.deep_view() =~= before.push(reference.deep_view()));
        }
        i += 1;
    }
    assert(all.take(references.len() as int) =~= all);
    out
}

/// A constant is the last of the names that it and the namespaces around it go by.
pub proof fn lemma_name_is_recorded(name: Seq<char>, from: int)
    requires
        0 <= from,
    ensures
        name_prefixes_from(name, from).len() > 0,
        name_prefixes_from(name, from).last() == name,
    decreases name.len() - from,
{
    if from + 1 >= name.len() {
    } else if name[from] == ':' && name[from + 1] == ':' {
        lemma_name_is_recorded(name, from + 2);
        if from != 0 {
            let rest = name_prefixes_from(name, from + 2);
            assert((seq![name.take(from)] + rest).last() == rest.last());
        }
    } else {
        lemma_name_is_recorded(name, from + 1);
    }
}

/// The reference that a declaration makes to itself is dropped: in a file
/// with one definition and one reference, which goes by the absolute name of
/// that definition and stands at its place, no reference is kept.
pub proof fn lemma_own_declaration_is_dropped(
    reference: UnresolvedReferenceModel,
    definition: ParsedDefinitionModel,
)
    requires
        reference.name == definition.fully_qualified_name,
        is_absolute(reference.name),
        reference.location == definition.location,
    ensures
        kept_references(seq![reference], seq![definition]) == Seq::<
            UnresolvedReferenceModel,
        >::empty(),
{
    let references = seq![reference];
    let definitions = seq![definition];
    let candidates = possible_names(reference.name, reference.namespace_path);
    assert(candidates[0] == reference.name);
    assert(definitions.drop_last() =~= Seq::empty());
    assert(definitions.last() == definition);
    lemma_name_is_recorded(definition.fully_qualified_name, 0);
    let prefixes = name_prefixes(definition.fully_qualified_name);
    assert(prefixes[prefixes.len() - 1] == reference.name);
    assert(recorded_location(definitions.drop_last(), reference.name) is None);
    assert(recorded_location(definitions, reference.name) == Some(definition.location));
    assert(is_declared(definitions, candidates));
    assert(!is_declared_elsewhere(definitions, candidates, reference.location)) by {
        if is_declared_elsewhere(definitions, candidates, reference.location) {
            let w = choose|w: int|
                0 <= w < candidates.len() && recorded_location(
                    definitions,
                    #[trigger] candidates[w],
                ) is Some && recorded_location(definitions, candidates[w]) != Some(
                    reference.location,
                );
            assert(candidates[w] == reference.name);
        }
    }
    assert(references.drop_last() =~= Seq::empty());
    assert(references.last() == reference);
    assert(kept_references(references.drop_last(), definitions) =~= Seq::empty());
}

/// A file without definitions keeps all its references.
pub proof fn lemma_no_definitions_keep_all(references: Seq<UnresolvedReferenceModel>)
    ensures
        kept_references(references, Seq::empty()) == references,
    decreases references.len(),
{
    if references.len() > 0 {
        lemma_no_definitions_keep_all(references.drop_last());
        lemma_nothing_recorded(
            possible_names(references.last().name, references.last().namespace_path),
        );
        assert(is_kept(Seq::empty(), references.last()));
        assert(references.drop_last().push(references.last()) =~= references);
    }
}

/// Without definitions the file declares none of the candidates.
proof fn lemma_nothing_recorded(candidates: Seq<Seq<char>>)
    ensures
        !is_declared(Seq::empty(), candidates),
{
}

/// Every reference that is kept is one of the references.
pub proof fn lemma_kept_are_among(
    references: Seq<UnresolvedReferenceModel>,
    definitions: Seq<ParsedDefinitionModel>,
    i: int,
)
    requires
        0 <= i < kept_references(references, definitions).len(),
    ensures
        references.contains(kept_references(references, definitions)[i]),
    decreases references.len(),
{
    if references.len() > 0 {
        let before = kept_references(references.drop_last(), definitions);
        if i < before.len() {
            lemma_kept_are_among(references.drop_last(), definitions, i);
            let w = choose|w: int|
                0 <= w < references.drop_last().len() && references.drop_last()[w] == before[i];
            assert(references[w] == before[i]);
        } else {
            assert(references[references.len() - 1] == references.last());
        }
    }
}

} // verus!
