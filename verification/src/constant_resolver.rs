//! From a constant's name and the nesting it is used in to the files that define it.

use vstd::prelude::*;
use std::collections::HashMap;
use crate::parser::namespace_calculator::{
    is_absolute,
    possible_fully_qualified_constants,
    possible_names,
    qualified_name,
};

verus! {

/// A constant and the file that defines it.
#[derive(Debug, PartialEq, Eq, Clone)]
pub struct ConstantDefinition {
    pub fully_qualified_name: String,
    pub absolute_path_of_definition: String,
}

/// The mathematical value of a [`ConstantDefinition`].
pub struct ConstantDefinitionModel {
    pub fully_qualified_name: Seq<char>,
    pub absolute_path_of_definition: Seq<char>,
}

impl DeepView for ConstantDefinition {
    type V = ConstantDefinitionModel;

    open spec fn deep_view(&self) -> ConstantDefinitionModel {
        ConstantDefinitionModel {
            fully_qualified_name: self.fully_qualified_name@,
            absolute_path_of_definition: self.absolute_path_of_definition@,
        }
    }
}

/// The definitions of the constant `name`, in the order of `constants`.
pub open spec fn definitions_named(
    constants: Seq<ConstantDefinitionModel>,
    name: Seq<char>,
) -> Seq<ConstantDefinitionModel>
    decreases constants.len(),
{
    if constants.len() == 0 {
        Seq::empty()
    } else {
        let before = definitions_named(constants.drop_last(), name);
        if constants.last().fully_qualified_name == name {
            before.push(constants.last())
        } else {
            before
        }
    }
}

/// The definitions of the first of `candidates` that has any.
pub open spec fn first_defined(
    constants: Seq<ConstantDefinitionModel>,
    candidates: Seq<Seq<char>>,
) -> Option<Seq<ConstantDefinitionModel>>
    decreases candidates.len(),
{
    if candidates.len() == 0 {
        None
    } else {
        let found = definitions_named(constants, candidates[0]);
        if found.len() > 0 {
            Some(found)
        } else {
            first_defined(constants, candidates.drop_first())
        }
    }
}

/// What `name`, used inside the nesting `namespace_path`, resolves to: the
/// definitions of the most specific of its possible names that is defined at all.
pub open spec fn resolve_in(
    constants: Seq<ConstantDefinitionModel>,
    name: Seq<char>,
    namespace_path: Seq<Seq<char>>,
) -> Option<Seq<ConstantDefinitionModel>> {
    first_defined(constants, possible_names(name, namespace_path))
}

/// A number made from a text, by which definitions are found: the same for the same text.
pub open spec fn fingerprint_of(bytes: Seq<u8>) -> u64
    decreases bytes.len(),
{
    if bytes.len() == 0 {
        7
    } else {
        ((fingerprint_of(bytes.drop_last()) * 31 + bytes.last()) % 1_000_000_007) as u64
    }
}

/// The fingerprint of the name of the constant at `i`.
pub open spec fn fingerprint_at(constants: Seq<ConstantDefinition>, i: int) -> u64 {
    fingerprint_of(vstd::utf8::encode_utf8(constants[i].fully_qualified_name@))
}

/// Does `index` lead to each of `constants` by the fingerprint of its name:
/// does it hold under every fingerprint the places of the constants with
/// that fingerprint, all of them, in rising order?
pub open spec fn is_index_of(index: Map<u64, Vec<usize>>, constants: Seq<ConstantDefinition>) -> bool {
    &&& forall|h: u64, j: int|
        index.contains_key(h) && 0 <= j < index[h].len() ==> (#[trigger] index[h][j])
            < constants.len() && fingerprint_at(constants, index[h][j] as int) == h
    &&& forall|h: u64, j: int, k: int|
        index.contains_key(h) && 0 <= j < k < index[h].len() ==> (#[trigger] index[h][j]) < (
        #[trigger] index[h][k])
    &&& forall|i: int|
        0 <= i < constants.len() ==> index.contains_key(#[trigger] fingerprint_at(constants, i))
            && index[fingerprint_at(constants, i)]@.contains(i as usize)
}

/// The definitions of the constant `name` among those at the first `upto` places of `bucket`.
pub open spec fn named_among(
    constants: Seq<ConstantDefinitionModel>,
    bucket: Seq<usize>,
    name: Seq<char>,
    upto: int,
) -> Seq<ConstantDefinitionModel>
    decreases upto,
{
    if upto <= 0 {
        Seq::empty()
    } else {
        let before = named_among(constants, bucket, name, upto - 1);
        let constant = constants[bucket[upto - 1] as int];
        if constant.fully_qualified_name == name {
            before.push(constant)
        } else {
            before
        }
    }
}

/// What is found at places before the last constant is found the same without the last constant.
proof fn lemma_named_among_shorter(
    constants: Seq<ConstantDefinitionModel>,
    bucket: Seq<usize>,
    name: Seq<char>,
    upto: int,
)
    requires
        constants.len() > 0,
        0 <= upto <= bucket.len(),
        forall|j: int| 0 <= j < upto ==> bucket[j] < constants.len() - 1,
    ensures
        named_among(constants, bucket, name, upto) == named_among(
            constants.drop_last(),
            bucket,
            name,
            upto,
        ),
    decreases upto,
{
    if upto > 0 {
        lemma_named_among_shorter(constants, bucket, name, upto - 1);
        assert(constants.drop_last()[bucket[upto - 1] as int] == constants[bucket[upto - 1] as int]);
    }
}

/// What is found among the places of a bucket does not depend on the places behind them.
proof fn lemma_named_among_prefix(
    constants: Seq<ConstantDefinitionModel>,
    bucket: Seq<usize>,
    name: Seq<char>,
    upto: int,
)
    requires
        0 <= upto < bucket.len(),
    ensures
        named_among(constants, bucket, name, upto) == named_among(
            constants,
            bucket.drop_last(),
            name,
            upto,
        ),
    decreases upto,
{
    if upto > 0 {
        lemma_named_among_prefix(constants, bucket, name, upto - 1);
        assert(bucket.drop_last()[upto - 1] == bucket[upto - 1]);
    }
}

/// A bucket that holds, in rising order, the places of all the constants
/// called `name` leads to all the definitions of `name`, in their order.
proof fn lemma_bucket_finds_all(
    constants: Seq<ConstantDefinitionModel>,
    bucket: Seq<usize>,
    name: Seq<char>,
)
    requires
        constants.len() <= usize::MAX,
        forall|j: int| 0 <= j < bucket.len() ==> bucket[j] < constants.len(),
        forall|j: int, k: int| 0 <= j < k < bucket.len() ==> bucket[j] < bucket[k],
        forall|i: int|
            0 <= i < constants.len() && (#[trigger] constants[i]).fully_qualified_name == name
                ==> bucket.contains(i as usize),
    ensures
        named_among(constants, bucket, name, bucket.len() as int) == definitions_named(
            constants,
            name,
        ),
    decreases constants.len(),
{
    if constants.len() == 0 {
        if bucket.len() > 0 {
            assert(bucket[0] < 0);
        }
    } else {
        let last = constants.len() - 1;
        let shorter = constants.drop_last();
        if bucket.len() > 0 && bucket.last() == last {
            let rest = bucket.drop_last();
            assert forall|j: int| 0 <= j < rest.len() implies rest[j] < shorter.len() by {
                assert(rest[j] == bucket[j]);
                assert(bucket[j] < bucket[bucket.len() - 1]);
            }
            assert forall|j: int, k: int| 0 <= j < k < rest.len() implies rest[j] < rest[k] by {
                assert(rest[j] == bucket[j] && rest[k] == bucket[k]);
            }
            assert forall|i: int|
                0 <= i < shorter.len() && (#[trigger] shorter[i]).fully_qualified_name
                    == name implies rest.contains(i as usize) by {
                assert(constants[i] == shorter[i]);
                assert(bucket.contains(i as usize));
                let w = choose|w: int| 0 <= w < bucket.len() && bucket[w] == i as usize;
                assert(rest[w] == i as usize);
            }
            lemma_bucket_finds_all(shorter, rest, name);
            lemma_named_among_prefix(constants, bucket, name, bucket.len() - 1);
            lemma_named_among_shorter(constants, rest, name, rest.len() as int);
        } else {
            assert forall|j: int| 0 <= j < bucket.len() implies bucket[j] < shorter.len() by {
                if bucket[j] == last {
                    assert(j < bucket.len() - 1);
                    assert(bucket[j] < bucket[bucket.len() - 1]);
                }
            }
            assert(constants[last].fully_qualified_name != name) by {
                if constants[last].fully_qualified_name == name {
                    assert(bucket.contains(last as usize));
                    let w = choose|w: int| 0 <= w < bucket.len() && bucket[w] == last as usize;
                    assert(bucket[w] < shorter.len());
                }
            }
            assert forall|i: int|
                0 <= i < shorter.len() && (#[trigger] shorter[i]).fully_qualified_name
                    == name implies bucket.contains(i as usize) by {
                assert(constants[i] == shorter[i]);
            }
            lemma_bucket_finds_all(shorter, bucket, name);
            lemma_named_among_shorter(constants, bucket, name, bucket.len() as int);
        }
    }
}

/// Where no constant is called `name`, `name` has no definitions.
proof fn lemma_none_named(constants: Seq<ConstantDefinitionModel>, name: Seq<char>)
    requires
        forall|i: int|
            0 <= i < constants.len() ==> (#[trigger] constants[i]).fully_qualified_name != name,
    ensures
        definitions_named(constants, name) == Seq::<ConstantDefinitionModel>::empty(),
    decreases constants.len(),
{
    if constants.len() > 0 {
        let shorter = constants.drop_last();
        assert forall|i: int| 0 <= i < shorter.len() implies (
        #[trigger] shorter[i]).fully_qualified_name != name by {
            assert(shorter[i] == constants[i]);
        }
        lemma_none_named(shorter, name);
        assert(constants[constants.len() - 1].fully_qualified_name != name);
    }
}

/// The fingerprint of a text.
pub fn fingerprint(bytes: &[u8]) -> (r: u64)
    ensures
        r == fingerprint_of(bytes@),
{
    let mut h: u64 = 7;
    let mut i: usize = 0;
    assert(bytes@.take(0) =~= Seq::<u8>::empty());
    while i < bytes.len()
        invariant
            i <= bytes.len(),
            h == fingerprint_of(bytes@.take(i as int)),
            h < 1_000_000_007,
        decreases bytes.len() - i,
    {
        proof {
            assert(bytes@.take(i + 1).drop_last() =~= bytes@.take(i as int));
            assert(bytes@.take(i + 1).last() == bytes@[i as int]);
        }
        let b = bytes[i];
        h = (h * 31 + b as u64) % 1_000_000_007;
        i += 1;
    }
    assert(bytes@.take(bytes.len() as int) =~= bytes@);
    h
}

/// Resolves constant names against a fixed list of definitions.
pub struct ConstantResolver {
    constants: Vec<ConstantDefinition>,
    /// Under the fingerprint of each name, the places of its definitions in `constants`.
    index: HashMap<u64, Vec<usize>>,
}

impl ConstantResolver {
    #[verifier::type_invariant]
    spec fn is_indexed(self) -> bool {
        is_index_of(self.index@, self.constants@)
    }

    /// The definitions that the resolver holds, in their order.
    pub closed spec fn definitions(&self) -> Seq<ConstantDefinitionModel> {
        self.constants.deep_view()
    }

    /// The definitions that the resolver holds, in their order.
    pub fn constants(&self) -> (r: &Vec<ConstantDefinition>)
        ensures
            r.deep_view() == self.definitions(),
    {
        &self.constants
    }

    /// A resolver over `constants`.
    pub fn create(constants: Vec<ConstantDefinition>) -> (r: ConstantResolver)
        ensures
            r.definitions() == constants.deep_view(),
    {
        broadcast use vstd::std_specs::hash::group_hash_axioms;

        let mut index: HashMap<u64, Vec<usize>> = HashMap::new();
        let mut i: usize = 0;
        while i < constants.len()
            invariant
                i <= constants.len(),
                is_index_of(index@, constants@.take(i as int)),
            decreases constants.len() - i,
        {
            let h = fingerprint(constants[i].fully_qualified_name.as_str().as_bytes());
            let ghost before = index@;
            let ghost known = constants@.take(i as int);
            let ghost longer = constants@.take(i + 1);
            let mut bucket: Vec<usize> = match index.remove(&h) {
                Some(bucket) => bucket,
                None => Vec::new(),
            };
            let ghost old_bucket = bucket@;
            bucket.push(i);
            let ghost new_bucket = bucket@;
            index.insert(h, bucket);
            proof {
                assert(index@ =~= before.insert(h, index@[h]));
                assert(index@[h]@ == new_bucket);
                assert(fingerprint_at(longer, i as int) == h);
                assert forall|k: int| 0 <= k < i implies fingerprint_at(longer, k)
                    == fingerprint_at(known, k) by {
                    assert(longer[k] == known[k]);
                }
                assert(before.contains_key(h) ==> before[h]@ == old_bucket);
                assert(!before.contains_key(h) ==> old_bucket.len() == 0);
                assert forall|g: u64, j: int|
                    index@.contains_key(g) && 0 <= j < index@[g].len() implies (
                #[trigger] index@[g][j]) < longer.len() && fingerprint_at(
                    longer,
                    index@[g][j] as int,
                ) == g by {
                    if g == h {
                        if j < old_bucket.len() {
                            assert(new_bucket[j] == old_bucket[j]);
                            assert(before[h][j] < known.len());
                            assert(fingerprint_at(known, before[h][j] as int) == h);
                        }
                    } else {
                        assert(before.contains_key(g));
                        assert(before[g][j] < known.len());
                        assert(fingerprint_at(known, before[g][j] as int) == g);
                    }
                }
                assert forall|g: u64, j: int, k: int|
                    index@.contains_key(g) && 0 <= j < k < index@[g].len() implies (
                #[trigger] index@[g][j]) < (#[trigger] index@[g][k]) by {
                    if g == h {
                        assert(new_bucket[j] == old_bucket[j]);
                        assert(before[h][j] < known.len());
                        if k < old_bucket.len() {
                            assert(new_bucket[k] == old_bucket[k]);
                            assert(before[h][j] < before[h][k]);
                        }
                    } else {
                        assert(before[g][j] < before[g][k]);
                    }
                }
                assert forall|c: int| 0 <= c < longer.len() implies index@.contains_key(
                    #[trigger] fingerprint_at(longer, c),
                ) && index@[fingerprint_at(longer, c)]@.contains(c as usize) by {
                    if c < i {
                        let g = fingerprint_at(known, c);
                        assert(before.contains_key(g) && before[g]@.contains(c as usize));
                        let w = choose|w: int| 0 <= w < before[g]@.len() && before[g]@[w] == c as usize;
                        if g == h {
                            assert(new_bucket[w] == c as usize);
                        } else {
                            assert(index@[g]@[w] == c as usize);
                        }
                    } else {
                        assert(new_bucket[new_bucket.len() - 1] == c as usize);
                    }
                }
            }
            i += 1;
        }
        assert(constants@.take(constants.len() as int) =~= constants@);
        ConstantResolver { constants, index }
    }

    /// The definitions of the constant `name`, in the order in which the resolver holds them.
    pub fn definitions_of(&self, name: &String) -> (r: Vec<ConstantDefinition>)
        ensures
            r.deep_view() == definitions_named(self.definitions(), name@),
    {
        broadcast use vstd::std_specs::hash::group_hash_axioms;

        proof {
            use_type_invariant(self);
        }
        let ghost all = self.definitions();
        let h = fingerprint(name.as_str().as_bytes());
        let mut out: Vec<ConstantDefinition> = Vec::new();
        match self.index.get(&h) {
            None => {
                proof {
                    assert forall|i: int| 0 <= i < all.len() implies (
                    #[trigger] all[i]).fully_qualified_name != name@ by {
                        if all[i].fully_qualified_name == name@ {
                            assert(fingerprint_at(self.constants@, i) == h);
                        }
                    }
                    lemma_none_named(all, name@);
                    assert(out.deep_view() =~= Seq::empty());
                }
            },
            Some(bucket) => {
                let mut j: usize = 0;
                assert(out.deep_view() =~= named_among(all, bucket@, name@, 0));
                while j < bucket.len()
                    invariant
                        j <= bucket.len(),
                        all == self.definitions(),
                        forall|k: int| 0 <= k < bucket.len() ==> bucket[k] < self.constants.len(),
                        out.deep_view() == named_among(all, bucket@, name@, j as int),
                    decreases bucket.len() - j,
                {
                    let constant = &self.constants[bucket[j]];
                    let ghost before = out.deep_view();
                    assert(all[bucket[j as int] as int] == constant.deep_view());
                    if constant.fully_qualified_name == *name {
                        out.push(
                            ConstantDefinition {
                                fully_qualified_name: constant.fully_qualified_name.clone(),
                                absolute_path_of_definition:
                                    constant.absolute_path_of_definition.clone(),
                            },
                        );
                        assert(out.deep_view() =~= before.push(constant.deep_view()));
                    }
                    j += 1;
                }
                proof {
                    assert forall|i: int|
                        0 <= i < all.len() && (#[trigger] all[i]).fully_qualified_name
                            == name@ implies bucket@.contains(i as usize) by {
                        assert(fingerprint_at(self.constants@, i) == h);
                    }
                    assert(all.len() == self.constants.len());
                    lemma_bucket_finds_all(all, bucket@, name@);
                }
            },
        }
        out
    }

    /// Every constant that the resolver knows, once, with all its definitions:
    /// the constants in the order in which the resolver first holds them.
    pub fn fully_qualified_constant_name_to_constant_definition_map(&self) -> (r: Vec<
        (String, Vec<ConstantDefinition>),
    >)
        ensures
            names_of_entries(r@) == names_in_order(self.definitions()),
            forall|i: int, j: int| 0 <= i < j < r.len() ==> r[i].0@ != r[j].0@,
            forall|i: int|
                0 <= i < r.len() ==> (#[trigger] r[i]).1.deep_view() == definitions_named(
                    self.definitions(),
                    r[i].0@,
                ) && r[i].1.len() > 0,
            forall|k: int|
                0 <= k < self.definitions().len() ==> has_entry(
                    r@,
                    (#[trigger] self.definitions()[k]).fully_qualified_name,
                ),
    {
        let mut map: Vec<(String, Vec<ConstantDefinition>)> = Vec::new();
        let ghost all = self.definitions();
        let mut k: usize = 0;
        assert(names_of_entries(map@) =~= names_in_order(all.take(0)));
        while k < self.constants.len()
            invariant
                k <= self.constants.len(),
                all == self.definitions(),
                names_of_entries(map@) == names_in_order(all.take(k as int)),
                forall|i: int, j: int| 0 <= i < j < map.len() ==> map[i].0@ != map[j].0@,
                forall|i: int|
                    0 <= i < map.len() ==> (#[trigger] map[i]).1.deep_view() == definitions_named(
                        all,
                        map[i].0@,
                    ) && map[i].1.len() > 0,
                forall|c: int|
                    0 <= c < k ==> has_entry(map@, (#[trigger] all[c]).fully_qualified_name),
            decreases self.constants.len() - k,
        {
            let name = &self.constants[k].fully_qualified_name;
            assert(all[k as int].fully_qualified_name == name@);
            let ghost before = map@;
            proof {
                assert(all.take(k + 1).drop_last() =~= all.take(k as int));
                assert(all.take(k + 1).last() == all[k as int]);
            }
            match position_of(&map, name) {
                None => {
                    let definitions = self.definitions_of(name);
                    proof {
                        lemma_named_is_found(all, k as int);
                        assert(definitions.deep_view().len() == definitions.len());
                        assert(!names_of_entries(before).contains(name@)) by {
                            if names_of_entries(before).contains(name@) {
                                let w = choose|w: int|
                                    0 <= w < names_of_entries(before).len() && names_of_entries(
                                        before,
                                    )[w] == name@;
                                assert(before[w].0@ == name@);
                            }
                        }
                    }
                    map.push((name.clone(), definitions));
                    assert(forall|i: int| 0 <= i < before.len() ==> map[i] == before[i]);
                    assert(map[map.len() - 1].0@ == name@);
                    assert(names_of_entries(map@) =~= names_of_entries(before).push(name@));
                },
                Some(i) => {
                    assert(map[i as int].0@ == name@);
                    assert(names_of_entries(before)[i as int] == name@);
                },
            }
            proof {
                assert forall|c: int| 0 <= c < k + 1 implies has_entry(
                    map@,
                    (#[trigger] all[c]).fully_qualified_name,
                ) by {
                    if c < k {
                        assert(has_entry(before, all[c].fully_qualified_name));
                        let w = choose|w: int|
                            0 <= w < before.len() && (#[trigger] before[w]).0@
                                == all[c].fully_qualified_name;
                        assert(map@[w] == before[w]);
                    } else {
                        let w = choose|w: int| 0 <= w < map.len() && (#[trigger] map[w]).0@ == name@;
                        assert(map@[w].0@ == all[c].fully_qualified_name);
                    }
                }
            }
            k += 1;
        }
        assert(all.take(self.constants.len() as int) =~= all);
        map
    }

    /// The definitions that `name` resolves to when it is used inside the nesting
    /// `namespace_path` (outermost namespace first), or `None` where none of its
    /// possible names is defined.
    pub fn resolve(&self, name: &str, namespace_path: &Vec<String>) -> (r: Option<
        Vec<ConstantDefinition>,
    >)
        ensures
            r.deep_view() == resolve_in(
                self.definitions(),
                name@,
                namespace_path.deep_view(),
            ),
            r matches Some(found) ==> found.len() > 0,
    {
        let candidates = possible_fully_qualified_constants(namespace_path, name);
        let ghost all = self.definitions();
        let ghost names = candidates.deep_view();
        assert(names.skip(0) =~= names);
        let mut i: usize = 0;
        while i < candidates.len()
            invariant
                i <= candidates.len(),
                all == self.definitions(),
                names == candidates.deep_view(),
                names == possible_names(name@, namespace_path.deep_view()),
                first_defined(all, names) == first_defined(all, names.skip(i as int)),
            decreases candidates.len() - i,
        {
            let found = self.definitions_of(&candidates[i]);
            proof {
                assert(names.skip(i as int)[0] == candidates[i as int]@);
                assert(names.skip(i as int).drop_first() =~= names.skip(i + 1));
            }
            if found.len() > 0 {
                assert(found.deep_view().len() == found.len());
                return Some(found);
            }
            assert(found.deep_view().len() == found.len());
            i += 1;
        }
        None
    }
}

/// The names of the constants, each once, in the order in which they first occur.
pub open spec fn names_in_order(constants: Seq<ConstantDefinitionModel>) -> Seq<Seq<char>>
    decreases constants.len(),
{
    if constants.len() == 0 {
        Seq::empty()
    } else {
        let before = names_in_order(constants.drop_last());
        if before.contains(constants.last().fully_qualified_name) {
            before
        } else {
            before.push(constants.last().fully_qualified_name)
        }
    }
}

/// The names that the entries of `map` stand under, in their order.
pub open spec fn names_of_entries(map: Seq<(String, Vec<ConstantDefinition>)>) -> Seq<Seq<char>> {
    Seq::new(map.len(), |i: int| map[i].0@)
}

/// Does `map` hold an entry for the constant `name`?
pub open spec fn has_entry(map: Seq<(String, Vec<ConstantDefinition>)>, name: Seq<char>) -> bool {
    exists|i: int| 0 <= i < map.len() && (#[trigger] map[i]).0@ == name
}

/// Where `name` stands among the keys of `map`.
fn position_of(map: &Vec<(String, Vec<ConstantDefinition>)>, name: &String) -> (r: Option<usize>)
    ensures
        match r {
            Some(i) => i < map.len() && map[i as int].0@ == name@,
            None => forall|j: int| 0 <= j < map.len() ==> (#[trigger] map[j]).0@ != name@,
        },
{
    let mut i: usize = 0;
    while i < map.len()
        invariant
            i <= map.len(),
            forall|j: int| 0 <= j < i ==> (#[trigger] map[j]).0@ != name@,
        decreases map.len() - i,
    {
        if map[i].0 == *name {
            return Some(i);
        }
        i += 1;
    }
    None
}

/// A constant that the resolver holds is among the definitions of its name.
pub proof fn lemma_named_is_found(constants: Seq<ConstantDefinitionModel>, k: int)
    requires
        0 <= k < constants.len(),
    ensures
        definitions_named(constants, constants[k].fully_qualified_name).len() > 0,
    decreases constants.len(),
{
    if k < constants.len() - 1 {
        lemma_named_is_found(constants.drop_last(), k);
    }
}

/// The first candidate that has definitions decides.
pub proof fn lemma_first_defined_at(
    constants: Seq<ConstantDefinitionModel>,
    candidates: Seq<Seq<char>>,
    i: int,
)
    requires
        0 <= i < candidates.len(),
        definitions_named(constants, candidates[i]).len() > 0,
        forall|j: int| 0 <= j < i ==> definitions_named(constants, #[trigger] candidates[j]).len() == 0,
    ensures
        first_defined(constants, candidates) == Some(definitions_named(constants, candidates[i])),
    decreases i,
{
    if i > 0 {
        let rest = candidates.drop_first();
        assert(rest[i - 1] == candidates[i]);
        assert forall|j: int| 0 <= j < i - 1 implies definitions_named(
            constants,
            #[trigger] rest[j],
        ).len() == 0 by {
            assert(rest[j] == candidates[j + 1]);
        }
        assert(definitions_named(constants, candidates[0]).len() == 0);
        lemma_first_defined_at(constants, rest, i - 1);
    }
}

/// Where no candidate has a definition, nothing is found.
pub proof fn lemma_first_defined_none(
    constants: Seq<ConstantDefinitionModel>,
    candidates: Seq<Seq<char>>,
)
    requires
        forall|j: int|
            0 <= j < candidates.len() ==> definitions_named(constants, #[trigger] candidates[j]).len()
                == 0,
    ensures
        first_defined(constants, candidates) is None,
    decreases candidates.len(),
{
    if candidates.len() > 0 {
        let rest = candidates.drop_first();
        assert forall|j: int| 0 <= j < rest.len() implies definitions_named(
            constants,
            #[trigger] rest[j],
        ).len() == 0 by {
            assert(rest[j] == candidates[j + 1]);
        }
        assert(definitions_named(constants, candidates[0]).len() == 0);
        lemma_first_defined_none(constants, rest);
    }
}

/// A name that is not absolute is looked up from the innermost namespace
/// outwards, and in the root namespace last: it resolves to the definitions of
/// its name qualified at `depth` exactly when no deeper qualification is defined.
pub proof fn lemma_resolve_innermost_first(
    constants: Seq<ConstantDefinitionModel>,
    name: Seq<char>,
    namespace_path: Seq<Seq<char>>,
    depth: int,
)
    requires
        !is_absolute(name),
        0 <= depth <= namespace_path.len(),
        definitions_named(constants, qualified_name(name, namespace_path, depth)).len() > 0,
        forall|d: int|
            depth < d <= namespace_path.len() ==> definitions_named(
                constants,
                #[trigger] qualified_name(name, namespace_path, d),
            ).len() == 0,
    ensures
        resolve_in(constants, name, namespace_path) == Some(
            definitions_named(constants, qualified_name(name, namespace_path, depth)),
        ),
{
    let candidates = possible_names(name, namespace_path);
    let i = namespace_path.len() - depth;
    assert(candidates[i] == qualified_name(name, namespace_path, depth));
    assert forall|j: int| 0 <= j < i implies definitions_named(
        constants,
        #[trigger] candidates[j],
    ).len() == 0 by {
        assert(candidates[j] == qualified_name(name, namespace_path, namespace_path.len() - j));
    }
    lemma_first_defined_at(constants, candidates, i);
}

/// A name that is not absolute and is defined at no depth of its nesting resolves to nothing.
pub proof fn lemma_resolve_undefined(
    constants: Seq<ConstantDefinitionModel>,
    name: Seq<char>,
    namespace_path: Seq<Seq<char>>,
)
    requires
        !is_absolute(name),
        forall|d: int|
            0 <= d <= namespace_path.len() ==> definitions_named(
                constants,
                #[trigger] qualified_name(name, namespace_path, d),
            ).len() == 0,
    ensures
        resolve_in(constants, name, namespace_path) is None,
{
    let candidates = possible_names(name, namespace_path);
    assert forall|j: int| 0 <= j < candidates.len() implies definitions_named(
        constants,
        #[trigger] candidates[j],
    ).len() == 0 by {
        assert(candidates[j] == qualified_name(name, namespace_path, namespace_path.len() - j));
    }
    lemma_first_defined_none(constants, candidates);
}

/// An absolute name is looked up as it stands, whatever the nesting.
pub proof fn lemma_resolve_absolute(
    constants: Seq<ConstantDefinitionModel>,
    name: Seq<char>,
    namespace_path: Seq<Seq<char>>,
)
    requires
        is_absolute(name),
    ensures
        resolve_in(constants, name, namespace_path) == if definitions_named(constants, name).len()
            > 0 {
            Some(definitions_named(constants, name))
        } else {
            None
        },
{
    let candidates = possible_names(name, namespace_path);
    assert(candidates[0] == name);
    if definitions_named(constants, name).len() > 0 {
        lemma_first_defined_at(constants, candidates, 0);
    } else {
        lemma_first_defined_none(constants, candidates);
    }
}

} // verus!
