//! The order in which references are reported.

use vstd::prelude::*;
use std::cmp::Ordering;
use vstd::std_specs::cmp::PartialOrdSpecImpl;
use vstd::multiset::Multiset;
use vstd::relations::{sorted_by, total_ordering};
use vstd::seq_lib::{lemma_multiset_commutative, lemma_sorted_unique};
use crate::reference::Reference;

verus! {

/// Does `a` stand at or before `b` in the order of byte strings: byte by
/// byte from `from` on, the shorter first where it begins the longer?
pub open spec fn bytes_le_from(a: Seq<u8>, b: Seq<u8>, from: int) -> bool
    decreases a.len() - from,
{
    if from < 0 || from >= a.len() {
        true
    } else if from >= b.len() {
        false
    } else if a[from] != b[from] {
        a[from] < b[from]
    } else {
        bytes_le_from(a, b, from + 1)
    }
}

/// Does `a` stand at or before `b` in the order of byte strings?
pub open spec fn bytes_le(a: Seq<u8>, b: Seq<u8>) -> bool {
    bytes_le_from(a, b, 0)
}

/// What a reference is ordered by: the name of its constant, its defining
/// file, its referencing file (each as the bytes of its text), the line and
/// the column of its place, and the number of its extra fields.
pub struct ReferenceKey {
    pub constant_name: Seq<u8>,
    pub relative_defining_file: Option<Seq<u8>>,
    pub relative_referencing_file: Seq<u8>,
    pub line: usize,
    pub column: usize,
    pub extra_fields: usize,
}

/// What the reference is ordered by.
pub open spec fn key_of(reference: Reference) -> ReferenceKey {
    ReferenceKey {
        constant_name: vstd::utf8::encode_utf8(reference.constant_name@),
        relative_defining_file: match reference.relative_defining_file {
            Some(file) => Some(vstd::utf8::encode_utf8(file@)),
            None => None,
        },
        relative_referencing_file: vstd::utf8::encode_utf8(reference.relative_referencing_file@),
        line: reference.source_location.line,
        column: reference.source_location.column,
        extra_fields: reference.extra_fields.len(),
    }
}

/// Does `a` stand at or before `b`, where a missing file stands before every file?
pub open spec fn file_le(a: Option<Seq<u8>>, b: Option<Seq<u8>>) -> bool {
    match (a, b) {
        (None, _) => true,
        (Some(_), None) => false,
        (Some(x), Some(y)) => bytes_le(x, y),
    }
}

/// Does `a` stand at or before `b` in the order of references: by the name
/// of the constant first, then by the defining file, the referencing file, the
/// line, the column, and last by the number of extra fields?
pub open spec fn key_le(a: ReferenceKey, b: ReferenceKey) -> bool {
    if a.constant_name != b.constant_name {
        bytes_le(a.constant_name, b.constant_name)
    } else if a.relative_defining_file != b.relative_defining_file {
        file_le(a.relative_defining_file, b.relative_defining_file)
    } else if a.relative_referencing_file != b.relative_referencing_file {
        bytes_le(a.relative_referencing_file, b.relative_referencing_file)
    } else if a.line != b.line {
        a.line < b.line
    } else if a.column != b.column {
        a.column < b.column
    } else {
        a.extra_fields <= b.extra_fields
    }
}

/// What the references are ordered by, one key for each.
pub open spec fn keys_of(references: Seq<Reference>) -> Seq<ReferenceKey> {
    Seq::new(references.len(), |i: int| key_of(references[i]))
}

/// Does each of the references stand at or before all that follow it?
pub open spec fn is_sorted(references: Seq<Reference>) -> bool {
    forall|i: int, j: int|
        0 <= i < j < references.len() ==> key_le(
            key_of(#[trigger] references[i]),
            key_of(#[trigger] references[j]),
        )
}

/// Byte strings that agree from `from` on up to their ends compare as equals there.
proof fn lemma_bytes_le_reflexive(a: Seq<u8>, from: int)
    requires
        0 <= from,
    ensures
        bytes_le_from(a, a, from),
    decreases a.len() - from,
{
    if from < a.len() {
        lemma_bytes_le_reflexive(a, from + 1);
    }
}

/// Of two byte strings that agree before `from`, one stands at or before the other.
proof fn lemma_bytes_le_total(a: Seq<u8>, b: Seq<u8>, from: int)
    requires
        0 <= from,
    ensures
        bytes_le_from(a, b, from) || bytes_le_from(b, a, from),
    decreases a.len() - from,
{
    if from < a.len() && from < b.len() && a[from] == b[from] {
        lemma_bytes_le_total(a, b, from + 1);
    }
}

/// Two byte strings that agree before `from` and stand at or before each other are one.
proof fn lemma_bytes_le_antisymmetric(a: Seq<u8>, b: Seq<u8>, from: int)
    requires
        0 <= from <= a.len(),
        from <= b.len(),
        a.take(from) == b.take(from),
        bytes_le_from(a, b, from),
        bytes_le_from(b, a, from),
    ensures
        a == b,
    decreases a.len() - from,
{
    if from < a.len() {
        assert(a.take(from + 1) =~= a.take(from).push(a[from]));
        assert(b.take(from + 1) =~= b.take(from).push(b[from]));
        lemma_bytes_le_antisymmetric(a, b, from + 1);
    } else {
        assert(a =~= a.take(from));
        assert(b =~= b.take(from));
    }
}

/// The order of byte strings passes on: what stands at or before a string
/// stands at or before all that this string stands at or before.
proof fn lemma_bytes_le_transitive(a: Seq<u8>, b: Seq<u8>, c: Seq<u8>, from: int)
    requires
        0 <= from,
        bytes_le_from(a, b, from),
        bytes_le_from(b, c, from),
    ensures
        bytes_le_from(a, c, from),
    decreases a.len() - from,
{
    if from < a.len() && from < b.len() && from < c.len() && a[from] == b[from] && b[from]
        == c[from] {
        lemma_bytes_le_transitive(a, b, c, from + 1);
    }
}

/// The order of references is a total order of their keys.
pub proof fn lemma_key_order_is_total()
    ensures
        total_ordering(|a: ReferenceKey, b: ReferenceKey| key_le(a, b)),
{
    let leq = |a: ReferenceKey, b: ReferenceKey| key_le(a, b);
    assert forall|x: ReferenceKey| #[trigger] leq(x, x) by {}
    assert forall|x: ReferenceKey, y: ReferenceKey| #[trigger] leq(x, y) && #[trigger] leq(
        y,
        x,
    ) implies x == y by {
        if x.constant_name != y.constant_name {
            assert(x.constant_name.take(0) =~= y.constant_name.take(0));
            lemma_bytes_le_antisymmetric(x.constant_name, y.constant_name, 0);
        } else if x.relative_defining_file != y.relative_defining_file {
            match (x.relative_defining_file, y.relative_defining_file) {
                (Some(p), Some(q)) => {
                    assert(p.take(0) =~= q.take(0));
                    lemma_bytes_le_antisymmetric(p, q, 0);
                },
                _ => {},
            }
        } else if x.relative_referencing_file != y.relative_referencing_file {
            assert(x.relative_referencing_file.take(0) =~= y.relative_referencing_file.take(0));
            lemma_bytes_le_antisymmetric(
                x.relative_referencing_file,
                y.relative_referencing_file,
                0,
            );
        }
    }
    assert forall|x: ReferenceKey, y: ReferenceKey, z: ReferenceKey| #[trigger] leq(x, y)
        && #[trigger] leq(y, z) implies leq(x, z) by {
        lemma_key_le_transitive(x, y, z);
    }
    assert forall|x: ReferenceKey, y: ReferenceKey| #[trigger] leq(x, y) || #[trigger] leq(
        y,
        x,
    ) by {
        lemma_bytes_le_total(x.constant_name, y.constant_name, 0);
        lemma_bytes_le_total(x.relative_referencing_file, y.relative_referencing_file, 0);
        match (x.relative_defining_file, y.relative_defining_file) {
            (Some(p), Some(q)) => {
                lemma_bytes_le_total(p, q, 0);
            },
            _ => {},
        }
    }
}

/// Two byte strings that stand at or before each other are one.
proof fn lemma_bytes_equal(a: Seq<u8>, b: Seq<u8>)
    requires
        bytes_le(a, b),
        bytes_le(b, a),
    ensures
        a == b,
{
    assert(a.take(0) =~= b.take(0));
    lemma_bytes_le_antisymmetric(a, b, 0);
}

/// Two files that stand at or before each other are one.
proof fn lemma_file_equal(a: Option<Seq<u8>>, b: Option<Seq<u8>>)
    requires
        file_le(a, b),
        file_le(b, a),
    ensures
        a == b,
{
    match (a, b) {
        (Some(p), Some(q)) => lemma_bytes_equal(p, q),
        _ => {},
    }
}

/// The order of files passes on.
proof fn lemma_file_le_transitive(a: Option<Seq<u8>>, b: Option<Seq<u8>>, c: Option<Seq<u8>>)
    requires
        file_le(a, b),
        file_le(b, c),
    ensures
        file_le(a, c),
{
    match (a, b, c) {
        (Some(p), Some(q), Some(r)) => lemma_bytes_le_transitive(p, q, r, 0),
        _ => {},
    }
}

/// The order of references passes on.
pub proof fn lemma_key_le_transitive(x: ReferenceKey, y: ReferenceKey, z: ReferenceKey)
    requires
        key_le(x, y),
        key_le(y, z),
    ensures
        key_le(x, z),
{
    if x.constant_name != y.constant_name || y.constant_name != z.constant_name {
        lemma_bytes_le_reflexive(x.constant_name, 0);
        lemma_bytes_le_reflexive(z.constant_name, 0);
        lemma_bytes_le_transitive(x.constant_name, y.constant_name, z.constant_name, 0);
        if x.constant_name == z.constant_name {
            lemma_bytes_equal(x.constant_name, y.constant_name);
        }
    } else if x.relative_defining_file != y.relative_defining_file || y.relative_defining_file
        != z.relative_defining_file {
        lemma_file_le_reflexive(x.relative_defining_file);
        lemma_file_le_reflexive(z.relative_defining_file);
        lemma_file_le_transitive(
            x.relative_defining_file,
            y.relative_defining_file,
            z.relative_defining_file,
        );
        if x.relative_defining_file == z.relative_defining_file {
            lemma_file_equal(x.relative_defining_file, y.relative_defining_file);
        }
    } else if x.relative_referencing_file != y.relative_referencing_file
        || y.relative_referencing_file != z.relative_referencing_file {
        lemma_bytes_le_reflexive(x.relative_referencing_file, 0);
        lemma_bytes_le_reflexive(z.relative_referencing_file, 0);
        lemma_bytes_le_transitive(
            x.relative_referencing_file,
            y.relative_referencing_file,
            z.relative_referencing_file,
            0,
        );
        if x.relative_referencing_file == z.relative_referencing_file {
            lemma_bytes_equal(x.relative_referencing_file, y.relative_referencing_file);
        }
    }
}

/// A file stands at or before itself.
proof fn lemma_file_le_reflexive(a: Option<Seq<u8>>)
    ensures
        file_le(a, a),
{
    match a {
        Some(p) => lemma_bytes_le_reflexive(p, 0),
        None => {},
    }
}

/// Does `a` stand at or before `b` in the order of byte strings?
fn bytes_at_or_before(a: &[u8], b: &[u8]) -> (r: bool)
    ensures
        r == bytes_le(a@, b@),
{
    let mut i: usize = 0;
    while i < a.len()
        invariant
            i <= a.len(),
            bytes_le(a@, b@) == bytes_le_from(a@, b@, i as int),
        decreases a.len() - i,
    {
        if i >= b.len() {
            return false;
        }
        if a[i] != b[i] {
            return a[i] < b[i];
        }
        i += 1;
    }
    true
}

/// Are the two byte strings the same?
fn same_bytes(a: &[u8], b: &[u8]) -> (r: bool)
    ensures
        r == (a@ == b@),
{
    if a.len() != b.len() {
        return false;
    }
    let mut i: usize = 0;
    while i < a.len()
        invariant
            i <= a.len(),
            a.len() == b.len(),
            a@.take(i as int) == b@.take(i as int),
        decreases a.len() - i,
    {
        if a[i] != b[i] {
            return false;
        }
        assert(a@.take(i + 1) =~= a@.take(i as int).push(a@[i as int]));
        assert(b@.take(i + 1) =~= b@.take(i as int).push(b@[i as int]));
        i += 1;
    }
    assert(a@ =~= a@.take(a.len() as int));
    assert(b@ =~= b@.take(b.len() as int));
    true
}

impl Reference {
    /// Does this reference stand at or before `other` in the order of references?
    pub fn precedes_or_equals(&self, other: &Reference) -> (r: bool)
        ensures
            r == key_le(key_of(*self), key_of(*other)),
    {
        let name = self.constant_name.as_str().as_bytes();
        let other_name = other.constant_name.as_str().as_bytes();
        if !same_bytes(name, other_name) {
            return bytes_at_or_before(name, other_name);
        }
        match (&self.relative_defining_file, &other.relative_defining_file) {
            (None, None) => {},
            (None, Some(_)) => {
                return true;
            },
            (Some(_), None) => {
                return false;
            },
            (Some(file), Some(other_file)) => {
                let file = file.as_str().as_bytes();
                let other_file = other_file.as_str().as_bytes();
                if !same_bytes(file, other_file) {
                    return bytes_at_or_before(file, other_file);
                }
            },
        }
        let file = self.relative_referencing_file.as_str().as_bytes();
        let other_file = other.relative_referencing_file.as_str().as_bytes();
        if !same_bytes(file, other_file) {
            return bytes_at_or_before(file, other_file);
        }
        if self.source_location.line != other.source_location.line {
            return self.source_location.line < other.source_location.line;
        }
        if self.source_location.column != other.source_location.column {
            return self.source_location.column < other.source_location.column;
        }
        self.extra_fields.len() <= other.extra_fields.len()
    }
}

/// How `a` stands to `b` in the order of references.
pub open spec fn key_order(a: ReferenceKey, b: ReferenceKey) -> Ordering {
    if !key_le(a, b) {
        Ordering::Greater
    } else if key_le(b, a) {
        Ordering::Equal
    } else {
        Ordering::Less
    }
}

impl PartialOrd for Reference {
    /// How this reference stands to `other` in the order of references.
    /// References that differ only in what their extra fields hold are equals in this order.
    fn partial_cmp(&self, other: &Reference) -> (r: Option<Ordering>) {
        if !self.precedes_or_equals(other) {
            Some(Ordering::Greater)
        } else if other.precedes_or_equals(self) {
            Some(Ordering::Equal)
        } else {
            Some(Ordering::Less)
        }
    }
}

impl PartialOrdSpecImpl for Reference {
    open spec fn obeys_partial_cmp_spec() -> bool {
        true
    }

    open spec fn partial_cmp_spec(&self, other: &Reference) -> Option<Ordering> {
        Some(key_order(key_of(*self), key_of(*other)))
    }
}

/// Does each of the references stand at or behind all that follow it?
pub open spec fn is_descending(references: Seq<Reference>) -> bool {
    forall|i: int, j: int|
        0 <= i < j < references.len() ==> key_le(
            key_of(#[trigger] references[j]),
            key_of(#[trigger] references[i]),
        )
}

/// Does every one of `first` stand at or before every one of `later`?
pub open spec fn all_before(first: Seq<Reference>, later: Seq<Reference>) -> bool {
    forall|i: int, j: int|
        0 <= i < first.len() && 0 <= j < later.len() ==> key_le(
            key_of(#[trigger] first[i]),
            key_of(#[trigger] later[j]),
        )
}

/// The references in the opposite order.
fn reversed(references: Vec<Reference>) -> (r: Vec<Reference>)
    ensures
        r@ == references@.reverse(),
{
    let mut rest = references;
    let mut out: Vec<Reference> = Vec::new();
    let ghost all = rest@;
    while rest.len() > 0
        invariant
            rest.len() <= all.len(),
            rest@ == all.take(rest.len() as int),
            out.len() == all.len() - rest.len(),
            forall|i: int| 0 <= i < out.len() ==> out[i] == all[all.len() - 1 - i],
        decreases rest.len(),
    {
        let ghost before = rest@;
        match rest.pop() {
            Some(last) => {
                out.push(last);
                assert(rest@ =~= all.take(rest.len() as int));
            },
            None => {},
        }
    }
    assert(out@ =~= all.reverse());
    out
}

/// Of two keys one stands at or before the other.
pub proof fn lemma_key_le_total(x: ReferenceKey, y: ReferenceKey)
    ensures
        key_le(x, y) || key_le(y, x),
{
    lemma_bytes_le_total(x.constant_name, y.constant_name, 0);
    lemma_bytes_le_total(x.relative_referencing_file, y.relative_referencing_file, 0);
    match (x.relative_defining_file, y.relative_defining_file) {
        (Some(p), Some(q)) => {
            lemma_bytes_le_total(p, q, 0);
        },
        _ => {},
    }
}

/// What holds when the smallest of what is left of one list, which stands
/// at or before the smallest of what is left of the other, is moved behind
/// what has been merged: the merged list stays sorted, and before all that is left.
proof fn lemma_moved_last(out: Seq<Reference>, from: Seq<Reference>, other: Seq<Reference>)
    requires
        from.len() > 0,
        is_descending(from),
        is_descending(other),
        is_sorted(out),
        all_before(out, from),
        all_before(out, other),
        other.len() > 0 ==> key_le(key_of(from.last()), key_of(other.last())),
    ensures
        is_descending(from.drop_last()),
        is_sorted(out.push(from.last())),
        all_before(out.push(from.last()), from.drop_last()),
        all_before(out.push(from.last()), other),
{
    let next = from.last();
    let rest = from.drop_last();
    let longer = out.push(next);
    assert forall|i: int, j: int| 0 <= i < j < rest.len() implies key_le(
        key_of(#[trigger] rest[j]),
        key_of(#[trigger] rest[i]),
    ) by {
        assert(rest[j] == from[j] && rest[i] == from[i]);
    }
    assert forall|i: int, j: int| 0 <= i < j < longer.len() implies key_le(
        key_of(#[trigger] longer[i]),
        key_of(#[trigger] longer[j]),
    ) by {
        if j < out.len() {
            assert(longer[i] == out[i] && longer[j] == out[j]);
        } else {
            assert(longer[i] == out[i]);
            assert(from[from.len() - 1] == next);
        }
    }
    assert forall|i: int, j: int| 0 <= i < longer.len() && 0 <= j < rest.len() implies key_le(
        key_of(#[trigger] longer[i]),
        key_of(#[trigger] rest[j]),
    ) by {
        assert(rest[j] == from[j]);
        if i < out.len() {
            assert(longer[i] == out[i]);
        } else {
            assert(key_le(key_of(from[from.len() - 1]), key_of(from[j])));
        }
    }
    assert forall|i: int, j: int| 0 <= i < longer.len() && 0 <= j < other.len() implies key_le(
        key_of(#[trigger] longer[i]),
        key_of(#[trigger] other[j]),
    ) by {
        if i < out.len() {
            assert(longer[i] == out[i]);
        } else {
            let smallest = other[other.len() - 1];
            if j < other.len() - 1 {
                assert(key_le(key_of(other[other.len() - 1]), key_of(other[j])));
                lemma_key_le_transitive(key_of(next), key_of(smallest), key_of(other[j]));
            }
        }
    }
}

/// Moves the last of `from` behind the last of `out`.
fn move_last(from: &mut Vec<Reference>, out: &mut Vec<Reference>)
    requires
        old(from).len() > 0,
    ensures
        final(from)@ == old(from)@.drop_last(),
        final(out)@ == old(out)@.push(old(from)@.last()),
{
    match from.pop() {
        Some(next) => {
            out.push(next);
        },
        None => {},
    }
}

/// What moving the last of `from` behind `out` does to the references that the three lists hold together.
proof fn lemma_moved_multiset(out: Seq<Reference>, from: Seq<Reference>, other: Seq<Reference>)
    requires
        from.len() > 0,
    ensures
        out.push(from.last()).to_multiset().add(from.drop_last().to_multiset()).add(
            other.to_multiset(),
        ) == out.to_multiset().add(from.to_multiset()).add(other.to_multiset()),
        out.push(from.last()).to_multiset().add(other.to_multiset()).add(
            from.drop_last().to_multiset(),
        ) == out.to_multiset().add(other.to_multiset()).add(from.to_multiset()),
{
    broadcast use vstd::seq_lib::group_to_multiset_ensures;

    assert(from =~= from.drop_last().push(from.last()));
    assert(out.push(from.last()).to_multiset().add(from.drop_last().to_multiset()).add(
        other.to_multiset(),
    ) =~= out.to_multiset().add(from.to_multiset()).add(other.to_multiset()));
    assert(out.push(from.last()).to_multiset().add(other.to_multiset()).add(
        from.drop_last().to_multiset(),
    ) =~= out.to_multiset().add(other.to_multiset()).add(from.to_multiset()));
}

/// A sorted list is descending when it is read from its end.
proof fn lemma_reverse_is_descending(references: Seq<Reference>)
    requires
        is_sorted(references),
    ensures
        is_descending(references.reverse()),
        references.reverse().to_multiset() == references.to_multiset(),
{
    let turned = references.reverse();
    references.lemma_reverse_to_multiset();
    assert forall|i: int, j: int| 0 <= i < j < turned.len() implies key_le(
        key_of(#[trigger] turned[j]),
        key_of(#[trigger] turned[i]),
    ) by {
        assert(turned[j] == references[references.len() - 1 - j]);
        assert(turned[i] == references[references.len() - 1 - i]);
    }
}

/// The references with the key `key`, in their order.
pub open spec fn with_key(references: Seq<Reference>, key: ReferenceKey) -> Seq<Reference>
    decreases references.len(),
{
    if references.len() == 0 {
        Seq::empty()
    } else {
        let before = with_key(references.drop_last(), key);
        if key_of(references.last()) == key {
            before.push(references.last())
        } else {
            before
        }
    }
}

/// Do the references that are ordered alike stand in `a` in the order in which they stand in `b`?
pub open spec fn same_order_among_equals(a: Seq<Reference>, b: Seq<Reference>) -> bool {
    forall|key: ReferenceKey| #[trigger] with_key(a, key) == with_key(b, key)
}

/// Is `out` made of `first` and `second` so that references that are ordered
/// alike keep their order, those of `first` before those of `second`?
pub open spec fn merges(out: Seq<Reference>, first: Seq<Reference>, second: Seq<Reference>) -> bool {
    forall|key: ReferenceKey|
        #[trigger] with_key(out, key) == with_key(first, key) + with_key(second, key)
}

/// The references with a key in two lists, one after the other, are those of
/// the first list followed by those of the second.
proof fn lemma_with_key_of_both(a: Seq<Reference>, b: Seq<Reference>, key: ReferenceKey)
    ensures
        with_key(a + b, key) == with_key(a, key) + with_key(b, key),
    decreases b.len(),
{
    if b.len() == 0 {
        assert(a + b =~= a);
        assert(with_key(a, key) + with_key(b, key) =~= with_key(a, key));
    } else {
        lemma_with_key_of_both(a, b.drop_last(), key);
        assert((a + b).drop_last() =~= a + b.drop_last());
        assert((a + b).last() == b.last());
        assert(with_key(a + b, key) =~= with_key(a, key) + with_key(b, key));
    }
}

/// Where no reference has the key `key`, none is found with it.
proof fn lemma_none_with_key(references: Seq<Reference>, key: ReferenceKey)
    requires
        forall|i: int| 0 <= i < references.len() ==> key_of(#[trigger] references[i]) != key,
    ensures
        with_key(references, key) == Seq::<Reference>::empty(),
    decreases references.len(),
{
    if references.len() > 0 {
        let shorter = references.drop_last();
        assert forall|i: int| 0 <= i < shorter.len() implies key_of(#[trigger] shorter[i])
            != key by {
            assert(shorter[i] == references[i]);
        }
        lemma_none_with_key(shorter, key);
        assert(key_of(references[references.len() - 1]) != key);
    }
}

/// Does every one of `taken` stand before every one of `left`, and not with it?
pub open spec fn strictly_before(taken: Seq<Reference>, left: Seq<Reference>) -> bool {
    forall|i: int, j: int|
        0 <= i < taken.len() && 0 <= j < left.len() ==> !key_le(
            key_of(#[trigger] left[j]),
            key_of(#[trigger] taken[i]),
        )
}

/// What holds when the next of the first list is moved behind what has been merged.
proof fn lemma_taken_from_first(
    out: Seq<Reference>,
    first: Seq<Reference>,
    second: Seq<Reference>,
    left: Seq<Reference>,
)
    requires
        left.len() > 0,
        merges(out, first, second),
        strictly_before(second, left),
    ensures
        merges(out.push(left.last()), first.push(left.last()), second),
        strictly_before(second, left.drop_last()),
{
    let next = left.last();
    assert forall|i: int| 0 <= i < second.len() implies key_of(#[trigger] second[i]) != key_of(
        next,
    ) by {
        assert(!key_le(key_of(left[left.len() - 1]), key_of(second[i])));
        lemma_bytes_le_reflexive(key_of(next).constant_name, 0);
        lemma_file_le_reflexive(key_of(next).relative_defining_file);
        lemma_bytes_le_reflexive(key_of(next).relative_referencing_file, 0);
    }
    lemma_none_with_key(second, key_of(next));
    assert forall|key: ReferenceKey| #[trigger] with_key(out.push(next), key) == with_key(
        first.push(next),
        key,
    ) + with_key(second, key) by {
        assert(out.push(next).drop_last() =~= out);
        assert(first.push(next).drop_last() =~= first);
        assert(with_key(out, key) == with_key(first, key) + with_key(second, key));
        if key_of(next) == key {
            assert(with_key(second, key) =~= Seq::<Reference>::empty());
            assert(with_key(out.push(next), key) =~= with_key(first.push(next), key)
                + with_key(second, key));
        }
    }
    assert forall|i: int, j: int|
        0 <= i < second.len() && 0 <= j < left.drop_last().len() implies !key_le(
        key_of(#[trigger] left.drop_last()[j]),
        key_of(#[trigger] second[i]),
    ) by {
        assert(left.drop_last()[j] == left[j]);
    }
}

/// What holds when the next of the second list, which stands before all
/// that is left of the first, is moved behind what has been merged.
proof fn lemma_taken_from_second(
    out: Seq<Reference>,
    first: Seq<Reference>,
    second: Seq<Reference>,
    left: Seq<Reference>,
    next: Reference,
)
    requires
        merges(out, first, second),
        strictly_before(second, left),
        is_descending(left),
        left.len() > 0 ==> !key_le(key_of(left.last()), key_of(next)),
    ensures
        merges(out.push(next), first, second.push(next)),
        strictly_before(second.push(next), left),
{
    assert forall|key: ReferenceKey| #[trigger] with_key(out.push(next), key) == with_key(
        first,
        key,
    ) + with_key(second.push(next), key) by {
        assert(out.push(next).drop_last() =~= out);
        assert(second.push(next).drop_last() =~= second);
        assert(with_key(out, key) == with_key(first, key) + with_key(second, key));
        assert(with_key(out.push(next), key) =~= with_key(first, key) + with_key(
            second.push(next),
            key,
        ));
    }
    let longer = second.push(next);
    assert forall|i: int, j: int| 0 <= i < longer.len() && 0 <= j < left.len() implies !key_le(
        key_of(#[trigger] left[j]),
        key_of(#[trigger] longer[i]),
    ) by {
        if i < second.len() {
            assert(longer[i] == second[i]);
        } else {
            let smallest = left[left.len() - 1];
            if key_le(key_of(left[j]), key_of(next)) {
                if j < left.len() - 1 {
                    assert(key_le(key_of(left[left.len() - 1]), key_of(left[j])));
                    lemma_key_le_transitive(key_of(smallest), key_of(left[j]), key_of(next));
                }
            }
        }
    }
}

/// Two sorted lists as one: the references of both, sorted, those of `left`
/// before those of `right` that they are ordered alike with.
fn merge(left: Vec<Reference>, right: Vec<Reference>) -> (r: Vec<Reference>)
    requires
        is_sorted(left@),
        is_sorted(right@),
    ensures
        is_sorted(r@),
        r@.to_multiset() == left@.to_multiset().add(right@.to_multiset()),
        merges(r@, left@, right@),
{
    let ghost all = left@.to_multiset().add(right@.to_multiset());
    let ghost first = left@;
    let ghost second = right@;
    proof {
        lemma_reverse_is_descending(left@);
        lemma_reverse_is_descending(right@);
    }
    let mut l = reversed(left);
    let mut r = reversed(right);
    let mut out: Vec<Reference> = Vec::new();
    let ghost taken_first: Seq<Reference> = Seq::empty();
    let ghost taken_second: Seq<Reference> = Seq::empty();
    proof {
        assert(out@.to_multiset() =~= Multiset::empty()) by {
            broadcast use vstd::seq_lib::group_to_multiset_ensures;

        }
        assert(out@.to_multiset().add(l@.to_multiset()).add(r@.to_multiset()) =~= all);
        assert(taken_first + l@.reverse() =~= first);
        assert(taken_second + r@.reverse() =~= second);
        assert forall|key: ReferenceKey| #[trigger] with_key(out@, key) == with_key(
            taken_first,
            key,
        ) + with_key(taken_second, key) by {
            assert(with_key(out@, key) =~= with_key(taken_first, key) + with_key(
                taken_second,
                key,
            ));
        }
    }
    while l.len() > 0 || r.len() > 0
        invariant
            is_descending(l@),
            is_descending(r@),
            is_sorted(out@),
            all_before(out@, l@),
            all_before(out@, r@),
            out@.to_multiset().add(l@.to_multiset()).add(r@.to_multiset()) == all,
            taken_first + l@.reverse() == first,
            taken_second + r@.reverse() == second,
            merges(out@, taken_first, taken_second),
            strictly_before(taken_second, l@),
        decreases l.len() + r.len(),
    {
        let from_left = if l.len() == 0 {
            false
        } else if r.len() == 0 {
            true
        } else {
            l[l.len() - 1].precedes_or_equals(&r[r.len() - 1])
        };
        if from_left {
            proof {
                lemma_moved_last(out@, l@, r@);
                lemma_moved_multiset(out@, l@, r@);
                lemma_taken_from_first(out@, taken_first, taken_second, l@);
                assert(taken_first.push(l@.last()) + l@.drop_last().reverse() =~= taken_first
                    + l@.reverse());
                taken_first = taken_first.push(l@.last());
            }
            move_last(&mut l, &mut out);
        } else {
            proof {
                if l.len() > 0 {
                    lemma_key_le_total(key_of(l@.last()), key_of(r@.last()));
                }
                lemma_moved_last(out@, r@, l@);
                lemma_moved_multiset(out@, r@, l@);
                assert(out@.to_multiset().add(l@.to_multiset()).add(r@.to_multiset())
                    =~= out@.to_multiset().add(r@.to_multiset()).add(l@.to_multiset()));
                lemma_taken_from_second(out@, taken_first, taken_second, l@, r@.last());
                assert(taken_second.push(r@.last()) + r@.drop_last().reverse() =~= taken_second
                    + r@.reverse());
                taken_second = taken_second.push(r@.last());
            }
            let ghost moved = out@.push(r@.last());
            let ghost rest = r@.drop_last();
            move_last(&mut r, &mut out);
            proof {
                assert(moved.to_multiset().add(l@.to_multiset()).add(rest.to_multiset())
                    =~= moved.to_multiset().add(rest.to_multiset()).add(l@.to_multiset()));
            }
        }
    }
    proof {
        broadcast use vstd::seq_lib::group_to_multiset_ensures;

        assert(l@.to_multiset() =~= Multiset::empty());
        assert(r@.to_multiset() =~= Multiset::empty());
        assert(out@.to_multiset() =~= all);
        assert(taken_first =~= first);
        assert(taken_second =~= second);
    }
    out
}

/// The references in their order: by the name of the constant, then by the
/// defining file (none first), the referencing file, the line, the column
/// and the number of extra fields. The result holds the same references,
/// each as often as `references` does, and those that are ordered alike
/// stand in it in the order in which they came.
pub fn sort_references(references: Vec<Reference>) -> (r: Vec<Reference>)
    ensures
        is_sorted(r@),
        r@.to_multiset() == references@.to_multiset(),
        same_order_among_equals(r@, references@),
    decreases references.len(),
{
    if references.len() <= 1 {
        return references;
    }
    let ghost all = references@;
    let mut left = references;
    let middle = left.len() / 2;
    let right = left.split_off(middle);
    let ghost first = left@;
    let ghost second = right@;
    proof {
        assert(all =~= left@ + right@);
        lemma_multiset_commutative(left@, right@);
    }
    let left = sort_references(left);
    let right = sort_references(right);
    let sorted = merge(left, right);
    proof {
        assert forall|key: ReferenceKey| #[trigger] with_key(sorted@, key) == with_key(
            all,
            key,
        ) by {
            lemma_with_key_of_both(first, second, key);
            assert(with_key(sorted@, key) == with_key(left@, key) + with_key(right@, key));
            assert(with_key(left@, key) == with_key(first, key));
            assert(with_key(right@, key) == with_key(second, key));
        }
    }
    sorted
}

/// Lists that hold the same references hold the same keys.
proof fn lemma_same_keys(a: Seq<Reference>, b: Seq<Reference>)
    requires
        a.to_multiset() == b.to_multiset(),
    ensures
        keys_of(a).to_multiset() == keys_of(b).to_multiset(),
    decreases a.len(),
{
    broadcast use vstd::seq_lib::group_to_multiset_ensures;
    broadcast use vstd::multiset::group_multiset_axioms;

    assert(a.len() == b.len()) by {
        a.to_multiset_ensures();
        b.to_multiset_ensures();
    }
    if a.len() == 0 {
        assert(keys_of(a) =~= keys_of(b));
    } else {
        let x = a.last();
        let shorter = a.drop_last();
        assert(a =~= shorter.push(x));
        assert(a.contains(x)) by {
            assert(a[a.len() - 1] == x);
        }
        assert(b.to_multiset().count(x) > 0);
        assert(b.contains(x));
        let i = choose|i: int| 0 <= i < b.len() && b[i] == x;
        let rest = b.remove(i);
        assert(shorter.to_multiset() =~= a.to_multiset().remove(x));
        assert(rest.to_multiset() =~= b.to_multiset().remove(x));
        lemma_same_keys(shorter, rest);
        assert(keys_of(a) =~= keys_of(shorter).push(key_of(x)));
        assert(keys_of(rest) =~= keys_of(b).remove(i));
        assert(keys_of(b)[i] == key_of(x));
        assert(keys_of(b).to_multiset().count(key_of(x)) > 0) by {
            assert(keys_of(b).contains(key_of(x)));
        }
        assert(keys_of(b).to_multiset() =~= keys_of(rest).to_multiset().insert(key_of(x)));
        assert(keys_of(a).to_multiset() =~= keys_of(shorter).to_multiset().insert(key_of(x)));
    }
}

/// Sorting does not depend on the order in which the references come: two
/// sorted lists of the same references agree, place by place, in all that
/// references are ordered by.
pub proof fn lemma_sorted_keys_agree(a: Seq<Reference>, b: Seq<Reference>)
    requires
        is_sorted(a),
        is_sorted(b),
        a.to_multiset() == b.to_multiset(),
    ensures
        keys_of(a) == keys_of(b),
{
    let leq = |x: ReferenceKey, y: ReferenceKey| key_le(x, y);
    lemma_key_order_is_total();
    lemma_same_keys(a, b);
    assert(sorted_by(keys_of(a), leq)) by {
        assert forall|i: int, j: int| 0 <= i < j < keys_of(a).len() implies #[trigger] leq(
            keys_of(a)[i],
            keys_of(a)[j],
        ) by {
            assert(key_le(key_of(a[i]), key_of(a[j])));
        }
    }
    assert(sorted_by(keys_of(b), leq)) by {
        assert forall|i: int, j: int| 0 <= i < j < keys_of(b).len() implies #[trigger] leq(
            keys_of(b)[i],
            keys_of(b)[j],
        ) by {
            assert(key_le(key_of(b[i]), key_of(b[j])));
        }
    }
    lemma_sorted_unique(keys_of(a), keys_of(b), leq);
}

} // verus!
