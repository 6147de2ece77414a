//! The fully qualified names that a constant's name may stand for inside a nesting.

use vstd::prelude::*;
use vstd::string::StringExecFns;
use crate::text::{colons, has_prefix, join, chars_of};

verus! {

/// `name` as a constant of the namespace spelled by the first `depth` entries of
/// `namespace_path`: `::`, then those entries and `name`, with `::` between them.
pub open spec fn qualified_name(
    name: Seq<char>,
    namespace_path: Seq<Seq<char>>,
    depth: int,
) -> Seq<char> {
    colons() + join(namespace_path.take(depth).push(name), colons())
}

/// Does the name begin at the root namespace, with `::`?
pub open spec fn is_absolute(name: Seq<char>) -> bool {
    has_prefix(name, colons())
}

/// The names that `name` may stand for inside the nesting `namespace_path`, the
/// most specific first: an absolute name only for itself, any other for the
/// constant of that name in the innermost namespace, then in each enclosing one,
/// and last at the root.
pub open spec fn possible_names(name: Seq<char>, namespace_path: Seq<Seq<char>>) -> Seq<
    Seq<char>,
> {
    if is_absolute(name) {
        seq![name]
    } else {
        Seq::new(
            namespace_path.len() + 1,
            |i: int| qualified_name(name, namespace_path, namespace_path.len() - i),
        )
    }
}

/// Every entry of `namespace_path`, each followed by `::`.
pub open spec fn scope_text(namespace_path: Seq<Seq<char>>) -> Seq<char>
    decreases namespace_path.len(),
{
    if namespace_path.len() == 0 {
        Seq::empty()
    } else {
        scope_text(namespace_path.drop_last()) + namespace_path.last() + colons()
    }
}

/// A qualified name is `::`, each namespace followed by `::`, and the name.
pub proof fn lemma_qualified_name_text(name: Seq<char>, namespace_path: Seq<Seq<char>>)
    ensures
        join(namespace_path.push(name), colons()) == scope_text(namespace_path) + name,
    decreases namespace_path.len(),
{
    let all = namespace_path.push(name);
    if namespace_path.len() == 0 {
        assert(scope_text(namespace_path) + name =~= name);
    } else {
        let outer = namespace_path.drop_last();
        lemma_qualified_name_text(namespace_path.last(), outer);
        assert(outer.push(namespace_path.last()) =~= namespace_path);
        assert(all.drop_last() =~= namespace_path);
        assert(join(all, colons()) == join(namespace_path, colons()) + colons() + name);
        assert(join(all, colons()) =~= scope_text(namespace_path) + name);
    }
}

/// The text `::`.
pub fn colons_str() -> (r: &'static str)
    ensures
        r@ == colons(),
{
    proof {
        reveal_strlit("::");
    }
    let r = "::";
    assert(r@ =~= colons());
    r
}

/// Does the name begin at the root namespace, with `::`?
pub fn begins_at_root(name: &str) -> (r: bool)
    ensures
        r == is_absolute(name@),
{
    let v = chars_of(name);
    let r = v.len() >= 2 && v[0] == ':' && v[1] == ':';
    proof {
        if v.len() >= 2 {
            assert(name@.take(2) =~= seq![name@[0], name@[1]]);
            if r {
                assert(name@.take(2) =~= colons());
            } else {
                assert(name@.take(2)[0] == name@[0]);
                assert(name@.take(2)[1] == name@[1]);
            }
        }
    }
    r
}

/// `name` as a constant of the namespace spelled by the first `depth` entries of
/// `namespace_path`.
pub fn qualify(name: &str, namespace_path: &Vec<String>, depth: usize) -> (r: String)
    requires
        depth <= namespace_path.len(),
    ensures
        r@ == qualified_name(name@, namespace_path.deep_view(), depth as int),
{
    let sep = colons_str();
    let mut out = String::from_str(sep);
    let ghost path = namespace_path.deep_view();
    let mut i: usize = 0;
    while i < depth
        invariant
            i <= depth <= namespace_path.len(),
            sep@ == colons(),
            path == namespace_path.deep_view(),
            out@ == colons() + scope_text(path.take(i as int)),
        decreases depth - i,
    {
        out.append(namespace_path[i].as_str());
        out.append(sep);
        proof {
            let next = path.take(i + 1);
            assert(next.drop_last() =~= path.take(i as int));
            assert(next.last() == namespace_path[i as int]@);
            assert(out@ =~= colons() + scope_text(next));
        }
        i += 1;
    }
    out.append(name);
    proof {
        lemma_qualified_name_text(name@, path.take(depth as int));
        assert(out@ =~= colons() + (scope_text(path.take(depth as int)) + name@));
    }
    out
}

/// The names that `name` may stand for inside the nesting `namespace_path`, the
/// most specific first.
pub fn possible_fully_qualified_constants(namespace_path: &Vec<String>, name: &str) -> (r: Vec<
    String,
>)
    ensures
        r.deep_view() == possible_names(name@, namespace_path.deep_view()),
{
    let mut out: Vec<String> = Vec::new();
    if begins_at_root(name) {
        out.push(String::from_str(name));
        assert(out.deep_view() =~= seq![name@]);
        return out;
    }
    let n = namespace_path.len();
    let mut depth: usize = n;
    loop
        invariant_except_break
            depth <= n,
            out.len() == n - depth,
        invariant
            n == namespace_path.len(),
            forall|j: int|
                0 <= j < out.len() ==> #[trigger] out[j]@ == qualified_name(
                    name@,
                    namespace_path.deep_view(),
                    n - j,
                ),
        ensures
            out.len() == n + 1,
        decreases depth,
    {
        let candidate = qualify(name, namespace_path, depth);
        out.push(candidate);
        if depth == 0 {
            break ;
        }
        depth -= 1;
    }
    assert(out.deep_view() =~= possible_names(name@, namespace_path.deep_view()));
    out
}

/// Inside the nesting `a`, `b`, `c` a name that is not absolute may stand for
/// `::a::b::c::name`, `::a::b::name`, `::a::name` and `::name`, in this order.
pub proof fn lemma_possible_names_of_three(
    name: Seq<char>,
    a: Seq<char>,
    b: Seq<char>,
    c: Seq<char>,
)
    requires
        !is_absolute(name),
    ensures
        possible_names(name, seq![a, b, c]) == seq![
            colons() + a + colons() + b + colons() + c + colons() + name,
            colons() + a + colons() + b + colons() + name,
            colons() + a + colons() + name,
            colons() + name,
        ],
{
    let path = seq![a, b, c];
    let sep = colons();
    assert(path.take(3) =~= path);
    assert(path.take(2) =~= seq![a, b]);
    assert(path.take(1) =~= seq![a]);
    assert(path.take(0) =~= Seq::<Seq<char>>::empty());
    lemma_qualified_name_text(name, path);
    lemma_qualified_name_text(name, seq![a, b]);
    lemma_qualified_name_text(name, seq![a]);
    lemma_qualified_name_text(name, Seq::<Seq<char>>::empty());
    assert(seq![a].drop_last() =~= Seq::<Seq<char>>::empty());
    assert(seq![a, b].drop_last() =~= seq![a]);
    assert(path.drop_last() =~= seq![a, b]);
    assert(scope_text(Seq::<Seq<char>>::empty()) =~= Seq::<char>::empty());
    assert(scope_text(seq![a]) =~= a + sep);
    assert(scope_text(seq![a, b]) =~= a + sep + b + sep);
    assert(scope_text(path) =~= a + sep + b + sep + c + sep);
    assert(qualified_name(name, path, 3) =~= sep + a + sep + b + sep + c + sep + name);
    assert(qualified_name(name, path, 2) =~= sep + a + sep + b + sep + name);
    assert(qualified_name(name, path, 1) =~= sep + a + sep + name);
    assert(qualified_name(name, path, 0) =~= sep + name);
    assert(possible_names(name, path) =~= seq![
        sep + a + sep + b + sep + c + sep + name,
        sep + a + sep + b + sep + name,
        sep + a + sep + name,
        sep + name,
    ]);
}

} // verus!
