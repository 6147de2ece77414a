//! File paths as text, with `/` between the components.

use vstd::prelude::*;
use vstd::string::StringExecFns;
use crate::text::{chars_of, has_prefix, has_suffix, string_of_range};

verus! {

/// The path separator as a one-character text.
pub open spec fn slash() -> Seq<char> {
    seq!['/']
}

/// What is left of `path` below the directory `base`, if `path` lies there.
///
/// An empty `base` holds every path. Otherwise `path` is `base` itself, or
/// `base`, one `/` (unless `base` ends in one) and the remainder.
pub open spec fn strip_prefix(path: Seq<char>, base: Seq<char>) -> Option<Seq<char>> {
    if base.len() == 0 {
        Some(path)
    } else if path == base {
        Some(Seq::empty())
    } else if base.last() == '/' {
        if has_prefix(path, base) {
            Some(path.skip(base.len() as int))
        } else {
            None
        }
    } else if has_prefix(path, base + slash()) {
        Some(path.skip(base.len() + 1int))
    } else {
        None
    }
}

/// `relative` put below the directory `base`.
pub open spec fn join_path(base: Seq<char>, relative: Seq<char>) -> Seq<char> {
    if base.len() == 0 {
        relative
    } else if relative.len() == 0 {
        base
    } else if base.last() == '/' {
        base + relative
    } else {
        base + slash() + relative
    }
}

/// Is `path` the directory `base` or something below it?
pub open spec fn is_under(path: Seq<char>, base: Seq<char>) -> bool {
    strip_prefix(path, base) is Some
}

/// The number of `c` among the characters of `s`.
pub open spec fn count_char(s: Seq<char>, c: char) -> nat
    decreases s.len(),
{
    if s.len() == 0 {
        0
    } else {
        count_char(s.drop_last(), c) + if s.last() == c {
            1nat
        } else {
            0nat
        }
    }
}

/// The number of components of `path`: the non-empty stretches between its separators.
pub open spec fn component_count(path: Seq<char>) -> nat
    decreases path.len(),
{
    if path.len() == 0 {
        0
    } else {
        component_count(path.drop_last()) + if path.last() != '/' && (path.len() == 1
            || path[path.len() - 2] == '/') {
            1nat
        } else {
            0nat
        }
    }
}

/// The position just behind the last `c` in `s`, or 0 where `s` holds none.
pub open spec fn after_last(s: Seq<char>, c: char) -> int
    decreases s.len(),
{
    if s.len() == 0 {
        0
    } else if s.last() == c {
        s.len() as int
    } else {
        after_last(s.drop_last(), c)
    }
}

/// The last component of `path`: what stands behind its last separator.
pub open spec fn file_name(path: Seq<char>) -> Seq<char> {
    path.skip(after_last(path, '/'))
}

/// The extension of the file that `path` names: what stands behind the last
/// dot of the file name, unless the name has no dot or only begins with one.
pub open spec fn extension(path: Seq<char>) -> Option<Seq<char>> {
    let name = file_name(path);
    let dot = after_last(name, '.');
    if dot <= 1 {
        None
    } else {
        Some(name.skip(dot))
    }
}

/// `path` without the extension of the file that it names, and without the dot before it.
pub open spec fn without_extension(path: Seq<char>) -> Seq<char> {
    match extension(path) {
        Some(ext) => path.take(path.len() - ext.len() - 1),
        None => path,
    }
}

/// Do the last components of `path` spell `child`?
pub open spec fn ends_with_path(path: Seq<char>, child: Seq<char>) -> bool {
    path == child || has_suffix(path, slash() + child)
}

/// A path that lies below a directory is that directory joined with the remainder.
pub proof fn lemma_join_restores_stripped(path: Seq<char>, base: Seq<char>)
    requires
        strip_prefix(path, base) is Some,
        strip_prefix(path, base)->0.len() > 0,
    ensures
        join_path(base, strip_prefix(path, base)->0) == path,
{
    let rest = strip_prefix(path, base)->0;
    if base.len() == 0 {
    } else if base.last() == '/' {
        assert(path =~= base + rest);
    } else {
        assert(path.take(base.len() + 1int) == base + slash());
        assert(path =~= base + slash() + rest);
    }
}

/// What was put below a directory is found there again.
pub proof fn lemma_strip_undoes_join(base: Seq<char>, relative: Seq<char>)
    requires
        relative.len() > 0,
        relative[0] != '/',
    ensures
        strip_prefix(join_path(base, relative), base) == Some(relative),
{
    let joined = join_path(base, relative);
    if base.len() == 0 {
    } else if base.last() == '/' {
        assert(joined.take(base.len() as int) =~= base);
        assert(joined.skip(base.len() as int) =~= relative);
    } else {
        assert(joined.take(base.len() + 1int) =~= base + slash());
        assert(joined.skip(base.len() + 1int) =~= relative);
    }
}

/// Does `s` hold the characters of `prefix` from position `at` on?
fn matches_at(s: &Vec<char>, at: usize, prefix: &Vec<char>) -> (r: bool)
    ensures
        r == (at + prefix.len() <= s.len() && s@.subrange(at as int, at + prefix.len())
            == prefix@),
{
    if at > s.len() || prefix.len() > s.len() - at {
        return false;
    }
    let mut i: usize = 0;
    while i < prefix.len()
        invariant
            i <= prefix.len(),
            at + prefix.len() <= s.len(),
            s@.subrange(at as int, at + i) == prefix@.take(i as int),
        decreases prefix.len() - i,
    {
        if s[at + i] != prefix[i] {
            assert(s@.subrange(at as int, at + prefix.len())[i as int] != prefix@[i as int]);
            return false;
        }
        assert(s@.subrange(at as int, at + i + 1) =~= s@.subrange(at as int, at + i).push(
            s@[at + i],
        ));
        assert(prefix@.take(i + 1) =~= prefix@.take(i as int).push(prefix@[i as int]));
        i += 1;
    }
    assert(prefix@.take(prefix.len() as int) =~= prefix@);
    true
}

/// The length of what `strip_prefix` cuts off the front of `path`, if `path` lies under `base`.
pub fn prefix_cut(path: &Vec<char>, base: &Vec<char>) -> (r: Option<usize>)
    ensures
        match r {
            Some(cut) => cut <= path.len() && strip_prefix(path@, base@) == Some(
                path@.skip(cut as int),
            ),
            None => strip_prefix(path@, base@) is None,
        },
{
    let n = base.len();
    if n == 0 {
        assert(path@.skip(0) =~= path@);
        return Some(0);
    }
    let starts = matches_at(path, 0, base);
    proof {
        if n <= path.len() {
            assert(path@.subrange(0, n as int) =~= path@.take(n as int));
        }
    }
    if starts && path.len() == n {
        assert(path@ =~= base@);
        assert(path@.skip(n as int) =~= Seq::<char>::empty());
        return Some(n);
    }
    assert(path@ != base@) by {
        if path@ == base@ {
            assert(path@.subrange(0, n as int) =~= base@);
        }
    }
    if base[n - 1] == '/' {
        if starts {
            Some(n)
        } else {
            None
        }
    } else if starts && path[n] == '/' {
        assert(path@.take(n + 1) =~= base@ + slash()) by {
            assert forall|i: int| 0 <= i < n + 1 implies path@.take(n + 1)[i] == (base@
                + slash())[i] by {
                if i < n {
                    assert(path@.take(n as int)[i] == base@[i]);
                }
            }
        }
        Some(n + 1)
    } else {
        proof {
            if has_prefix(path@, base@ + slash()) {
                let whole = base@ + slash();
                assert(path@.take(n + 1) == whole);
                assert(path@[n as int] == path@.take(n + 1)[n as int]);
                assert(whole[n as int] == '/');
                assert(path@.take(n as int) =~= base@) by {
                    assert forall|i: int| 0 <= i < n implies path@.take(n as int)[i]
                        == base@[i] by {
                        assert(path@.take(n + 1)[i] == whole[i]);
                    }
                }
            }
        }
        None
    }
}

/// What is left of `path` below the directory `base`, if `path` lies there.
pub fn strip_path_prefix(path: &str, base: &str) -> (r: Option<String>)
    ensures
        match r {
            Some(rest) => strip_prefix(path@, base@) == Some(rest@),
            None => strip_prefix(path@, base@) is None,
        },
{
    let p = chars_of(path);
    let b = chars_of(base);
    match prefix_cut(&p, &b) {
        Some(cut) => {
            let rest = string_of_range(&p, cut, p.len());
            assert(p@.subrange(cut as int, p.len() as int) =~= p@.skip(cut as int));
            Some(rest)
        },
        None => None,
    }
}

/// `relative` put below the directory `base`.
pub fn join(base: &str, relative: &str) -> (r: String)
    ensures
        r@ == join_path(base@, relative@),
{
    let b = chars_of(base);
    let rel = chars_of(relative);
    if b.len() == 0 {
        return relative.to_owned();
    }
    let mut out = base.to_owned();
    if rel.len() == 0 {
        return out;
    }
    if b[b.len() - 1] != '/' {
        proof {
            reveal_strlit("/");
        }
        out.append("/");
        assert("/"@ =~= slash());
    }
    out.append(relative);
    out
}

/// The number of components of `path`.
pub fn count_components(path: &Vec<char>) -> (r: usize)
    ensures
        r == component_count(path@),
{
    let mut n: usize = 0;
    let mut i: usize = 0;
    while i < path.len()
        invariant
            i <= path.len(),
            n <= i,
            n == component_count(path@.take(i as int)),
        decreases path.len() - i,
    {
        let starts = path[i] != '/' && (i == 0 || path[i - 1] == '/');
        proof {
            let next = path@.take(i + 1);
            assert(next.drop_last() =~= path@.take(i as int));
        }
        if starts {
            n += 1;
        }
        i += 1;
    }
    assert(path@.take(path.len() as int) =~= path@);
    n
}

/// The position just behind the last `c` in `s[..end]`, or 0 where there is none.
fn find_after_last(s: &Vec<char>, end: usize, c: char) -> (r: usize)
    requires
        end <= s.len(),
    ensures
        r == after_last(s@.take(end as int), c),
        r <= end,
{
    let mut i: usize = end;
    while i > 0
        invariant
            i <= end <= s.len(),
            after_last(s@.take(end as int), c) == after_last(s@.take(i as int), c),
        decreases i,
    {
        proof {
            assert(s@.take(i as int).drop_last() =~= s@.take(i - 1));
        }
        if s[i - 1] == c {
            return i;
        }
        i -= 1;
    }
    0
}

/// The extension of the file that `path` names.
pub fn extension_of(path: &str) -> (r: Option<String>)
    ensures
        match r {
            Some(ext) => extension(path@) == Some(ext@),
            None => extension(path@) is None,
        },
{
    let p = chars_of(path);
    let start = find_after_last(&p, p.len(), '/');
    assert(p@.take(p.len() as int) =~= p@);
    let name = slice_of(&p, start);
    let dot = find_after_last(&name, name.len(), '.');
    assert(name@.take(name.len() as int) =~= name@);
    if dot <= 1 {
        None
    } else {
        let ext = string_of_range(&name, dot, name.len());
        assert(name@.subrange(dot as int, name.len() as int) =~= name@.skip(dot as int));
        Some(ext)
    }
}

/// `path` without the extension of the file that it names.
pub fn strip_extension(path: &str) -> (r: String)
    ensures
        r@ == without_extension(path@),
{
    let p = chars_of(path);
    let start = find_after_last(&p, p.len(), '/');
    assert(p@.take(p.len() as int) =~= p@);
    let name = slice_of(&p, start);
    let dot = find_after_last(&name, name.len(), '.');
    assert(name@.take(name.len() as int) =~= name@);
    if dot <= 1 {
        let r = string_of_range(&p, 0, p.len());
        assert(p@.subrange(0, p.len() as int) =~= p@);
        r
    } else {
        let keep = start + dot - 1;
        let r = string_of_range(&p, 0, keep);
        assert(p@.subrange(0, keep as int) =~= p@.take(keep as int));
        r
    }
}

/// The characters of `v` from position `from` on.
fn slice_of(v: &Vec<char>, from: usize) -> (r: Vec<char>)
    requires
        from <= v.len(),
    ensures
        r@ == v@.skip(from as int),
{
    let mut out: Vec<char> = Vec::new();
    let mut i: usize = from;
    while i < v.len()
        invariant
            from <= i <= v.len(),
            out@ == v@.subrange(from as int, i as int),
        decreases v.len() - i,
    {
        out.push(v[i]);
        assert(v@.subrange(from as int, i + 1) =~= v@.subrange(from as int, i as int).push(
            v@[i as int],
        ));
        i += 1;
    }
    assert(v@.subrange(from as int, v.len() as int) =~= v@.skip(from as int));
    out
}

/// Do the last components of `path` spell `child`?
pub fn path_ends_with(path: &str, child: &str) -> (r: bool)
    ensures
        r == ends_with_path(path@, child@),
{
    let p = chars_of(path);
    let c = chars_of(child);
    if c.len() > p.len() {
        return false;
    }
    let at = p.len() - c.len();
    let tail = matches_at(&p, at, &c);
    assert(p@.subrange(at as int, at + c.len()) =~= p@.skip(at as int));
    if !tail {
        proof {
            let whole = slash() + c@;
            if p@ == c@ {
                assert(p@.skip(0) =~= p@);
            }
            if has_suffix(p@, whole) {
                assert(whole.len() == c@.len() + 1);
                assert(p@.len() - whole.len() == at - 1);
                assert(p@.skip(at - 1) == whole);
                assert(p@.skip(at as int) =~= p@.skip(at - 1).skip(1));
                assert(whole.skip(1) =~= c@);
            }
        }
        return false;
    }
    if at == 0 {
        assert(p@.skip(0) =~= p@);
        return true;
    }
    let sep = p[at - 1] == '/';
    proof {
        let whole = slash() + c@;
        if sep {
            assert(p@.skip(at - 1) =~= whole);
        } else {
            if has_suffix(p@, whole) {
                assert(p@.skip(at - 1)[0] == whole[0]);
            }
        }
    }
    sep
}

} // verus!
