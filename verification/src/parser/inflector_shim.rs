//! From the names of files and symbols to the names of constants.

use vstd::prelude::*;
use crate::text::{chars_of, colons, has_suffix, join, join_strings, rows};
use crate::parser::namespace_calculator::colons_str;

verus! {

/// The capital of an ASCII letter; any other character stays.
pub open spec fn upper(c: char) -> char {
    if 'a' <= c <= 'z' {
        ((c as u8 - 32) as u8) as char
    } else {
        c
    }
}

/// The small form of an ASCII letter; any other character stays.
pub open spec fn lower(c: char) -> char {
    if 'A' <= c <= 'Z' {
        ((c as u8 + 32) as u8) as char
    } else {
        c
    }
}

/// The word in capitals.
pub open spec fn upper_word(word: Seq<char>) -> Seq<char> {
    Seq::new(word.len(), |i: int| upper(word[i]))
}

/// The word with a capital first letter and small letters after it.
pub open spec fn capitalized(word: Seq<char>) -> Seq<char> {
    Seq::new(
        word.len(),
        |i: int|
            if i == 0 {
                upper(word[i])
            } else {
                lower(word[i])
            },
    )
}

/// Is `word` one of `acronyms`?
pub open spec fn is_acronym(word: Seq<char>, acronyms: Seq<Seq<char>>) -> bool {
    acronyms.contains(word)
}

/// A word as part of a constant's name: in capitals where that spells an
/// acronym, capitalized otherwise.
pub open spec fn class_word(word: Seq<char>, acronyms: Seq<Seq<char>>) -> Seq<char> {
    if is_acronym(upper_word(word), acronyms) {
        upper_word(word)
    } else {
        capitalized(word)
    }
}

/// Does `c` part two words of a name? The underscore, the hyphen and the blank do.
pub open spec fn parts_words(c: char) -> bool {
    c == '_' || c == '-' || c == ' '
}

/// Does `c` end a piece of `s`: a path separator where `by_slash` holds, else a
/// character that parts words?
pub open spec fn is_break(c: char, by_slash: bool) -> bool {
    if by_slash {
        c == '/'
    } else {
        parts_words(c)
    }
}

/// The pieces of `s` between its breaks, empty ones included: one more than
/// there are breaks.
pub open spec fn pieces(s: Seq<char>, by_slash: bool) -> Seq<Seq<char>>
    decreases s.len(),
{
    if s.len() == 0 {
        seq![Seq::empty()]
    } else {
        let before = pieces(s.drop_last(), by_slash);
        if is_break(s.last(), by_slash) {
            before.push(Seq::empty())
        } else {
            before.drop_last().push(before.last().push(s.last()))
        }
    }
}

/// If `word` ends in `suffix`: `word` with `replacement` in its place.
pub open spec fn with_suffix_replaced(
    word: Seq<char>,
    suffix: Seq<char>,
    replacement: Seq<char>,
) -> Option<Seq<char>> {
    if has_suffix(word, suffix) {
        Some(word.take(word.len() - suffix.len()) + replacement)
    } else {
        None
    }
}

/// The endings by which a plural is known, each with the ending of its
/// singular, in the order in which they are tried.
pub open spec fn singular_rules() -> Seq<(Seq<char>, Seq<char>)> {
    seq![
        ("people"@, "person"@),
        ("children"@, "child"@),
        ("statuses"@, "status"@),
        ("aliases"@, "alias"@),
        ("buses"@, "bus"@),
        ("ies"@, "y"@),
        ("sses"@, "ss"@),
        ("shes"@, "sh"@),
        ("ches"@, "ch"@),
        ("xes"@, "x"@),
        ("ss"@, "ss"@),
        ("us"@, "us"@),
        ("is"@, "is"@),
        ("s"@, ""@),
    ]
}

/// `word` changed by the first of `rules`, from `from` on, whose ending it has; unchanged where none applies.
pub open spec fn apply_rules(word: Seq<char>, rules: Seq<(Seq<char>, Seq<char>)>, from: int) -> Seq<
    char,
>
    decreases rules.len() - from,
{
    if from < 0 || from >= rules.len() {
        word
    } else {
        match with_suffix_replaced(word, rules[from].0, rules[from].1) {
            Some(changed) => changed,
            None => apply_rules(word, rules, from + 1),
        }
    }
}

/// The singular of an English word, by its ending.
pub open spec fn singular(word: Seq<char>) -> Seq<char> {
    apply_rules(word, singular_rules(), 0)
}

/// The words of `segment` (its non-empty pieces between underscores, hyphens
/// and blanks) from `from` on, each as part of a constant's name, one after the
/// other. With `singularize`, the last word is first put into the singular.
pub open spec fn class_words(
    words: Seq<Seq<char>>,
    upto: int,
    singularize: bool,
    acronyms: Seq<Seq<char>>,
) -> Seq<char>
    decreases upto,
{
    if upto <= 0 {
        Seq::empty()
    } else {
        let word = words[upto - 1];
        let rest = class_words(words, upto - 1, false, acronyms);
        if word.len() == 0 {
            class_words(words, upto - 1, singularize, acronyms)
        } else if singularize {
            rest + class_word(singular(word), acronyms)
        } else {
            rest + class_word(word, acronyms)
        }
    }
}

/// One path segment as the name of a constant.
pub open spec fn class_segment(
    segment: Seq<char>,
    singularize: bool,
    acronyms: Seq<Seq<char>>,
) -> Seq<char> {
    let words = pieces(segment, false);
    class_words(words, words.len() as int, singularize, acronyms)
}

/// The first `upto` of `segments` as names of constants; with `singularize`, the
/// last of all the segments has its last word put into the singular.
pub open spec fn class_segments(
    segments: Seq<Seq<char>>,
    upto: int,
    singularize: bool,
    acronyms: Seq<Seq<char>>,
) -> Seq<Seq<char>>
    decreases upto,
{
    if upto <= 0 {
        Seq::empty()
    } else {
        class_segments(segments, upto - 1, singularize, acronyms).push(
            class_segment(
                segments[upto - 1],
                singularize && upto == segments.len(),
                acronyms,
            ),
        )
    }
}

/// The name of the class that `s` stands for: each segment of `s` between
/// slashes becomes the name of a constant, its words capitalized (or put in
/// capitals where that spells an acronym) and run together, and the segments
/// are joined by `::`. With `singularize`, the last word of all is first put
/// into the singular.
pub open spec fn class_case(s: Seq<char>, singularize: bool, acronyms: Seq<Seq<char>>) -> Seq<
    char,
> {
    let segments = pieces(s, true);
    join(class_segments(segments, segments.len() as int, singularize, acronyms), colons())
}

/// The capital of an ASCII letter; any other character stays.
pub fn to_upper(c: char) -> (r: char)
    ensures
        r == upper(c),
{
    if 'a' <= c && c <= 'z' {
        ((c as u8) - 32) as char
    } else {
        c
    }
}

/// The small form of an ASCII letter; any other character stays.
pub fn to_lower(c: char) -> (r: char)
    ensures
        r == lower(c),
{
    if 'A' <= c && c <= 'Z' {
        ((c as u8) + 32) as char
    } else {
        c
    }
}

/// The pieces of `s` between its breaks.
pub fn split_pieces(s: &Vec<char>, by_slash: bool) -> (r: Vec<Vec<char>>)
    ensures
        rows(r) == pieces(s@, by_slash),
        r.len() > 0,
{
    let mut out: Vec<Vec<char>> = Vec::new();
    let mut current: Vec<char> = Vec::new();
    let mut i: usize = 0;
    assert(s@.take(0) =~= Seq::<char>::empty());
    assert(rows(out).push(current@) =~= seq![Seq::<char>::empty()]);
    while i < s.len()
        invariant
            i <= s.len(),
            rows(out).push(current@) == pieces(s@.take(i as int), by_slash),
        decreases s.len() - i,
    {
        let c = s[i];
        let ghost before = pieces(s@.take(i as int), by_slash);
        let ghost done = rows(out);
        let ghost open = current@;
        proof {
            assert(s@.take(i + 1).drop_last() =~= s@.take(i as int));
            assert(before.drop_last() =~= done);
            assert(before.last() == open);
        }
        let ends = if by_slash {
            c == '/'
        } else {
            c == '_' || c == '-' || c == ' '
        };
        if ends {
            out.push(current);
            current = Vec::new();
            assert(rows(out) =~= done.push(open));
            assert(rows(out).push(current@) =~= before.push(Seq::empty()));
        } else {
            current.push(c);
            assert(rows(out).push(current@) =~= before.drop_last().push(
                before.last().push(c),
            ));
        }
        i += 1;
    }
    assert(s@.take(s.len() as int) =~= s@);
    let ghost done = rows(out);
    out.push(current);
    assert(rows(out) =~= done.push(current@));
    out
}

/// Does `word` end in `suffix`?
fn ends_in(word: &Vec<char>, suffix: &Vec<char>) -> (r: bool)
    ensures
        r == has_suffix(word@, suffix@),
{
    if suffix.len() > word.len() {
        return false;
    }
    let at = word.len() - suffix.len();
    let mut i: usize = 0;
    while i < suffix.len()
        invariant
            i <= suffix.len(),
            at + suffix.len() == word.len(),
            word@.subrange(at as int, at + i) == suffix@.take(i as int),
        decreases suffix.len() - i,
    {
        if word[at + i] != suffix[i] {
            assert(word@.skip(at as int)[i as int] != suffix@[i as int]);
            return false;
        }
        assert(word@.subrange(at as int, at + i + 1) =~= word@.subrange(at as int, at + i).push(
            word@[at + i],
        ));
        assert(suffix@.take(i + 1) =~= suffix@.take(i as int).push(suffix@[i as int]));
        i += 1;
    }
    assert(suffix@.take(suffix.len() as int) =~= suffix@);
    assert(word@.subrange(at as int, at + suffix.len()) =~= word@.skip(at as int));
    true
}

/// One rule for the singular: an ending and what stands in its place.
fn singular_rule(k: usize) -> (r: (&'static str, &'static str))
    requires
        k < 14,
    ensures
        singular_rules().len() == 14,
        (r.0@, r.1@) == singular_rules()[k as int],
{
    match k {
        0 => ("people", "person"),
        1 => ("children", "child"),
        2 => ("statuses", "status"),
        3 => ("aliases", "alias"),
        4 => ("buses", "bus"),
        5 => ("ies", "y"),
        6 => ("sses", "ss"),
        7 => ("shes", "sh"),
        8 => ("ches", "ch"),
        9 => ("xes", "x"),
        10 => ("ss", "ss"),
        11 => ("us", "us"),
        12 => ("is", "is"),
        _ => ("s", ""),
    }
}

/// The singular of an English word, by its ending.
pub fn to_singular(word: &Vec<char>) -> (r: Vec<char>)
    ensures
        r@ == singular(word@),
{
    let mut k: usize = 0;
    while k < 14
        invariant
            k <= 14,
            singular_rules().len() == 14,
            singular(word@) == apply_rules(word@, singular_rules(), k as int),
        decreases 14 - k,
    {
        let (suffix, replacement) = singular_rule(k);
        let ending = chars_of(suffix);
        if ends_in(word, &ending) {
            let keep = word.len() - ending.len();
            let mut out: Vec<char> = Vec::new();
            let mut i: usize = 0;
            while i < keep
                invariant
                    i <= keep <= word.len(),
                    out@ == word@.take(i as int),
                decreases keep - i,
            {
                out.push(word[i]);
                assert(word@.take(i + 1) =~= word@.take(i as int).push(word@[i as int]));
                i += 1;
            }
            let mut tail = chars_of(replacement);
            let ghost stem = out@;
            out.append(&mut tail);
            assert(out@ =~= stem + replacement@);
            return out;
        }
        k += 1;
    }
    let mut out: Vec<char> = Vec::new();
    let mut i: usize = 0;
    while i < word.len()
        invariant
            i <= word.len(),
            out@ == word@.take(i as int),
        decreases word.len() - i,
    {
        out.push(word[i]);
        assert(word@.take(i + 1) =~= word@.take(i as int).push(word@[i as int]));
        i += 1;
    }
    assert(word@.take(word.len() as int) =~= word@);
    out
}

/// Is `word` one of `acronyms`?
fn among(word: &Vec<char>, acronyms: &Vec<String>) -> (r: bool)
    ensures
        r == is_acronym(word@, acronyms.deep_view()),
{
    let mut i: usize = 0;
    while i < acronyms.len()
        invariant
            i <= acronyms.len(),
            forall|j: int| 0 <= j < i ==> acronyms.deep_view()[j] != word@,
        decreases acronyms.len() - i,
    {
        let acronym = chars_of(acronyms[i].as_str());
        assert(acronyms.deep_view()[i as int] == acronym@);
        if ends_in(word, &acronym) && acronym.len() == word.len() {
            assert(word@.skip(0) =~= word@);
            return true;
        }
        proof {
            if acronym@ == word@ {
                assert(word@.skip(0) =~= word@);
            }
        }
        i += 1;
    }
    false
}

/// Appends to `out` the word as part of a constant's name.
fn push_class_word(out: &mut String, word: &Vec<char>, acronyms: &Vec<String>)
    ensures
        final(out)@ == old(out)@ + class_word(word@, acronyms.deep_view()),
{
    let mut capitals: Vec<char> = Vec::new();
    let mut i: usize = 0;
    while i < word.len()
        invariant
            i <= word.len(),
            capitals@ == upper_word(word@).take(i as int),
        decreases word.len() - i,
    {
        capitals.push(to_upper(word[i]));
        assert(upper_word(word@).take(i + 1) =~= upper_word(word@).take(i as int).push(
            upper(word@[i as int]),
        ));
        i += 1;
    }
    assert(upper_word(word@).take(word.len() as int) =~= upper_word(word@));
    let acronym = among(&capitals, acronyms);
    let ghost start = out@;
    let mut i: usize = 0;
    let ghost wanted = class_word(word@, acronyms.deep_view());
    assert(start + wanted.take(0) =~= start);
    while i < word.len()
        invariant
            i <= word.len(),
            capitals@ == upper_word(word@),
            wanted == class_word(word@, acronyms.deep_view()),
            acronym == is_acronym(upper_word(word@), acronyms.deep_view()),
            out@ == start + wanted.take(i as int),
        decreases word.len() - i,
    {
        let c = if acronym || i == 0 {
            capitals[i]
        } else {
            to_lower(word[i])
        };
        out.push(c);
        assert(wanted.take(i + 1) =~= wanted.take(i as int).push(c));
        assert(out@ =~= start + wanted.take(i + 1));
        i += 1;
    }
    assert(wanted.take(word.len() as int) =~= wanted);
}

/// Is every word from `from` on empty?
pub open spec fn rest_empty(words: Seq<Seq<char>>, from: int) -> bool {
    forall|j: int| from <= j < words.len() ==> (#[trigger] words[j]).len() == 0
}

/// One path segment as the name of a constant.
fn segment_name(segment: &Vec<char>, singularize: bool, acronyms: &Vec<String>) -> (r: String)
    ensures
        r@ == class_segment(segment@, singularize, acronyms.deep_view()),
{
    let words = split_pieces(segment, false);
    let ghost all = rows(words);
    let ghost known = acronyms.deep_view();
    let mut cut: usize = words.len();
    while cut > 0 && words[cut - 1].len() == 0
        invariant
            cut <= words.len(),
            all == rows(words),
            rest_empty(all, cut as int),
        decreases cut,
    {
        assert(all[cut - 1] == words[cut - 1]@);
        cut -= 1;
    }
    let mut out = String::new();
    let mut i: usize = 0;
    while i < words.len()
        invariant
            i <= words.len(),
            cut <= words.len(),
            all == rows(words),
            known == acronyms.deep_view(),
            rest_empty(all, cut as int),
            cut > 0 ==> all[cut - 1].len() > 0,
            out@ == class_words(all, i as int, singularize && i >= cut, known),
        decreases words.len() - i,
    {
        let word = &words[i];
        assert(all[i as int] == word@);
        if word.len() > 0 {
            assert(i < cut);
            if singularize && i + 1 == cut {
                let one = to_singular(word);
                push_class_word(&mut out, &one, acronyms);
            } else {
                push_class_word(&mut out, word, acronyms);
                assert(!(singularize && i + 1 >= cut));
            }
        } else {
            proof {
                if singularize && i + 1 >= cut {
                    if i < cut {
                        assert(cut == i + 1);
                        assert(all[cut - 1].len() > 0);
                    }
                }
            }
        }
        i += 1;
    }
    out
}

/// The name of the class that `s` stands for: `accounting_firms` stands for
/// `AccountingFirm` where `singularize` holds, and `admin/api_key` for
/// `Admin::ApiKey`, or for `Admin::APIKey` where `API` is among `acronyms`.
pub fn to_class_case(s: &str, singularize: bool, acronyms: &Vec<String>) -> (r: String)
    ensures
        r@ == class_case(s@, singularize, acronyms.deep_view()),
{
    let chars = chars_of(s);
    let segments = split_pieces(&chars, true);
    let ghost all = rows(segments);
    let ghost known = acronyms.deep_view();
    let mut names: Vec<String> = Vec::new();
    let mut i: usize = 0;
    assert(names.deep_view() =~= class_segments(all, 0, singularize, known));
    while i < segments.len()
        invariant
            i <= segments.len(),
            all == rows(segments),
            known == acronyms.deep_view(),
            names.deep_view() == class_segments(all, i as int, singularize, known),
        decreases segments.len() - i,
    {
        let last = i + 1 == segments.len();
        assert(all[i as int] == segments[i as int]@);
        let name = segment_name(&segments[i], singularize && last, acronyms);
        let ghost before = names.deep_view();
        names.push(name);
        assert(names.deep_view() =~= before.push(name@));
        i += 1;
    }
    join_strings(&names, colons_str())
}

/// The constant that the file path `s` (without its extension) names under
/// the autoload conventions: `my_module/some_api_class` names
/// `MyModule::SomeApiClass`, or `MyModule::SomeAPIClass` where `API` is among `acronyms`.
pub fn camelize(s: &str, acronyms: &Vec<String>) -> (r: String)
    ensures
        r@ == class_case(s@, false, acronyms.deep_view()),
{
    to_class_case(s, false, acronyms)
}

} // verus!
