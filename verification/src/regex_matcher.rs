//! Patterns matched by regular expressions: each pattern is written as a
//! regular expression in which a wildcard is a run of characters other than
//! the separator, and the `regex` crate does the matching.

use crate::pattern_matcher::{count_wildcards, with_entry, wildcard, Components};
use crate::text::{
    append_chars, chars_of, count_char, decimal, decimal_chars, split, split_on, string_of,
    views,
};
use vstd::prelude::*;

verus! {

/// Whether the regular expression `source` matches somewhere in `text`, as
/// the `regex` crate finds it; nothing where the crate does not take
/// `source` for a regular expression.
pub uninterp spec fn regex_match(source: Seq<char>, text: Seq<char>) -> Option<bool>;

/// The characters that mean something in a regular expression, as the
/// `regex` crate lists them.
pub open spec fn is_meta_character(c: char) -> bool {
    ||| c == '\\'
    ||| c == '.'
    ||| c == '+'
    ||| c == '*'
    ||| c == '?'
    ||| c == '('
    ||| c == ')'
    ||| c == '|'
    ||| c == '['
    ||| c == ']'
    ||| c == '{'
    ||| c == '}'
    ||| c == '^'
    ||| c == '$'
    ||| c == '#'
    ||| c == '&'
    ||| c == '-'
    ||| c == '~'
}

/// `text` as the `regex` crate escapes it: a backslash before each
/// character that means something in a regular expression, and every
/// character as it is.
pub open spec fn regex_escaped(text: Seq<char>) -> Seq<char>
    decreases text.len(),
{
    if text.len() == 0 {
        Seq::empty()
    } else if is_meta_character(text.last()) {
        regex_escaped(text.drop_last()).push('\\').push(text.last())
    } else {
        regex_escaped(text.drop_last()).push(text.last())
    }
}

/// What the group named `name` of the regular expression `source` stands
/// for in its first match in `text`, as the `regex` crate finds it: nothing
/// where the crate does not take `source` for a regular expression; nothing
/// inside where there is no match, the regular expression has no such group,
/// or the group took no part in the match.
pub uninterp spec fn regex_group(source: Seq<char>, text: Seq<char>, name: Seq<char>) -> Option<
    Option<Seq<char>>,
>;

/// `regex::Regex::new` and `regex::Regex::is_match`: compiles `source` and
/// says whether it matches somewhere in `text`. The answer is a function of
/// the two texts; the contract gives it its name and claims no more.
#[verifier::external_body]
fn regex_is_match(source: &str, text: &str) -> (r: Option<bool>)
    ensures
        r == regex_match(source@, text@),
{
    match regex::Regex::new(source) {
        Ok(expression) => Some(expression.is_match(text)),
        Err(_) => None,
    }
}

/// `regex::escape`: `text` with a backslash before each of the characters
/// that the crate lists as meta characters, and every other character as it
/// is.
#[verifier::external_body]
fn regex_escape(text: &str) -> (r: String)
    ensures
        r@ == regex_escaped(text@),
{
    regex::escape(text)
}

/// The texts of `groups`.
pub open spec fn group_views(groups: Seq<Option<String>>) -> Seq<Option<Seq<char>>> {
    Seq::new(
        groups.len(),
        |i: int|
            match groups[i] {
                Some(text) => Some(text@),
                None => None,
            },
    )
}

/// `regex::Regex::new`, `regex::Regex::captures` and
/// `regex::Captures::name`: compiles `source`, finds its first match in
/// `text`, and reads the group named `name` of that match. The contract
/// names the result.
#[verifier::external_body]
fn regex_capture(source: &str, text: &str, name: &str) -> (r: Option<Option<String>>)
    ensures
        match regex_group(source@, text@, name@) {
            None => r is None,
            Some(None) => r == Some(None::<String>),
            Some(Some(group)) => r is Some && r->Some_0 is Some && r->Some_0->Some_0@ == group,
        },
{
    match regex::Regex::new(source) {
        Ok(expression) => Some(
            expression.captures(text).and_then(|found| found.name(name)).map(
                |group| group.as_str().to_string(),
            ),
        ),
        Err(_) => None,
    }
}

/// What one character of a pattern becomes in the regular expression that
/// matches paths: a wildcard a group of one or more characters other than
/// the separator, a dot and the separator themselves, escaped, and any other
/// character itself.
pub open spec fn translated_char(c: char) -> Seq<char> {
    if c == '*' {
        "([^\\/]+)"@
    } else if c == '.' {
        "\\."@
    } else if c == '/' {
        "\\/"@
    } else {
        seq![c]
    }
}

/// The characters of a pattern, each translated.
pub open spec fn translated(pattern: Seq<char>) -> Seq<char>
    decreases pattern.len(),
{
    if pattern.len() == 0 {
        Seq::empty()
    } else {
        translated(pattern.drop_last()) + translated_char(pattern.last())
    }
}

/// The regular expression that says whether a path matches `pattern`.
pub open spec fn matching_source(pattern: Seq<char>) -> Seq<char> {
    "^"@ + translated(pattern) + "$"@
}

/// The name of the group of wildcard `i`.
pub open spec fn group_name(i: nat) -> Seq<char> {
    "p"@ + decimal(i)
}

/// The first `n` literal parts of a pattern, escaped, each followed by the
/// named group of its wildcard but the last part of the pattern.
pub open spec fn groups_up_to(parts: Seq<Seq<char>>, n: int) -> Seq<char>
    decreases n,
{
    if n <= 0 {
        Seq::empty()
    } else {
        groups_up_to(parts, n - 1) + regex_escaped(parts[n - 1]) + if n - 1 < parts.len() - 1 {
            "(?P<"@ + group_name((n - 1) as nat) + ">([^/]+))"@
        } else {
            Seq::empty()
        }
    }
}

/// The regular expression that finds what the wildcards of `pattern` stand
/// for.
pub open spec fn extraction_source(pattern: Seq<char>) -> Seq<char> {
    let parts = split(pattern, wildcard());
    "^"@ + groups_up_to(parts, parts.len() as int) + "$"@
}

/// The names of the groups of the first `n` wildcards.
pub open spec fn group_names(n: nat) -> Seq<Seq<char>> {
    Seq::new(n, |i: int| group_name(i as nat))
}

/// The components that the first `n` groups make: component `i` is what
/// group `i` stands for, where it stands for anything.
pub open spec fn gathered(groups: Seq<Option<Seq<char>>>, n: int) -> Seq<(usize, Seq<char>)>
    decreases n,
{
    if n <= 0 {
        Seq::empty()
    } else {
        match groups[n - 1] {
            Some(text) => with_entry(gathered(groups, n - 1), (n - 1) as usize, text),
            None => gathered(groups, n - 1),
        }
    }
}

/// What the first `n` groups of the regular expression `source` stand for
/// in `text`; nothing where the crate does not take `source` for a regular
/// expression.
pub open spec fn groups_found(source: Seq<char>, text: Seq<char>, n: int) -> Option<
    Seq<Option<Seq<char>>>,
>
    decreases n,
{
    if n <= 0 {
        Some(Seq::empty())
    } else {
        match groups_found(source, text, n - 1) {
            None => None,
            Some(groups) => match regex_group(source, text, group_name((n - 1) as nat)) {
                None => None,
                Some(group) => Some(groups.push(group)),
            },
        }
    }
}

/// The components that `groups` make.
pub open spec fn components_of(groups: Seq<Option<Seq<char>>>) -> Seq<(usize, Seq<char>)> {
    gathered(groups, groups.len() as int)
}

/// What the regular expression of `pattern` finds in `path`, group by
/// group.
pub open spec fn extraction(path: Seq<char>, pattern: Seq<char>) -> Option<
    Seq<Option<Seq<char>>>,
> {
    groups_found(extraction_source(pattern), path, count_char(pattern, wildcard()) as int)
}

/// The regular expression that says whether a path matches `pattern`: see
/// [`matching_source`].
pub fn matching_expression(pattern: &str) -> (r: String)
    ensures
        r@ == matching_source(pattern@),
{
    let p = chars_of(pattern);
    let mut out = chars_of("^");
    let star = chars_of("([^\\/]+)");
    let dot = chars_of("\\.");
    let slash = chars_of("\\/");
    let mut i: usize = 0;
    assert(p@.take(0) =~= Seq::<char>::empty());
    assert(out@ =~= "^"@ + translated(p@.take(0)));
    while i < p.len()
        invariant
            i <= p.len(),
            star@ == "([^\\/]+)"@,
            dot@ == "\\."@,
            slash@ == "\\/"@,
            out@ == "^"@ + translated(p@.take(i as int)),
        decreases p.len() - i,
    {
        assert(p@.take(i + 1).drop_last() =~= p@.take(i as int));
        let ghost before = out@;
        if p[i] == '*' {
            append_chars(&mut out, &star);
        } else if p[i] == '.' {
            append_chars(&mut out, &dot);
        } else if p[i] == '/' {
            append_chars(&mut out, &slash);
        } else {
            out.push(p[i]);
            assert(out@ =~= before + seq![p@[i as int]]);
        }
        assert(out@ =~= "^"@ + translated(p@.take(i + 1)));
        i += 1;
    }
    assert(p@.take(p@.len() as int) =~= p@);
    let end = chars_of("$");
    append_chars(&mut out, &end);
    string_of(&out)
}

/// The regular expression that finds what the wildcards of `pattern` stand
/// for, and the names of its groups: see [`extraction_source`].
pub fn extraction_expression(pattern: &str) -> (r: (String, Vec<String>))
    ensures
        r.0@ == extraction_source(pattern@),
        views(r.1@) == group_names(count_char(pattern@, wildcard())),
{
    let p = chars_of(pattern);
    let parts = split_on(&p, '*');
    proof {
        crate::pattern_matcher::lemma_split_len(p@, wildcard());
    }
    let ghost texts = split(pattern@, wildcard());
    let mut out = chars_of("^");
    let mut names: Vec<String> = Vec::new();
    let open = chars_of("(?P<");
    let close = chars_of(">([^/]+))");
    let mut i: usize = 0;
    assert(out@ =~= "^"@ + groups_up_to(texts, 0));
    assert(views(names@) =~= group_names(0));
    while i < parts.len()
        invariant
            i <= parts.len(),
            texts == views(parts@),
            open@ == "(?P<"@,
            close@ == ">([^/]+))"@,
            out@ == "^"@ + groups_up_to(texts, i as int),
            views(names@) == group_names(
                if i < parts.len() {
                    i as nat
                } else {
                    (parts.len() - 1) as nat
                },
            ),
        decreases parts.len() - i,
    {
        assert(texts[i as int] == parts@[i as int]@);
        let part = string_of(&parts[i]);
        let escaped = chars_of(regex_escape(part.as_str()).as_str());
        append_chars(&mut out, &escaped);
        if i < parts.len() - 1 {
            let mut name = chars_of("p");
            let number = decimal_chars(i);
            append_chars(&mut name, &number);
            assert(name@ == group_name(i as nat));
            append_chars(&mut out, &open);
            append_chars(&mut out, &name);
            append_chars(&mut out, &close);
            let ghost before = views(names@);
            names.push(string_of(&name));
            assert(views(names@) =~= before.push(group_name(i as nat)));
            assert(views(names@) =~= group_names((i + 1) as nat));
            assert(out@ =~= "^"@ + groups_up_to(texts, i + 1));
        } else {
            assert(out@ =~= "^"@ + groups_up_to(texts, i + 1));
        }
        i += 1;
    }
    let end = chars_of("$");
    append_chars(&mut out, &end);
    (string_of(&out), names)
}

/// Whether `path` matches `pattern`, as the regular expression of the
/// pattern says; nothing where the pattern makes no regular expression.
pub fn try_path_matches_pattern(path: &str, pattern: &str) -> (r: Option<bool>)
    ensures
        r == regex_match(matching_source(pattern@), path@),
{
    let source = matching_expression(pattern);
    match regex_is_match(source.as_str(), path) {
        Some(_) => Some(path_matches_pattern(path, pattern)),
        None => None,
    }
}

/// Whether `path` matches `pattern`, as the regular expression of the
/// pattern says. The pattern must make a regular expression; a pattern made
/// of letters, digits, `*`, `.`, `/`, `#`, `@`, `-` and `_` does.
pub fn path_matches_pattern(path: &str, pattern: &str) -> (r: bool)
    requires
        regex_match(matching_source(pattern@), path@) is Some,
    ensures
        Some(r) == regex_match(matching_source(pattern@), path@),
{
    let source = matching_expression(pattern);
    match regex_is_match(source.as_str(), path) {
        Some(found) => found,
        None => false,
    }
}

/// The components that `groups` make: see [`gathered`].
pub fn components_from_groups(groups: &Vec<Option<String>>) -> (r: Components)
    ensures
        r@ == gathered(group_views(groups@), groups@.len() as int),
{
    let mut components = Components::new();
    let mut i: usize = 0;
    while i < groups.len()
        invariant
            i <= groups.len(),
            components@ == gathered(group_views(groups@), i as int),
        decreases groups.len() - i,
    {
        if let Some(text) = &groups[i] {
            components.insert(i, text.clone());
        }
        i += 1;
    }
    components
}

fn find_groups(source: &str, path: &str, names: &Vec<String>) -> (r: Option<Vec<Option<String>>>)
    ensures
        match r {
            Some(groups) => groups_by_name(source@, path@, views(names@), names@.len() as int)
                == Some(group_views(groups@)),
            None => groups_by_name(source@, path@, views(names@), names@.len() as int) is None,
        },
{
    let mut groups: Vec<Option<String>> = Vec::new();
    let mut i: usize = 0;
    assert(group_views(groups@) =~= Seq::empty());
    while i < names.len()
        invariant
            i <= names.len(),
            groups_by_name(source@, path@, views(names@), i as int) == Some(
                group_views(groups@),
            ),
        decreases names.len() - i,
    {
        assert(views(names@)[i as int] == names@[i as int]@);
        match regex_capture(source, path, names[i].as_str()) {
            None => {
                proof {
                    lemma_groups_fail_for_good(
                        source@,
                        path@,
                        views(names@),
                        i + 1,
                        names@.len() as int,
                    );
                }
                return None;
            },
            Some(group) => {
                let ghost before = group_views(groups@);
                groups.push(group);
                assert(group_views(groups@) =~= before.push(
                    regex_group(source@, path@, names@[i as int]@)->Some_0,
                ));
            },
        }
        i += 1;
    }
    Some(groups)
}

/// What the groups named by the first `n` of `names` stand for.
pub open spec fn groups_by_name(
    source: Seq<char>,
    text: Seq<char>,
    names: Seq<Seq<char>>,
    n: int,
) -> Option<Seq<Option<Seq<char>>>>
    decreases n,
{
    if n <= 0 {
        Some(Seq::empty())
    } else {
        match groups_by_name(source, text, names, n - 1) {
            None => None,
            Some(groups) => match regex_group(source, text, names[n - 1]) {
                None => None,
                Some(group) => Some(groups.push(group)),
            },
        }
    }
}

/// A failure among the first `n` groups is the failure of the first `m`,
/// for every `m` from `n` on.
pub proof fn lemma_groups_fail_for_good(
    source: Seq<char>,
    text: Seq<char>,
    names: Seq<Seq<char>>,
    n: int,
    m: int,
)
    requires
        n <= m,
        groups_by_name(source, text, names, n) is None,
    ensures
        groups_by_name(source, text, names, m) is None,
    decreases m - n,
{
    if n < m {
        lemma_groups_fail_for_good(source, text, names, n, m - 1);
    }
}

/// The groups named `p0`, `p1`, ... are the groups in their order.
pub proof fn lemma_groups_by_their_names(source: Seq<char>, text: Seq<char>, count: nat, n: int)
    requires
        0 <= n <= count,
    ensures
        groups_by_name(source, text, group_names(count), n) == groups_found(source, text, n),
    decreases n,
{
    if n > 0 {
        lemma_groups_by_their_names(source, text, count, n - 1);
    }
}

/// What the wildcards of `pattern` stand for in `path`, as the regular
/// expression of the pattern finds it; nothing where the pattern makes no
/// regular expression.
pub fn try_extract_pattern_components(path: &str, pattern: &str) -> (r: Option<Components>)
    ensures
        match extraction(path@, pattern@) {
            Some(found) => r is Some && r->Some_0@ == components_of(found),
            None => r is None,
        },
{
    let (source, names) = extraction_expression(pattern);
    proof {
        let count = count_char(pattern@, wildcard());
        assert(views(names@).len() == count);
        lemma_groups_by_their_names(source@, path@, count, count as int);
    }
    match find_groups(source.as_str(), path, &names) {
        Some(_) => Some(extract_pattern_components(path, pattern)),
        None => None,
    }
}

/// What the wildcards of `pattern` stand for in `path`, as the regular
/// expression of the pattern finds it: no component where the path does not
/// match. The pattern must make a regular expression.
pub fn extract_pattern_components(path: &str, pattern: &str) -> (r: Components)
    requires
        extraction(path@, pattern@) is Some,
    ensures
        r@ == components_of(extraction(path@, pattern@)->Some_0),
{
    let (source, names) = extraction_expression(pattern);
    proof {
        let count = count_char(pattern@, wildcard());
        assert(views(names@).len() == count);
        lemma_groups_by_their_names(source@, path@, count, count as int);
    }
    match find_groups(source.as_str(), path, &names) {
        Some(groups) => components_from_groups(&groups),
        None => Components::new(),
    }
}

/// A match of a path with a pattern.
#[derive(Debug, Clone, PartialEq)]
pub struct PatternMatch {
    /// The pattern that matched.
    pub pattern: String,
    /// What its wildcards stand for.
    pub components: Components,
    /// The number of its wildcards.
    pub wildcard_count: usize,
}

/// A pattern answers for a path where both of its regular expressions are
/// regular expressions.
pub open spec fn answers(path: Seq<char>, pattern: Seq<char>) -> bool {
    regex_match(matching_source(pattern), path) is Some && extraction(path, pattern) is Some
}

/// The best of the first `n` patterns, of which `matched` says whether
/// each matches: of those that match, the one with the fewest wildcards, and
/// of several such the first.
pub open spec fn best_of(patterns: Seq<Seq<char>>, matched: Seq<bool>, n: int) -> Option<int>
    decreases n,
{
    if n <= 0 {
        None
    } else {
        let before = best_of(patterns, matched, n - 1);
        if matched[n - 1] && (before is None || count_char(patterns[n - 1], wildcard())
            < count_char(patterns[before->Some_0], wildcard())) {
            Some(n - 1)
        } else {
            before
        }
    }
}

/// Whether each of `patterns` matches `path`, as its regular expression
/// says; a pattern that makes no regular expression counts as no match.
pub open spec fn matches_of(patterns: Seq<Seq<char>>, path: Seq<char>) -> Seq<bool> {
    Seq::new(
        patterns.len(),
        |i: int| regex_match(matching_source(patterns[i]), path) == Some(true),
    )
}

/// The best of `patterns` for `path`: see [`best_of`].
pub open spec fn best_pattern(patterns: Seq<Seq<char>>, path: Seq<char>) -> Option<int> {
    best_of(patterns, matches_of(patterns, path), patterns.len() as int)
}

/// The place of the best of `patterns`, of which `matched` says whether
/// each matches: see [`best_of`].
pub fn pick_best(patterns: &Vec<String>, matched: &Vec<bool>) -> (r: Option<usize>)
    requires
        matched@.len() == patterns@.len(),
    ensures
        match best_of(views(patterns@), matched@, patterns@.len() as int) {
            Some(k) => 0 <= k < patterns@.len() && r == Some(k as usize),
            None => r is None,
        },
{
    let mut best: Option<usize> = None;
    let mut best_count: usize = 0;
    let mut i: usize = 0;
    while i < patterns.len()
        invariant
            i <= patterns.len(),
            matched@.len() == patterns@.len(),
            match best {
                Some(b) => best_of(views(patterns@), matched@, i as int) == Some(b as int) && b
                    < i && best_count == count_char(patterns@[b as int]@, wildcard()),
                None => best_of(views(patterns@), matched@, i as int) is None,
            },
        decreases patterns.len() - i,
    {
        assert(views(patterns@)[i as int] == patterns@[i as int]@);
        if matched[i] {
            let wildcard_count = count_wildcards(patterns[i].as_str());
            if best.is_none() || wildcard_count < best_count {
                best = Some(i);
                best_count = wildcard_count;
            }
        }
        i += 1;
    }
    best
}

/// The best of `patterns` for `path`; nothing outside where a pattern does
/// not answer for the path.
pub fn try_find_best_matching_pattern(path: &str, patterns: &Vec<String>) -> (r: Option<
    Option<PatternMatch>,
>)
    ensures
        r is Some <==> forall|i: int|
            0 <= i < patterns@.len() ==> answers(path@, #[trigger] patterns@[i]@),
        r is Some ==> match best_pattern(views(patterns@), path@) {
            Some(k) => {
                &&& 0 <= k < patterns@.len()
                &&& r->Some_0 is Some
                &&& r->Some_0->Some_0.pattern@ == patterns@[k]@
                &&& r->Some_0->Some_0.components@ == components_of(
                    extraction(path@, patterns@[k]@)->Some_0,
                )
                &&& r->Some_0->Some_0.wildcard_count == count_char(patterns@[k]@, wildcard())
            },
            None => r->Some_0 is None,
        },
{
    let mut i: usize = 0;
    while i < patterns.len()
        invariant
            i <= patterns.len(),
            forall|j: int| 0 <= j < i ==> answers(path@, #[trigger] patterns@[j]@),
        decreases patterns.len() - i,
    {
        if try_path_matches_pattern(path, patterns[i].as_str()).is_none() {
            return None;
        }
        if try_extract_pattern_components(path, patterns[i].as_str()).is_none() {
            return None;
        }
        i += 1;
    }
    Some(find_best_matching_pattern(path, patterns))
}

/// The best of `patterns` for `path`: of the patterns that match, the one
/// with the fewest wildcards, and of several such the first, with what its
/// wildcards stand for. Every pattern must answer for the path.
pub fn find_best_matching_pattern(path: &str, patterns: &Vec<String>) -> (r: Option<PatternMatch>)
    requires
        forall|i: int| 0 <= i < patterns@.len() ==> answers(path@, #[trigger] patterns@[i]@),
    ensures
        match best_pattern(views(patterns@), path@) {
            Some(k) => {
                &&& 0 <= k < patterns@.len()
                &&& r is Some
                &&& r->Some_0.pattern@ == patterns@[k]@
                &&& r->Some_0.components@ == components_of(
                    extraction(path@, patterns@[k]@)->Some_0,
                )
                &&& r->Some_0.wildcard_count == count_char(patterns@[k]@, wildcard())
            },
            None => r is None,
        },
{
    let mut matched: Vec<bool> = Vec::new();
    let mut i: usize = 0;
    while i < patterns.len()
        invariant
            i <= patterns.len(),
            forall|j: int| 0 <= j < patterns@.len() ==> answers(path@, #[trigger] patterns@[j]@),
            matched@ =~= matches_of(views(patterns@), path@).take(i as int),
        decreases patterns.len() - i,
    {
        assert(views(patterns@)[i as int] == patterns@[i as int]@);
        assert(answers(path@, patterns@[i as int]@));
        matched.push(path_matches_pattern(path, patterns[i].as_str()));
        i += 1;
    }
    assert(matched@ =~= matches_of(views(patterns@), path@));
    match pick_best(patterns, &matched) {
        None => None,
        Some(b) => {
            assert(answers(path@, patterns@[b as int]@));
            Some(
                PatternMatch {
                    pattern: patterns[b].clone(),
                    components: extract_pattern_components(path, patterns[b].as_str()),
                    wildcard_count: count_wildcards(patterns[b].as_str()),
                },
            )
        },
    }
}

} // verus!
