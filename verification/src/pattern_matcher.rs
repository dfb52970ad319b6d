//! Wildcard patterns: compiling a pattern into its literal parts, matching a
//! path against it, extracting what the wildcards stood for, and filling a
//! template with those components.

use crate::text::{
    append_chars, chars_of, copy_range, count_char, count_of, ends_with, find_from,
    first_occurrence, has_char_between, join, join_first, occurs_at, same_text, split,
    split_on, starts_with, string_of, views,
};
use vstd::prelude::*;

verus! {

/// The separator that no wildcard may stand for.
pub open spec fn separator() -> char {
    '/'
}

/// The wildcard of patterns and templates.
pub open spec fn wildcard() -> char {
    '*'
}

/// Where the search for an interior literal part begins, when the wildcard
/// before it begins at `pos`: at `pos`, and for an empty part one character
/// on, so that the wildcard before it has a character of its own.
pub open spec fn search_start(part: Seq<char>, pos: int) -> int {
    if part.len() == 0 {
        pos + 1
    } else {
        pos
    }
}

/// Whether `path` matches from the literal part `i` on, when the parts before
/// it have matched up to `pos`. The wildcard before part `i` begins at `pos`.
///
/// An interior literal part is taken at its first occurrence from
/// [`search_start`] on. Between two wildcards that stand side by side the
/// part is empty: the first of them stands for one character, and the second
/// begins behind it. The last part must end the path. What a wildcard stands
/// for is never empty and never holds a separator.
pub open spec fn matches_from(parts: Seq<Seq<char>>, i: int, path: Seq<char>, pos: int) -> bool
    decreases parts.len() - i,
{
    if i >= parts.len() - 1 {
        let end = path.len() - parts.last().len();
        &&& parts.last().is_suffix_of(path)
        &&& pos < end
        &&& !path.subrange(pos, end).contains(separator())
    } else {
        match first_occurrence(path, parts[i], search_start(parts[i], pos)) {
            None => false,
            Some(k) => {
                &&& pos < k
                &&& !path.subrange(pos, k).contains(separator())
                &&& matches_from(parts, i + 1, path, k + parts[i].len())
            },
        }
    }
}

/// Whether `path` matches the pattern with the literal parts `parts`.
///
/// A pattern of one part has no wildcard and matches its literal alone.
pub open spec fn pattern_matches(parts: Seq<Seq<char>>, path: Seq<char>) -> bool {
    if parts.len() == 0 {
        path.len() == 0
    } else if parts.len() == 1 {
        path == parts[0]
    } else {
        parts[0].is_prefix_of(path) && matches_from(parts, 1, path, parts[0].len() as int)
    }
}

/// What the wildcards before the parts `i`, `i + 1`, ... stand for, each with
/// the number of its wildcard, when the parts before `i` have matched up to
/// `pos`.
pub open spec fn captures_from(parts: Seq<Seq<char>>, i: int, path: Seq<char>, pos: int) -> Seq<
    (usize, Seq<char>),
>
    decreases parts.len() - i,
{
    if i >= parts.len() - 1 {
        seq![((i - 1) as usize, path.subrange(pos, path.len() - parts.last().len()))]
    } else {
        match first_occurrence(path, parts[i], search_start(parts[i], pos)) {
            None => Seq::empty(),
            Some(k) => seq![((i - 1) as usize, path.subrange(pos, k))] + captures_from(
                parts,
                i + 1,
                path,
                k + parts[i].len(),
            ),
        }
    }
}

/// The components of `path` under the pattern with the literal parts `parts`:
/// nothing where the path does not match or the pattern has no wildcard.
pub open spec fn captures(parts: Seq<Seq<char>>, path: Seq<char>) -> Seq<(usize, Seq<char>)> {
    if parts.len() >= 2 && pattern_matches(parts, path) {
        captures_from(parts, 1, path, parts[0].len() as int)
    } else {
        Seq::empty()
    }
}

/// `template` with its wildcards replaced by `values`, the last wildcard by
/// the last value and so on towards the front.
pub open spec fn fill(template: Seq<char>, values: Seq<Seq<char>>) -> Seq<char>
    decreases template.len(),
{
    if template.len() == 0 {
        Seq::empty()
    } else if template.last() == wildcard() && values.len() > 0 {
        fill(template.drop_last(), values.drop_last()) + values.last()
    } else {
        fill(template.drop_last(), values).push(template.last())
    }
}

/// The values of `entries`, in their order.
pub open spec fn values_of(entries: Seq<(usize, Seq<char>)>) -> Seq<Seq<char>> {
    Seq::new(entries.len(), |i: int| entries[i].1)
}

/// The indices of `entries` grow strictly from each entry to the next.
pub open spec fn strictly_ordered(entries: Seq<(usize, Seq<char>)>) -> bool {
    forall|i: int, j: int| 0 <= i < j < entries.len() ==> entries[i].0 < entries[j].0
}

/// The value that `entries` holds under `index`.
pub open spec fn lookup(entries: Seq<(usize, Seq<char>)>, index: usize) -> Option<Seq<char>>
    decreases entries.len(),
{
    if entries.len() == 0 {
        None
    } else if entries.last().0 == index {
        Some(entries.last().1)
    } else {
        lookup(entries.drop_last(), index)
    }
}

/// `entries` with `value` under `index`: in place of the entry that had this
/// index, or else at the place that keeps the indices in order.
pub open spec fn with_entry(
    entries: Seq<(usize, Seq<char>)>,
    index: usize,
    value: Seq<char>,
) -> Seq<(usize, Seq<char>)>
    decreases entries.len(),
{
    if entries.len() == 0 {
        seq![(index, value)]
    } else if entries.last().0 < index {
        entries.push((index, value))
    } else if entries.last().0 == index {
        entries.drop_last().push((index, value))
    } else {
        with_entry(entries.drop_last(), index, value).push(entries.last())
    }
}

/// A pattern split at its wildcards.
#[derive(Clone)]
pub struct CompiledPattern {
    /// The literal parts between the wildcards, in their order.
    pub parts: Vec<String>,
    /// The number of wildcards.
    pub wildcard_count: usize,
}

/// What the wildcards of a pattern stood for in a path: component `p0` under
/// index 0, `p1` under index 1, and so on, kept in the order of the indices.
#[derive(Debug, PartialEq)]
pub struct Components {
    entries: Vec<(usize, String)>,
}

/// The entries of `v` with each value by its view.
pub open spec fn entry_views(v: Seq<(usize, String)>) -> Seq<(usize, Seq<char>)> {
    Seq::new(v.len(), |i: int| (v[i].0, v[i].1@))
}

impl View for Components {
    type V = Seq<(usize, Seq<char>)>;

    closed spec fn view(&self) -> Seq<(usize, Seq<char>)> {
        entry_views(self.entries@)
    }
}

impl Clone for Components {
    fn clone(&self) -> (r: Self)
        ensures
            r@ == self@,
            strictly_ordered(r@),
    {
        proof {
            use_type_invariant(self);
        }
        let mut entries: Vec<(usize, String)> = Vec::new();
        let mut i: usize = 0;
        while i < self.entries.len()
            invariant
                i <= self.entries.len(),
                entry_views(entries@) =~= entry_views(self.entries@).take(i as int),
            decreases self.entries.len() - i,
        {
            let ghost before = entry_views(entries@);
            entries.push((self.entries[i].0, self.entries[i].1.clone()));
            assert(entry_views(entries@) =~= before.push(entry_views(self.entries@)[i as int]));
            i += 1;
        }
        assert(entry_views(self.entries@).take(self.entries@.len() as int) =~= entry_views(
            self.entries@,
        ));
        Components { entries }
    }
}

impl Components {
    #[verifier::type_invariant]
    closed spec fn ordered(&self) -> bool {
        strictly_ordered(self@)
    }

    /// No components.
    pub fn new() -> (r: Self)
        ensures
            r@ == Seq::<(usize, Seq<char>)>::empty(),
            strictly_ordered(r@),
    {
        let r = Components { entries: Vec::new() };
        assert(r@ =~= Seq::<(usize, Seq<char>)>::empty());
        r
    }

    /// The number of components.
    pub fn len(&self) -> (n: usize)
        ensures
            n == self@.len(),
            strictly_ordered(self@),
    {
        proof {
            use_type_invariant(self);
        }
        self.entries.len()
    }

    /// Whether there is no component.
    pub fn is_empty(&self) -> (r: bool)
        ensures
            r == (self@.len() == 0),
    {
        self.entries.len() == 0
    }

    /// The component under `index`.
    pub fn get(&self, index: usize) -> (r: Option<&String>)
        ensures
            match r {
                Some(s) => lookup(self@, index) == Some(s@),
                None => lookup(self@, index) is None,
            },
    {
        let mut i: usize = self.entries.len();
        assert(self@.take(i as int) =~= self@);
        while i > 0
            invariant
                i <= self.entries.len(),
                lookup(self@, index) == lookup(self@.take(i as int), index),
            decreases i,
        {
            i -= 1;
            assert(self@.take(i + 1).drop_last() =~= self@.take(i as int));
            if self.entries[i].0 == index {
                return Some(&self.entries[i].1);
            }
        }
        None
    }

    /// Sets the component under `index`.
    pub fn insert(&mut self, index: usize, value: String)
        ensures
            final(self)@ == with_entry(old(self)@, index, value@),
            strictly_ordered(final(self)@),
    {
        proof {
            use_type_invariant(&*self);
        }
        let ghost before = self@;
        let mut entries: Vec<(usize, String)> = Vec::new();
        core::mem::swap(&mut self.entries, &mut entries);
        assert(entry_views(entries@) =~= before);
        let mut i: usize = entries.len();
        assert(before.take(i as int) =~= before);
        assert(before.skip(i as int) =~= Seq::empty());
        while i > 0 && entries[i - 1].0 > index
            invariant
                i <= entries.len(),
                entry_views(entries@) == before,
                strictly_ordered(before),
                forall|j: int| i <= j < before.len() ==> before[j].0 > index,
                with_entry(before, index, value@) == with_entry(
                    before.take(i as int),
                    index,
                    value@,
                ) + before.skip(i as int),
            decreases i,
        {
            assert(before.take(i as int).drop_last() =~= before.take(i - 1));
            assert(seq![before[i - 1]] + before.skip(i as int) =~= before.skip(i - 1));
            i -= 1;
        }
        let ghost head = before.take(i as int);
        if i > 0 && entries[i - 1].0 == index {
            entries.set(i - 1, (index, value));
            assert(entry_views(entries@) =~= head.drop_last().push((index, value@)) + before.skip(
                i as int,
            ));
        } else {
            entries.insert(i, (index, value));
            assert(entry_views(entries@) =~= head.push((index, value@)) + before.skip(i as int));
        }
        assert(strictly_ordered(entry_views(entries@)));
        self.entries = entries;
    }
}


impl CompiledPattern {
    /// The literal parts as texts.
    pub open spec fn literals(&self) -> Seq<Seq<char>> {
        views(self.parts@)
    }

    /// Splits `pattern` at its wildcards. Every text is a pattern.
    pub fn new(pattern: &str) -> (r: Result<Self, String>)
        ensures
            r is Ok,
            r->Ok_0.literals() == split(pattern@, wildcard()),
            r->Ok_0.wildcard_count == count_char(pattern@, wildcard()),
            r->Ok_0.wildcard_count == r->Ok_0.literals().len() - 1,
    {
        let p = chars_of(pattern);
        let pieces = split_on(&p, '*');
        let mut parts: Vec<String> = Vec::new();
        let mut i: usize = 0;
        while i < pieces.len()
            invariant
                i <= pieces.len(),
                views(parts@) =~= views(pieces@).take(i as int),
            decreases pieces.len() - i,
        {
            let ghost before = views(parts@);
            parts.push(string_of(&pieces[i]));
            assert(views(parts@) =~= before.push(pieces@[i as int]@));
            i += 1;
        }
        proof {
            lemma_split_len(p@, wildcard());
        }
        let wildcard_count = parts.len() - 1;
        Ok(CompiledPattern { parts, wildcard_count })
    }

    /// Whether `path` matches this pattern.
    pub fn matches(&self, path: &str) -> (r: bool)
        ensures
            r == pattern_matches(self.literals(), path@),
            self.literals().len() == 1 ==> r == (path@ == self.literals()[0]),
    {
        let p = chars_of(path);
        let n = self.parts.len();
        if n == 0 {
            return p.len() == 0;
        }
        let first = chars_of(self.parts[0].as_str());
        assert(self.literals()[0] == first@);
        if n == 1 {
            return same_text(&p, &first);
        }
        if !starts_with(&p, &first) {
            return false;
        }
        let mut pos: usize = first.len();
        let mut i: usize = 1;
        while i < n - 1
            invariant
                n == self.parts.len(),
                1 <= i <= n - 1,
                pos <= p.len(),
                p@ == path@,
                pattern_matches(self.literals(), p@) == matches_from(
                    self.literals(),
                    i as int,
                    p@,
                    pos as int,
                ),
            decreases n - i,
        {
            let part = chars_of(self.parts[i].as_str());
            assert(self.literals()[i as int] == part@);
            if part.len() == 0 && pos >= p.len() {
                return false;
            }
            let from = if part.len() == 0 {
                pos + 1
            } else {
                pos
            };
            proof {
                lemma_first_occurrence(p@, part@, from as int);
            }
            match find_from(&p, &part, from) {
                None => {
                    return false;
                },
                Some(k) => {
                    if k == pos || has_char_between(&p, '/', pos, k) {
                        return false;
                    }
                    pos = k + part.len();
                },
            }
            i += 1;
        }
        let last = chars_of(self.parts[n - 1].as_str());
        assert(self.literals().last() == last@);
        if !ends_with(&p, &last) {
            return false;
        }
        let end = p.len() - last.len();
        if pos >= end {
            return false;
        }
        !has_char_between(&p, '/', pos, end)
    }

    /// What the wildcards of this pattern stand for in `path`: nothing where
    /// the path does not match.
    pub fn extract_components(&self, path: &str) -> (r: Components)
        ensures
            r@ == captures(self.literals(), path@),
            strictly_ordered(r@),
    {
        let n = self.parts.len();
        if n < 2 || !self.matches(path) {
            return Components::new();
        }
        let p = chars_of(path);
        let first = chars_of(self.parts[0].as_str());
        assert(self.literals()[0] == first@);
        let mut entries: Vec<(usize, String)> = Vec::new();
        let mut pos: usize = first.len();
        let mut i: usize = 1;
        assert(entry_views(entries@) =~= Seq::empty());
        while i < n - 1
            invariant
                n == self.parts.len(),
                1 <= i <= n - 1,
                pos <= p.len(),
                matches_from(self.literals(), i as int, p@, pos as int),
                captures(self.literals(), p@) == entry_views(entries@) + captures_from(
                    self.literals(),
                    i as int,
                    p@,
                    pos as int,
                ),
                strictly_ordered(entry_views(entries@)),
                forall|j: int| 0 <= j < entries@.len() ==> entries@[j].0 + 1 < i,
            decreases n - i,
        {
            let part = chars_of(self.parts[i].as_str());
            assert(self.literals()[i as int] == part@);
            proof {
                lemma_first_occurrence(p@, part@, search_start(part@, pos as int));
            }
            let from = if part.len() == 0 {
                pos + 1
            } else {
                pos
            };
            let found = find_from(&p, &part, from);
            assert(found is Some);
            let k = found.unwrap();
            let ghost before = entry_views(entries@);
            entries.push((i - 1, string_of(&copy_range(&p, pos, k))));
            assert(entry_views(entries@) =~= before.push(
                ((i - 1) as usize, p@.subrange(pos as int, k as int)),
            ));
            pos = k + part.len();
            i += 1;
        }
        let last = chars_of(self.parts[n - 1].as_str());
        assert(self.literals().last() == last@);
        let end = p.len() - last.len();
        let ghost before = entry_views(entries@);
        entries.push((n - 2, string_of(&copy_range(&p, pos, end))));
        assert(entry_views(entries@) =~= before.push(
            ((n - 2) as usize, p@.subrange(pos as int, end as int)),
        ));
        Components { entries }
    }
}

/// The number of wildcards in `pattern`.
pub fn count_wildcards(pattern: &str) -> (n: usize)
    ensures
        n == count_char(pattern@, wildcard()),
{
    let p = chars_of(pattern);
    count_of(&p, '*')
}

/// Fills the wildcards of `template` with `components`: the first wildcard
/// with the component of the least index, and so on. A template takes as many
/// components as it has wildcards.
pub fn apply_components_to_template(template: &str, components: &Components) -> (r: String)
    requires
        count_char(template@, wildcard()) == components@.len(),
    ensures
        r@ == fill(template@, values_of(components@)),
{
    let t = chars_of(template);
    let ghost values = values_of(components@);
    let mut out: Vec<char> = Vec::new();
    let mut k: usize = 0;
    let mut i: usize = 0;
    assert(t@.take(0) =~= Seq::<char>::empty());
    while i < t.len()
        invariant
            i <= t.len(),
            k <= components.entries.len(),
            components@.len() == components.entries.len(),
            values == values_of(components@),
            count_char(t@, wildcard()) == components@.len(),
            k == count_char(t@.take(i as int), wildcard()),
            out@ == fill(t@.take(i as int), values.take(k as int)),
        decreases t.len() - i,
    {
        assert(t@.take(i + 1).drop_last() =~= t@.take(i as int));
        proof {
            lemma_count_take(t@, wildcard(), i + 1);
        }
        if t[i] == '*' {
            let value = chars_of(components.entries[k].1.as_str());
            assert(values.take(k + 1).drop_last() =~= values.take(k as int));
            assert(values.take(k + 1).last() == value@);
            append_chars(&mut out, &value);
            k += 1;
        } else {
            out.push(t[i]);
        }
        i += 1;
    }
    assert(t@.take(t@.len() as int) =~= t@);
    assert(values.take(k as int) =~= values);
    string_of(&out)
}

/// A path that matches has one component for each wildcard: the component
/// of wildcard `j` stands under the index `j`, holds a character at least,
/// and holds no separator.
pub proof fn lemma_one_component_for_each_wildcard(
    parts: Seq<Seq<char>>,
    i: int,
    path: Seq<char>,
    pos: int,
)
    requires
        1 <= i <= parts.len() - 1,
        0 <= pos,
        parts.len() - 1 <= usize::MAX,
        matches_from(parts, i, path, pos),
    ensures
        captures_from(parts, i, path, pos).len() == parts.len() - i,
        forall|j: int|
            0 <= j < parts.len() - i ==> {
                let component = #[trigger] captures_from(parts, i, path, pos)[j];
                &&& component.0 == i - 1 + j
                &&& component.1.len() > 0
                &&& !component.1.contains(separator())
            },
    decreases parts.len() - i,
{
    let found = captures_from(parts, i, path, pos);
    if i < parts.len() - 1 {
        lemma_first_occurrence(path, parts[i], search_start(parts[i], pos));
        let k = first_occurrence(path, parts[i], search_start(parts[i], pos))->Some_0;
        let rest = captures_from(parts, i + 1, path, k + parts[i].len());
        lemma_one_component_for_each_wildcard(parts, i + 1, path, k + parts[i].len());
        assert forall|j: int| 0 <= j < parts.len() - i implies {
            let component = #[trigger] found[j];
            &&& component.0 == i - 1 + j
            &&& component.1.len() > 0
            &&& !component.1.contains(separator())
        } by {
            if j > 0 {
                assert(found[j] == rest[j - 1]);
            }
        }
    }
}

/// The components of a path under a pattern that it matches are as many as
/// the pattern has wildcards; each holds a character at least and no
/// separator; and the path is at least as long as the pattern.
pub proof fn lemma_components_of_a_match(pattern: Seq<char>, path: Seq<char>)
    requires
        pattern.len() <= usize::MAX,
        pattern_matches(split(pattern, wildcard()), path),
    ensures
        captures(split(pattern, wildcard()), path).len() == count_char(pattern, wildcard()),
        forall|j: int|
            0 <= j < count_char(pattern, wildcard()) ==> {
                let component = #[trigger] captures(split(pattern, wildcard()), path)[j];
                &&& component.0 == j
                &&& component.1.len() > 0
                &&& !component.1.contains(separator())
            },
        path.len() >= pattern.len(),
{
    let parts = split(pattern, wildcard());
    let found = captures(parts, path);
    lemma_split_len(pattern, wildcard());
    lemma_count_at_most_the_length(pattern, wildcard());
    if parts.len() >= 2 {
        lemma_one_component_for_each_wildcard(parts, 1, path, parts[0].len() as int);
    }
    lemma_round_trip(pattern, path);
    assert forall|j: int| 0 <= j < values_of(found).len() implies (#[trigger] values_of(
        found,
    )[j]).len() > 0 by {
        assert(found[j].1.len() > 0);
    }
    lemma_fill_is_no_shorter(pattern, values_of(found));
}

/// A template filled with as many values as it has wildcards, each with a
/// character at least, is no shorter than the template.
pub proof fn lemma_fill_is_no_shorter(template: Seq<char>, values: Seq<Seq<char>>)
    requires
        count_char(template, wildcard()) == values.len(),
        forall|j: int| 0 <= j < values.len() ==> (#[trigger] values[j]).len() > 0,
    ensures
        fill(template, values).len() >= template.len(),
    decreases template.len(),
{
    if template.len() > 0 {
        if template.last() == wildcard() {
            assert(values.last().len() > 0);
            lemma_fill_is_no_shorter(template.drop_last(), values.drop_last());
        } else {
            lemma_fill_is_no_shorter(template.drop_last(), values);
        }
    }
}

/// A character occurs in a text no more often than the text is long.
pub proof fn lemma_count_at_most_the_length(s: Seq<char>, c: char)
    ensures
        count_char(s, c) <= s.len(),
    decreases s.len(),
{
    if s.len() > 0 {
        lemma_count_at_most_the_length(s.drop_last(), c);
    }
}

/// A split has one piece more than the text has separators.
pub proof fn lemma_split_len(s: Seq<char>, sep: char)
    ensures
        split(s, sep).len() == count_char(s, sep) + 1,
    decreases s.len(),
{
    if s.len() > 0 {
        lemma_split_len(s.drop_last(), sep);
    }
}

/// A prefix holds no more occurrences of a character than the whole text.
pub proof fn lemma_count_take(s: Seq<char>, c: char, n: int)
    requires
        0 <= n <= s.len(),
    ensures
        count_char(s.take(n), c) <= count_char(s, c),
    decreases s.len(),
{
    if n < s.len() {
        assert(s.drop_last().take(n) =~= s.take(n));
        lemma_count_take(s.drop_last(), c, n);
    } else {
        assert(s.take(n) =~= s);
    }
}

/// What `first_occurrence` finds is the least occurrence at or after `from`.
pub proof fn lemma_first_occurrence(hay: Seq<char>, needle: Seq<char>, from: int)
    requires
        0 <= from,
    ensures
        match first_occurrence(hay, needle, from) {
            Some(k) => {
                &&& from <= k
                &&& occurs_at(hay, needle, k)
                &&& forall|j: int| from <= j < k ==> !occurs_at(hay, needle, j)
            },
            None => forall|j: int| from <= j ==> !occurs_at(hay, needle, j),
        },
    decreases hay.len() - from,
{
    if from + needle.len() <= hay.len() && !occurs_at(hay, needle, from) {
        lemma_first_occurrence(hay, needle, from + 1);
    }
}


/// A text without the separator is its own single piece.
pub proof fn lemma_split_without_separator(s: Seq<char>, sep: char)
    requires
        count_char(s, sep) == 0,
    ensures
        split(s, sep) == seq![s],
    decreases s.len(),
{
    if s.len() > 0 {
        lemma_split_without_separator(s.drop_last(), sep);
        assert(s.drop_last().push(s.last()) =~= s);
        assert(seq![s.drop_last()].drop_last().push(s) =~= seq![s]);
    } else {
        assert(s =~= Seq::<char>::empty());
    }
}

/// A pattern without a wildcard matches its own text and no other.
pub proof fn lemma_literal_pattern_matches_itself_only(pattern: Seq<char>, path: Seq<char>)
    requires
        count_char(pattern, wildcard()) == 0,
    ensures
        pattern_matches(split(pattern, wildcard()), path) <==> path == pattern,
{
    lemma_split_without_separator(pattern, wildcard());
}

/// No piece of a split holds the separator.
pub proof fn lemma_split_pieces_hold_no_separator(s: Seq<char>, sep: char)
    ensures
        forall|i: int|
            0 <= i < split(s, sep).len() ==> count_char(#[trigger] split(s, sep)[i], sep) == 0,
    decreases s.len(),
{
    if s.len() > 0 {
        lemma_split_pieces_hold_no_separator(s.drop_last(), sep);
        let init = split(s.drop_last(), sep);
        lemma_split_len(s.drop_last(), sep);
        if s.last() != sep {
            assert(init.last().push(s.last()).drop_last() =~= init.last());
        }
    }
}

/// `join_first` reads the first `n` pieces only.
pub proof fn lemma_join_first_reads_prefix(
    a: Seq<Seq<char>>,
    b: Seq<Seq<char>>,
    sep: Seq<char>,
    n: int,
)
    requires
        0 <= n <= a.len(),
        n <= b.len(),
        a.take(n) == b.take(n),
    ensures
        join_first(a, sep, n) == join_first(b, sep, n),
    decreases n,
{
    if n >= 1 {
        assert(a[n - 1] == a.take(n)[n - 1]);
        assert(b[n - 1] == b.take(n)[n - 1]);
        if n >= 2 {
            assert(a.take(n - 1) =~= a.take(n).take(n - 1));
            assert(b.take(n - 1) =~= b.take(n).take(n - 1));
            lemma_join_first_reads_prefix(a, b, sep, n - 1);
        }
    }
}

/// Joining the pieces of a split with the separator gives the text back.
pub proof fn lemma_join_of_split(s: Seq<char>, sep: char)
    ensures
        join(split(s, sep), seq![sep]) == s,
    decreases s.len(),
{
    if s.len() == 0 {
        assert(s =~= Seq::<char>::empty());
    } else {
        let rest = s.drop_last();
        let init = split(rest, sep);
        let n = init.len() as int;
        lemma_join_of_split(rest, sep);
        lemma_split_len(rest, sep);
        let all = split(s, sep);
        if s.last() == sep {
            assert(all.take(n) =~= init.take(n));
            lemma_join_first_reads_prefix(all, init, seq![sep], n);
            assert(join(all, seq![sep]) =~= rest + seq![sep] + Seq::<char>::empty());
            assert(rest + seq![sep] + Seq::<char>::empty() =~= s);
        } else {
            if n >= 2 {
                assert(all.take(n - 1) =~= init.take(n - 1));
                lemma_join_first_reads_prefix(all, init, seq![sep], n - 1);
                assert(join(all, seq![sep]) =~= join_first(init, seq![sep], n - 1) + seq![sep]
                    + init.last().push(s.last()));
                assert(join(init, seq![sep]) =~= join_first(init, seq![sep], n - 1) + seq![sep]
                    + init.last());
                assert(join(all, seq![sep]) =~= rest.push(s.last()));
            } else {
                assert(join(all, seq![sep]) =~= init[0].push(s.last()));
            }
            assert(rest.push(s.last()) =~= s);
        }
    }
}

/// Filling passes over a literal tail.
pub proof fn lemma_fill_literal(template: Seq<char>, literal: Seq<char>, values: Seq<Seq<char>>)
    requires
        count_char(literal, wildcard()) == 0,
    ensures
        fill(template + literal, values) == fill(template, values) + literal,
    decreases literal.len(),
{
    if literal.len() == 0 {
        assert(template + literal =~= template);
        assert(fill(template, values) + literal =~= fill(template, values));
    } else {
        let init = literal.drop_last();
        lemma_fill_literal(template, init, values);
        assert((template + literal).drop_last() =~= template + init);
        assert((template + literal).last() == literal.last());
        assert((fill(template, values) + init).push(literal.last()) =~= fill(template, values)
            + literal);
    }
}

/// Filling gives the last wildcard the last value.
pub proof fn lemma_fill_wildcard(template: Seq<char>, values: Seq<Seq<char>>, value: Seq<char>)
    ensures
        fill(template.push(wildcard()), values.push(value)) == fill(template, values) + value,
{
    assert(template.push(wildcard()).drop_last() =~= template);
    assert(values.push(value).drop_last() =~= values);
}

/// A template that takes as many values as it has wildcards is filled from
/// the front: its first wildcard takes the first value, and what is left of
/// the template takes what is left of the values.
pub proof fn lemma_fill_from_the_front(template: Seq<char>, values: Seq<Seq<char>>)
    requires
        template.len() > 0,
        count_char(template, wildcard()) == values.len(),
    ensures
        fill(template, values) == if template[0] == wildcard() {
            values[0] + fill(template.drop_first(), values.drop_first())
        } else {
            seq![template[0]] + fill(template.drop_first(), values)
        },
    decreases template.len(),
{
    let none = Seq::<char>::empty();
    if template.len() == 1 {
        assert(template.drop_last() =~= none);
        assert(template.drop_first() =~= none);
        assert(count_char(none, wildcard()) == 0);
        assert(template.last() == template[0]);
        assert(fill(none, values) =~= none);
        if template[0] == wildcard() {
            assert(values.len() == 1);
            assert(values.last() == values[0]);
            assert(values.drop_last() =~= Seq::<Seq<char>>::empty());
            assert(fill(none, values.drop_last()) =~= none);
            assert(fill(template, values) =~= values[0]);
            assert(values[0] + fill(none, values.drop_first()) =~= values[0]);
        } else {
            assert(fill(template, values) =~= none.push(template[0]));
            assert(seq![template[0]] + fill(none, values) =~= seq![template[0]]);
        }
    } else {
        let init = template.drop_last();
        let rest = template.drop_first();
        assert(rest.drop_last() =~= init.drop_first());
        assert(init[0] == template[0]);
        assert(rest.last() == template.last());
        lemma_count_from_the_front(template, wildcard());
        lemma_count_from_the_front(init, wildcard());
        if template.last() == wildcard() {
            assert(values.len() > 0);
            lemma_fill_from_the_front(init, values.drop_last());
            if template[0] == wildcard() {
                assert(values.len() >= 2);
                assert(values.drop_last()[0] == values[0]);
                assert(values.drop_last().drop_first() =~= values.drop_first().drop_last());
                assert(values.drop_first().last() == values.last());
                assert(fill(template, values) =~= values[0] + fill(rest, values.drop_first()));
            } else {
                assert(fill(template, values) =~= seq![template[0]] + fill(rest, values));
            }
        } else {
            lemma_fill_from_the_front(init, values);
            if template[0] == wildcard() {
                assert(fill(rest, values.drop_first()) =~= fill(
                    init.drop_first(),
                    values.drop_first(),
                ).push(template.last()));
                assert(fill(template, values) =~= values[0] + fill(rest, values.drop_first()));
            } else {
                assert(fill(rest, values) =~= fill(init.drop_first(), values).push(
                    template.last(),
                ));
                assert(fill(template, values) =~= seq![template[0]] + fill(rest, values));
            }
        }
    }
}

/// The occurrences of a character are those behind the first character,
/// and one more where the first character is an occurrence.
pub proof fn lemma_count_from_the_front(s: Seq<char>, c: char)
    requires
        s.len() > 0,
    ensures
        count_char(s, c) == count_char(s.drop_first(), c) + if s[0] == c {
            1nat
        } else {
            0nat
        },
    decreases s.len(),
{
    if s.len() == 1 {
        assert(s.drop_last() =~= s.drop_first());
        assert(count_char(s.drop_first(), c) == 0);
    } else {
        lemma_count_from_the_front(s.drop_last(), c);
        assert(s.drop_last().drop_first() =~= s.drop_first().drop_last());
        assert(s.drop_first().last() == s.last());
        assert(s.drop_last()[0] == s[0]);
    }
}

proof fn lemma_fill_captures_from(
    parts: Seq<Seq<char>>,
    i: int,
    path: Seq<char>,
    pos: int,
    values: Seq<Seq<char>>,
)
    requires
        1 <= i <= parts.len() - 1,
        0 <= pos <= path.len(),
        forall|j: int| 0 <= j < parts.len() ==> count_char(#[trigger] parts[j], wildcard()) == 0,
        matches_from(parts, i, path, pos),
        fill(join_first(parts, seq![wildcard()], i), values) == path.take(pos),
    ensures
        fill(
            join(parts, seq![wildcard()]),
            values + values_of(captures_from(parts, i, path, pos)),
        ) == path,
    decreases parts.len() - i,
{
    let star = seq![wildcard()];
    let head = join_first(parts, star, i);
    assert(head + star =~= head.push(wildcard()));
    if i >= parts.len() - 1 {
        let end = path.len() - parts.last().len();
        let value = path.subrange(pos, end);
        assert(values + values_of(captures_from(parts, i, path, pos)) =~= values.push(value));
        lemma_fill_wildcard(head, values, value);
        lemma_fill_literal(head + star, parts.last(), values.push(value));
        assert(path.take(pos) + value + parts.last() =~= path);
    } else {
        lemma_first_occurrence(path, parts[i], search_start(parts[i], pos));
        let k = first_occurrence(path, parts[i], search_start(parts[i], pos))->Some_0;
        let value = path.subrange(pos, k);
        let next = k + parts[i].len();
        lemma_fill_wildcard(head, values, value);
        lemma_fill_literal(head + star, parts[i], values.push(value));
        assert(path.take(pos) + value + parts[i] =~= path.take(next));
        lemma_fill_captures_from(parts, i + 1, path, next, values.push(value));
        assert(values + values_of(captures_from(parts, i, path, pos)) =~= values.push(value)
            + values_of(captures_from(parts, i + 1, path, next)));
    }
}

/// Filling a pattern with the components that it extracts from a path that
/// it matches gives the path back.
pub proof fn lemma_round_trip(pattern: Seq<char>, path: Seq<char>)
    requires
        pattern_matches(split(pattern, wildcard()), path),
    ensures
        fill(pattern, values_of(captures(split(pattern, wildcard()), path))) == path,
{
    let parts = split(pattern, wildcard());
    lemma_split_len(pattern, wildcard());
    lemma_join_of_split(pattern, wildcard());
    lemma_split_pieces_hold_no_separator(pattern, wildcard());
    let none = Seq::<Seq<char>>::empty();
    if parts.len() == 1 {
        lemma_fill_literal(Seq::empty(), pattern, none);
        assert(Seq::<char>::empty() + pattern =~= pattern);
        assert(values_of(captures(parts, path)) =~= none);
        assert(fill(Seq::<char>::empty(), none) + pattern =~= pattern);
    } else {
        lemma_fill_literal(Seq::empty(), parts[0], none);
        assert(Seq::<char>::empty() + parts[0] =~= parts[0]);
        assert(fill(Seq::<char>::empty(), none) + parts[0] =~= parts[0]);
        assert(path.take(parts[0].len() as int) =~= parts[0]);
        lemma_fill_captures_from(parts, 1, path, parts[0].len() as int, none);
        assert(none + values_of(captures(parts, path)) =~= values_of(captures(parts, path)));
    }
}

} // verus!
