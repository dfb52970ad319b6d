//! Paths as texts with `/` between their names: lexical normalisation,
//! joining, the parent directory, and the relative path from one directory
//! to a file. Nothing here looks at a disk.

use crate::text::{
    append_chars, chars_of, copy_range, count_char, join, join_first, same_text, split,
    split_on, starts_with, string_of, views,
};
use vstd::prelude::*;

verus! {

/// The text `.`, which names the directory itself.
pub open spec fn current_dir() -> Seq<char> {
    seq!['.']
}

/// The text `..`, which names the directory above.
pub open spec fn parent_dir() -> Seq<char> {
    seq!['.', '.']
}

/// The text `/`.
pub open spec fn slash() -> Seq<char> {
    seq!['/']
}

/// A path is absolute where it begins at the root.
pub open spec fn is_absolute(path: Seq<char>) -> bool {
    path.len() > 0 && path[0] == '/'
}

/// One step of normalisation: the names kept so far, and whether they hang
/// from the root, after the piece `piece` of the path.
///
/// An empty piece and `.` change nothing. `..` takes the last name away; with
/// no name left it takes the root away, if there is one, and stays as `..`;
/// after another `..` it is kept as well.
pub open spec fn step(rooted: bool, names: Seq<Seq<char>>, piece: Seq<char>) -> (
    bool,
    Seq<Seq<char>>,
) {
    if piece.len() == 0 || piece == current_dir() {
        (rooted, names)
    } else if piece == parent_dir() {
        if names.len() > 0 && names.last() != parent_dir() {
            (rooted, names.drop_last())
        } else if rooted && names.len() == 0 {
            (false, seq![piece])
        } else {
            (rooted, names.push(piece))
        }
    } else {
        (rooted, names.push(piece))
    }
}

/// The names kept, and whether they hang from the root, after the first `n`
/// of `pieces`.
pub open spec fn walk(pieces: Seq<Seq<char>>, rooted: bool, n: int) -> (bool, Seq<Seq<char>>)
    decreases n,
{
    if n <= 0 {
        (rooted, Seq::empty())
    } else {
        let before = walk(pieces, rooted, n - 1);
        step(before.0, before.1, pieces[n - 1])
    }
}

/// The path of `names`, from the root where `rooted`.
pub open spec fn render(rooted: bool, names: Seq<Seq<char>>) -> Seq<char> {
    if rooted {
        slash() + join(names, slash())
    } else {
        join(names, slash())
    }
}

/// `path` without `.`, empty pieces and every `..` that has a name to take
/// away. Above the root of an absolute path the result begins with `..`.
pub open spec fn normalized(path: Seq<char>) -> Seq<char> {
    let pieces = split(path, '/');
    let end = walk(pieces, is_absolute(path), pieces.len() as int);
    render(end.0, end.1)
}

/// `path` put behind `base`: an absolute `path` stands alone, and so does any
/// `path` behind an empty `base`.
pub open spec fn pushed(base: Seq<char>, path: Seq<char>) -> Seq<char> {
    if is_absolute(path) || base.len() == 0 {
        path
    } else if base.last() == '/' {
        base + path
    } else {
        base + slash() + path
    }
}

/// `path` joined to `base` and normalised.
pub open spec fn joined(base: Seq<char>, path: Seq<char>) -> Seq<char> {
    normalized(pushed(base, path))
}

/// The length of what stands before the names of `path`: the root, or a
/// leading `.`.
pub open spec fn head_len(path: Seq<char>) -> int {
    if is_absolute(path) {
        1
    } else if path.len() >= 1 && path[0] == '.' && (path.len() == 1 || path[1] == '/') {
        1
    } else {
        0
    }
}

/// `s` ends in a piece `.` behind its first `floor` characters.
pub open spec fn ends_in_dot_piece(s: Seq<char>, floor: int) -> bool {
    &&& s.len() > floor
    &&& s.last() == '.'
    &&& (s.len() - 1 == floor || s[s.len() - 2] == '/')
}

/// `s` without the separators and `.` pieces at its end, its first `floor`
/// characters kept.
pub open spec fn trimmed(s: Seq<char>, floor: int) -> Seq<char>
    decreases s.len(),
{
    if s.len() > floor && floor >= 0 && (s.last() == '/' || ends_in_dot_piece(s, floor)) {
        trimmed(s.drop_last(), floor)
    } else {
        s
    }
}

/// `s` without the name at its end, its first `floor` characters kept.
pub open spec fn without_last_name(s: Seq<char>, floor: int) -> Seq<char>
    decreases s.len(),
{
    if s.len() > floor && floor >= 0 && s.last() != '/' {
        without_last_name(s.drop_last(), floor)
    } else {
        s
    }
}

/// The directory of `path`: the path without its last name and without the
/// separator before that name. Separators and `.` pieces at the end count
/// for nothing, before and after the name is taken. A path with no name (the
/// root, `.`, the empty path) has the empty directory.
pub open spec fn parent(path: Seq<char>) -> Seq<char> {
    let floor = head_len(path);
    let whole = trimmed(path, floor);
    if whole.len() <= floor {
        Seq::empty()
    } else {
        let cut = without_last_name(whole, floor);
        trimmed(
            if cut.len() > floor {
                cut.drop_last()
            } else {
                cut
            },
            floor,
        )
    }
}

/// A relative path climbs where it begins with the name `..`.
pub open spec fn climbs(path: Seq<char>) -> bool {
    path == parent_dir() || (parent_dir() + slash()).is_prefix_of(path)
}

/// The import specifier for the difference `diff` between two paths: a
/// difference that climbs or is absolute as it is, any other behind `./`.
pub open spec fn specifier_of(diff: Seq<char>) -> Seq<char> {
    if climbs(diff) || is_absolute(diff) {
        diff
    } else {
        current_dir() + slash() + diff
    }
}

/// The names among the first `n` pieces of a path: every piece but the
/// empty ones and every `.` but one at the very beginning.
pub open spec fn names_of(pieces: Seq<Seq<char>>, n: int) -> Seq<Seq<char>>
    decreases n,
{
    if n <= 0 {
        Seq::empty()
    } else {
        let before = names_of(pieces, n - 1);
        let piece = pieces[n - 1];
        if piece.len() == 0 || (piece == current_dir() && n - 1 > 0) {
            before
        } else {
            before.push(piece)
        }
    }
}

/// The components of a path: the root, written `/`, where the path is
/// absolute, and then its names.
pub open spec fn components(path: Seq<char>) -> Seq<Seq<char>> {
    let pieces = split(path, '/');
    if is_absolute(path) {
        seq![slash()] + names_of(pieces, pieces.len() as int)
    } else {
        names_of(pieces, pieces.len() as int)
    }
}

/// `n` times `..`.
pub open spec fn ascents(n: int) -> Seq<Seq<char>> {
    Seq::new(n as nat, |i: int| parent_dir())
}

/// The components that lead from `base` to `path`, when the components
/// before `i` have been compared and have given `out`.
///
/// Components that are equal are passed over as long as nothing has been
/// given. Where `base` ends, the rest of `path` follows. Where `path` ends,
/// each component left of `base` gives one `..`. Beside a `.` of `base` the
/// component of `path` is given. Out of a `..` of `base` no path leads. At
/// any other difference each component left of `base` gives one `..`, and
/// the rest of `path` follows.
pub open spec fn difference(
    path: Seq<Seq<char>>,
    base: Seq<Seq<char>>,
    i: int,
    out: Seq<Seq<char>>,
) -> Option<Seq<Seq<char>>>
    decreases path.len() + base.len() - i,
{
    if i < 0 || (i >= path.len() && i >= base.len()) {
        Some(out)
    } else if i >= base.len() {
        Some(out + path.skip(i))
    } else if i >= path.len() {
        difference(path, base, i + 1, out.push(parent_dir()))
    } else if out.len() == 0 && path[i] == base[i] {
        difference(path, base, i + 1, out)
    } else if base[i] == current_dir() {
        difference(path, base, i + 1, out.push(path[i]))
    } else if base[i] == parent_dir() {
        None
    } else {
        Some(out + ascents(base.len() - i) + path.skip(i))
    }
}

/// The difference between `path` and the directory `base`, as the
/// `pathdiff` crate finds it on a system that writes its paths with `/`:
/// `path` itself where it alone is absolute, nothing where `base` alone is;
/// else the components that lead from `base` to `path`, with `/` between
/// them.
pub open spec fn path_difference(path: Seq<char>, base: Seq<char>) -> Option<Seq<char>> {
    if is_absolute(path) != is_absolute(base) {
        if is_absolute(path) {
            Some(path)
        } else {
            None
        }
    } else {
        match difference(components(path), components(base), 0, Seq::empty()) {
            None => None,
            Some(found) => Some(join(found, slash())),
        }
    }
}

/// `pathdiff::diff_paths`: the relative path from the directory `base` to
/// `path`, or nothing where the crate finds none. The crate compares the
/// components of the two paths as the standard library reads them, and the
/// contract says which components it gives: see [`path_difference`].
#[verifier::external_body]
fn diff_paths(path: &str, base: &str) -> (r: Option<String>)
    ensures
        match r {
            Some(d) => path_difference(path@, base@) == Some(d@),
            None => path_difference(path@, base@) is None,
        },
{
    pathdiff::diff_paths(path, base).map(|d| d.to_string_lossy().into_owned())
}

fn is_current_dir(piece: &Vec<char>) -> (r: bool)
    ensures
        r == (piece@ == current_dir()),
{
    let r = piece.len() == 1 && piece[0] == '.';
    assert(r ==> piece@ =~= current_dir());
    r
}

fn is_parent_dir(piece: &Vec<char>) -> (r: bool)
    ensures
        r == (piece@ == parent_dir()),
{
    let r = piece.len() == 2 && piece[0] == '.' && piece[1] == '.';
    assert(r ==> piece@ =~= parent_dir());
    r
}

/// The characters of the normalised path.
pub fn normalize_chars(path: &Vec<char>) -> (r: Vec<char>)
    ensures
        r@ == normalized(path@),
{
    let pieces = split_on(path, '/');
    let mut rooted = path.len() > 0 && path[0] == '/';
    let mut names: Vec<Vec<char>> = Vec::new();
    let mut i: usize = 0;
    assert(views(names@) =~= Seq::<Seq<char>>::empty());
    while i < pieces.len()
        invariant
            i <= pieces.len(),
            views(pieces@) == split(path@, '/'),
            walk(split(path@, '/'), is_absolute(path@), i as int) == (rooted, views(names@)),
        decreases pieces.len() - i,
    {
        let piece = &pieces[i];
        let ghost before = views(names@);
        assert(views(pieces@)[i as int] == piece@);
        if piece.len() == 0 || is_current_dir(piece) {
        } else if is_parent_dir(piece) {
            if names.len() > 0 && !is_parent_dir(&names[names.len() - 1]) {
                assert(before.last() == names@[names.len() - 1]@);
                names.pop();
                assert(views(names@) =~= before.drop_last());
            } else if rooted && names.len() == 0 {
                rooted = false;
                names.push(copy_range(piece, 0, piece.len()));
                assert(piece@.subrange(0, piece@.len() as int) =~= piece@);
                assert(views(names@) =~= seq![piece@]);
            } else {
                assert(names.len() > 0 ==> before.last() == names@[names.len() - 1]@);
                names.push(copy_range(piece, 0, piece.len()));
                assert(piece@.subrange(0, piece@.len() as int) =~= piece@);
                assert(views(names@) =~= before.push(piece@));
            }
        } else {
            names.push(copy_range(piece, 0, piece.len()));
            assert(piece@.subrange(0, piece@.len() as int) =~= piece@);
            assert(views(names@) =~= before.push(piece@));
        }
        i += 1;
    }
    let mut out: Vec<char> = Vec::new();
    if rooted {
        out.push('/');
    }
    let ghost head = out@;
    assert(head =~= if rooted { slash() } else { Seq::<char>::empty() });
    let mut j: usize = 0;
    assert(head + join_first(views(names@), slash(), 0) =~= head);
    while j < names.len()
        invariant
            j <= names.len(),
            out@ == head + join_first(views(names@), slash(), j as int),
        decreases names.len() - j,
    {
        if j > 0 {
            out.push('/');
        }
        assert(views(names@)[j as int] == names@[j as int]@);
        append_chars(&mut out, &names[j]);
        assert(out@ =~= head + join_first(views(names@), slash(), j + 1));
        j += 1;
    }
    proof {
        if !rooted {
            assert(head + join(views(names@), slash()) =~= join(views(names@), slash()));
        }
    }
    out
}

/// Normalises `path` without touching a disk: see [`normalized`].
pub fn normalize_path(path: &str) -> (r: String)
    ensures
        r@ == normalized(path@),
{
    let p = chars_of(path);
    string_of(&normalize_chars(&p))
}

/// The characters of `path` put behind `base`.
pub fn push_chars(base: &Vec<char>, path: &Vec<char>) -> (r: Vec<char>)
    ensures
        r@ == pushed(base@, path@),
{
    let mut out: Vec<char> = Vec::new();
    if !((path.len() > 0 && path[0] == '/') || base.len() == 0) {
        append_chars(&mut out, base);
        if base[base.len() - 1] != '/' {
            out.push('/');
        }
    }
    append_chars(&mut out, path);
    assert(out@ =~= pushed(base@, path@));
    out
}

/// Joins `path` to `base_path` and normalises the result. An absolute `path`
/// takes the place of `base_path`.
pub fn path_join(base_path: &str, path: &str) -> (r: String)
    ensures
        r@ == joined(base_path@, path@),
{
    let b = chars_of(base_path);
    let p = chars_of(path);
    string_of(&normalize_chars(&push_chars(&b, &p)))
}

fn trim_end(path: &Vec<char>, end: usize, floor: usize) -> (r: usize)
    requires
        end <= path.len(),
    ensures
        r <= end,
        path@.take(r as int) == trimmed(path@.take(end as int), floor as int),
{
    let mut e: usize = end;
    while e > floor && (path[e - 1] == '/' || (path[e - 1] == '.' && (e - 1 == floor
        || path[e - 2] == '/')))
        invariant
            e <= end <= path.len(),
            trimmed(path@.take(e as int), floor as int) == trimmed(
                path@.take(end as int),
                floor as int,
            ),
        decreases e,
    {
        assert(path@.take(e as int).drop_last() =~= path@.take(e - 1));
        e -= 1;
    }
    e
}

/// The characters of the directory of `path`.
pub fn parent_chars(path: &Vec<char>) -> (r: Vec<char>)
    ensures
        r@ == parent(path@),
{
    let n = path.len();
    let floor: usize = if n > 0 && path[0] == '/' {
        1
    } else if n >= 1 && path[0] == '.' && (n == 1 || path[1] == '/') {
        1
    } else {
        0
    };
    assert(path@.take(n as int) =~= path@);
    let whole = trim_end(path, n, floor);
    if whole <= floor {
        return Vec::new();
    }
    let mut e: usize = whole;
    while e > floor && path[e - 1] != '/'
        invariant
            e <= whole <= path.len(),
            without_last_name(path@.take(e as int), floor as int) == without_last_name(
                path@.take(whole as int),
                floor as int,
            ),
        decreases e,
    {
        assert(path@.take(e as int).drop_last() =~= path@.take(e - 1));
        e -= 1;
    }
    if e > floor {
        assert(path@.take(e as int).drop_last() =~= path@.take(e - 1));
        e -= 1;
    }
    let cut = trim_end(path, e, floor);
    copy_range(path, 0, cut)
}

/// The directory of `path`: see [`parent`].
pub fn dirname(path: &str) -> (r: String)
    ensures
        r@ == parent(path@),
{
    let p = chars_of(path);
    string_of(&parent_chars(&p))
}

/// The import specifier for the difference `diff` between two paths: see
/// [`specifier_of`].
pub fn relative_specifier(diff: &str) -> (r: String)
    ensures
        r@ == specifier_of(diff@),
{
    let d = chars_of(diff);
    let up: Vec<char> = vec!['.', '.'];
    let up_slash: Vec<char> = vec!['.', '.', '/'];
    assert(up@ =~= parent_dir());
    assert(up_slash@ =~= parent_dir() + slash());
    let absolute = d.len() > 0 && d[0] == '/';
    if same_text(&d, &up) || starts_with(&d, &up_slash) || absolute {
        return string_of(&d);
    }
    let mut out: Vec<char> = vec!['.', '/'];
    assert(out@ =~= current_dir() + slash());
    append_chars(&mut out, &d);
    string_of(&out)
}

/// The relative import specifier that leads from the directory `from_path`
/// to `to_path`, or nothing where no relative path leads there.
///
/// `to_path` is first put behind `from_path`; the `pathdiff` crate finds
/// the difference between that path and `from_path`, and
/// [`relative_specifier`] makes the specifier of it.
pub fn resolve_relative_path(from_path: &str, to_path: &str) -> (r: Option<String>)
    ensures
        match path_difference(pushed(from_path@, to_path@), from_path@) {
            Some(d) => r is Some && r->Some_0@ == specifier_of(d),
            None => r is None,
        },
{
    let from = chars_of(from_path);
    let to = chars_of(to_path);
    let full = string_of(&push_chars(&from, &to));
    match diff_paths(full.as_str(), from_path) {
        Some(diff) => Some(relative_specifier(diff.as_str())),
        None => None,
    }
}

/// The names are such as normalisation leaves them: none is empty or `.`
/// or holds a separator, and `..` stands only at the front of names that do
/// not hang from the root.
pub open spec fn clean(rooted: bool, names: Seq<Seq<char>>) -> bool {
    forall|i: int|
        0 <= i < names.len() ==> {
            &&& (#[trigger] names[i]).len() > 0
            &&& names[i] != current_dir()
            &&& count_char(names[i], '/') == 0
            &&& names[i] == parent_dir() ==> !rooted && forall|j: int|
                0 <= j < i ==> names[j] == parent_dir()
        }
}

/// The pieces of a text that ends in a separator and goes on with a text
/// are the pieces of the two, the ones behind the others.
pub proof fn lemma_split_around_separator(a: Seq<char>, b: Seq<char>, sep: char)
    ensures
        split(a + seq![sep] + b, sep) == split(a, sep) + split(b, sep),
    decreases b.len(),
{
    let whole = a + seq![sep] + b;
    if b.len() == 0 {
        assert(whole.drop_last() =~= a);
        assert(whole.last() == sep);
        assert(split(b, sep) =~= seq![Seq::<char>::empty()]);
        assert(split(a, sep).push(Seq::<char>::empty()) =~= split(a, sep) + split(b, sep));
    } else {
        let init = b.drop_last();
        lemma_split_around_separator(a, init, sep);
        assert(whole.drop_last() =~= a + seq![sep] + init);
        assert(whole.last() == b.last());
        let left = split(a, sep);
        let right = split(init, sep);
        crate::pattern_matcher::lemma_split_len(init, sep);
        if b.last() == sep {
            assert((left + right).push(Seq::<char>::empty()) =~= left + right.push(
                Seq::<char>::empty(),
            ));
        } else {
            assert((left + right).last() == right.last());
            assert((left + right).drop_last() =~= left + right.drop_last());
            assert((left + right.drop_last()).push(right.last().push(b.last())) =~= left
                + right.drop_last().push(right.last().push(b.last())));
        }
    }
}

/// Names without a separator, joined by it, split into themselves.
pub proof fn lemma_split_of_join(names: Seq<Seq<char>>, n: int)
    requires
        1 <= n <= names.len(),
        forall|i: int| 0 <= i < names.len() ==> count_char(#[trigger] names[i], '/') == 0,
    ensures
        split(join_first(names, slash(), n), '/') == names.take(n),
    decreases n,
{
    crate::pattern_matcher::lemma_split_without_separator(names[n - 1], '/');
    if n == 1 {
        assert(names.take(1) =~= seq![names[0]]);
    } else {
        lemma_split_of_join(names, n - 1);
        lemma_split_around_separator(join_first(names, slash(), n - 1), names[n - 1], '/');
        assert(names.take(n - 1) + seq![names[n - 1]] =~= names.take(n));
    }
}

/// What normalisation keeps of pieces without a separator is clean.
pub proof fn lemma_walk_is_clean(pieces: Seq<Seq<char>>, rooted: bool, n: int)
    requires
        0 <= n <= pieces.len(),
        forall|i: int| 0 <= i < pieces.len() ==> count_char(#[trigger] pieces[i], '/') == 0,
    ensures
        clean(walk(pieces, rooted, n).0, walk(pieces, rooted, n).1),
        walk(pieces, rooted, n).0 ==> rooted,
    decreases n,
{
    if n > 0 {
        lemma_walk_is_clean(pieces, rooted, n - 1);
        let before = walk(pieces, rooted, n - 1);
        let after = walk(pieces, rooted, n);
        let piece = pieces[n - 1];
        assert(count_char(piece, '/') == 0);
        assert forall|i: int| 0 <= i < after.1.len() implies {
            &&& (#[trigger] after.1[i]).len() > 0
            &&& after.1[i] != current_dir()
            &&& count_char(after.1[i], '/') == 0
            &&& after.1[i] == parent_dir() ==> !after.0 && forall|j: int|
                0 <= j < i ==> after.1[j] == parent_dir()
        } by {
            if i < before.1.len() && i < after.1.len() && after.1[i] == before.1[i] {
                assert(before.1[i].len() > 0);
            }
            if piece == parent_dir() && before.1.len() > 0 && before.1.last() == parent_dir() {
                assert(before.1[before.1.len() - 1] == parent_dir());
            }
        }
    }
}

/// Empty pieces keep nothing.
pub proof fn lemma_walk_over_empty_pieces(pieces: Seq<Seq<char>>, rooted: bool, n: int)
    requires
        0 <= n <= pieces.len(),
        forall|i: int| 0 <= i < n ==> (#[trigger] pieces[i]).len() == 0,
    ensures
        walk(pieces, rooted, n) == (rooted, Seq::<Seq<char>>::empty()),
    decreases n,
{
    if n > 0 {
        lemma_walk_over_empty_pieces(pieces, rooted, n - 1);
        assert(pieces[n - 1].len() == 0);
    }
}

/// Clean names are kept as they are, whatever empty pieces stand before
/// them.
pub proof fn lemma_walk_keeps_clean_names(
    pieces: Seq<Seq<char>>,
    names: Seq<Seq<char>>,
    rooted: bool,
    skipped: int,
    n: int,
)
    requires
        clean(rooted, names),
        0 <= n <= names.len(),
        0 <= skipped,
        pieces.len() == skipped + names.len(),
        forall|i: int| 0 <= i < skipped ==> (#[trigger] pieces[i]).len() == 0,
        forall|i: int| 0 <= i < names.len() ==> pieces[skipped + i] == #[trigger] names[i],
    ensures
        walk(pieces, rooted, skipped + n) == (rooted, names.take(n)),
    decreases n,
{
    if n > 0 {
        lemma_walk_keeps_clean_names(pieces, names, rooted, skipped, n - 1);
        let kept = names.take(n - 1);
        let piece = pieces[skipped + (n - 1)];
        assert(piece == names[n - 1]);
        assert(names[n - 1].len() > 0);
        if piece == parent_dir() {
            if kept.len() > 0 {
                assert(kept.last() == names[n - 2]);
                assert(names[n - 2] == parent_dir());
            }
        }
        assert(kept.push(piece) =~= names.take(n));
    } else {
        lemma_walk_over_empty_pieces(pieces, rooted, skipped);
        assert(names.take(0) =~= Seq::<Seq<char>>::empty());
    }
}

/// A path that is normalised stays as it is when it is normalised again.
pub proof fn lemma_normalized_twice(path: Seq<char>)
    ensures
        normalized(normalized(path)) == normalized(path),
{
    let pieces = split(path, '/');
    crate::pattern_matcher::lemma_split_pieces_hold_no_separator(path, '/');
    lemma_walk_is_clean(pieces, is_absolute(path), pieces.len() as int);
    let end = walk(pieces, is_absolute(path), pieces.len() as int);
    let rooted = end.0;
    let names = end.1;
    let once = render(rooted, names);
    let none = Seq::<char>::empty();
    if names.len() == 0 {
        if rooted {
            assert(once =~= slash());
            assert(once =~= none + seq!['/'] + none);
            lemma_split_around_separator(none, none, '/');
            assert(split(none, '/') =~= seq![none]);
            let again = split(once, '/');
            assert(again =~= seq![none, none]);
            lemma_walk_over_empty_pieces(again, true, 2);
        } else {
            assert(once =~= none);
            let again = split(once, '/');
            assert(again =~= seq![none]);
            lemma_walk_over_empty_pieces(again, false, 1);
        }
    } else {
        let body = join(names, slash());
        lemma_split_of_join(names, names.len() as int);
        assert(names.take(names.len() as int) =~= names);
        assert(names[0].len() > 0);
        if rooted {
            assert(once =~= none + seq!['/'] + body);
            lemma_split_around_separator(none, body, '/');
            assert(split(none, '/') =~= seq![none]);
            let again = split(once, '/');
            assert(again =~= seq![none] + names);
            assert(is_absolute(once));
            lemma_walk_keeps_clean_names(again, names, true, 1, names.len() as int);
        } else {
            lemma_join_begins_with_first(names, names.len() as int);
            assert(count_char(names[0], '/') == 0);
            lemma_no_occurrence(names[0], '/', 0);
            assert(!is_absolute(once));
            lemma_walk_keeps_clean_names(split(once, '/'), names, false, 0, names.len() as int);
        }
    }
}

/// Names that are joined begin with the first of them.
pub proof fn lemma_join_begins_with_first(names: Seq<Seq<char>>, n: int)
    requires
        1 <= n <= names.len(),
    ensures
        names[0].is_prefix_of(join_first(names, slash(), n)),
    decreases n,
{
    if n > 1 {
        lemma_join_begins_with_first(names, n - 1);
        let before = join_first(names, slash(), n - 1);
        let after = join_first(names, slash(), n);
        assert(after.subrange(0, names[0].len() as int) =~= before.subrange(
            0,
            names[0].len() as int,
        ));
    } else {
        assert(names[0].subrange(0, names[0].len() as int) =~= names[0]);
    }
}

/// A text in which a character does not occur holds it at no position.
pub proof fn lemma_no_occurrence(s: Seq<char>, c: char, i: int)
    requires
        count_char(s, c) == 0,
        0 <= i < s.len(),
    ensures
        s[i] != c,
    decreases s.len(),
{
    if i < s.len() - 1 {
        lemma_no_occurrence(s.drop_last(), c, i);
    }
}

/// Names that are joined end with the last of them.
pub proof fn lemma_join_ends_with_last(names: Seq<Seq<char>>, n: int)
    requires
        1 <= n <= names.len(),
        names[n - 1].len() > 0,
    ensures
        join_first(names, slash(), n).len() > 0,
        join_first(names, slash(), n).last() == names[n - 1].last(),
{
}

/// A normalised path ends in a name: only the root ends in a separator.
pub proof fn lemma_normalized_ends_in_a_name(path: Seq<char>)
    ensures
        normalized(path).len() > 1 ==> normalized(path).last() != '/',
{
    let pieces = split(path, '/');
    crate::pattern_matcher::lemma_split_pieces_hold_no_separator(path, '/');
    lemma_walk_is_clean(pieces, is_absolute(path), pieces.len() as int);
    let end = walk(pieces, is_absolute(path), pieces.len() as int);
    let names = end.1;
    if names.len() > 0 {
        let last = names[names.len() - 1];
        assert(last.len() > 0 && count_char(last, '/') == 0);
        lemma_join_ends_with_last(names, names.len() as int);
        lemma_no_occurrence(last, '/', last.len() - 1);
        assert(normalized(path).last() == last.last());
    }
}

} // verus!
