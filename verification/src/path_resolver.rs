//! The virtual file system: paths below the virtual root, the working
//! directory that is mounted there, and the links that lead from places
//! outside the working directory to places inside it.

use crate::paths::{
    is_absolute, joined, lemma_normalized_ends_in_a_name, lemma_normalized_twice,
    normalize_chars, normalized, push_chars, pushed,
};
use crate::text::{
    append_chars, chars_of, copy_range, pair_views, same_text, starts_with, string_of,
};
use vstd::prelude::*;

verus! {

/// The root of the virtual file system, `/cwd`.
pub open spec fn virtual_root() -> Seq<char> {
    seq!['/', 'c', 'w', 'd']
}

/// The directory `dir` holds `path`: the two are the same path, or `path`
/// goes on behind `dir` and a separator.
pub open spec fn covers(dir: Seq<char>, path: Seq<char>) -> bool {
    ||| dir == path
    ||| {
        &&& 0 < dir.len() < path.len()
        &&& dir.is_prefix_of(path)
        &&& (dir.last() == '/' || path[dir.len() as int] == '/')
    }
}

/// What is left of `path` behind the directory `dir` that holds it.
pub open spec fn below(dir: Seq<char>, path: Seq<char>) -> Seq<char> {
    if dir == path {
        Seq::empty()
    } else if dir.last() == '/' {
        path.skip(dir.len() as int)
    } else {
        path.skip(dir.len() as int + 1)
    }
}

/// `path` with the directory `to` in place of the directory `from` that
/// holds it.
pub open spec fn moved(from: Seq<char>, to: Seq<char>, path: Seq<char>) -> Seq<char> {
    if below(from, path).len() == 0 {
        to
    } else {
        joined(to, below(from, path))
    }
}

/// The link that applies to `path` among the first `n` of `links`: the one
/// whose source holds `path` and is longest, and of several such the first.
pub open spec fn best_link(links: Seq<(Seq<char>, Seq<char>)>, path: Seq<char>, n: int) -> Option<
    int,
>
    decreases n,
{
    if n <= 0 {
        None
    } else {
        let before = best_link(links, path, n - 1);
        if covers(links[n - 1].0, path) && (before is None || links[before->Some_0].0.len()
            < links[n - 1].0.len()) {
            Some(n - 1)
        } else {
            before
        }
    }
}

/// The links as the resolver keeps them: each source joined to the working
/// directory, each target as it was given.
pub open spec fn link_table(symlinks: Seq<(Seq<char>, Seq<char>)>, cwd: Seq<char>) -> Seq<
    (Seq<char>, Seq<char>),
> {
    Seq::new(symlinks.len(), |i: int| (joined(cwd, symlinks[i].0), symlinks[i].1))
}

/// What `path` resolves to under `links`, seen from `cwd`: the target of the
/// best link, with what is left of the path behind it; `path` itself where
/// no link applies.
pub open spec fn resolved(
    links: Seq<(Seq<char>, Seq<char>)>,
    cwd: Seq<char>,
    path: Seq<char>,
) -> Seq<char> {
    let absolute = joined(cwd, path);
    match best_link(links, absolute, links.len() as int) {
        None => path,
        Some(i) => moved(links[i].0, links[i].1, absolute),
    }
}

/// The message for a path that has no place in the virtual file system.
pub open spec fn invalid_path_message(path: Seq<char>) -> Seq<char> {
    "E_INVALID_FILE_PATH: Absolute paths not starting with cwd are not supported: "@ + path
}

/// The virtual path of `path` seen from `cwd`, or nothing for an absolute
/// path outside the virtual root and the working directory.
pub open spec fn virtual_path(cwd: Seq<char>, path: Seq<char>) -> Option<Seq<char>> {
    if covers(virtual_root(), path) {
        Some(path)
    } else if covers(cwd, path) {
        Some(joined(virtual_root(), below(cwd, path)))
    } else if is_absolute(path) {
        None
    } else {
        Some(joined(virtual_root(), path))
    }
}

/// A directory as a link names it: normalised, and without a separator at
/// its end unless it is the root.
pub open spec fn directory(dir_path: Seq<char>) -> Seq<char> {
    let path = normalized(dir_path);
    if path.len() > 1 && path.last() == '/' {
        path.drop_last()
    } else {
        path
    }
}

/// Resolves paths through the configured links and maps them into the
/// virtual file system. The links are kept in the order in which they were
/// given, each source normalised; of two links with the same source the
/// first counts and the second never applies.
pub struct PathResolver {
    cwd: String,
    symlinks: Vec<(String, String)>,
}

impl Clone for PathResolver {
    fn clone(&self) -> (r: Self)
        ensures
            r.cwd() == self.cwd(),
            r.links() == self.links(),
    {
        self.duplicate()
    }
}

/// Whether the directory `dir` holds `path`.
pub fn holds(dir: &Vec<char>, path: &Vec<char>) -> (r: bool)
    ensures
        r == covers(dir@, path@),
{
    if same_text(dir, path) {
        return true;
    }
    dir.len() > 0 && dir.len() < path.len() && starts_with(path, dir) && (dir[dir.len()
        - 1] == '/' || path[dir.len()] == '/')
}

/// What is left of `path` behind the directory `dir`.
pub fn rest_below(dir: &Vec<char>, path: &Vec<char>) -> (r: Vec<char>)
    requires
        covers(dir@, path@),
    ensures
        r@ == below(dir@, path@),
{
    if same_text(dir, path) {
        return Vec::new();
    }
    assert(0 < dir.len() < path.len());
    let from = if dir[dir.len() - 1] == '/' {
        dir.len()
    } else {
        dir.len() + 1
    };
    let r = copy_range(path, from, path.len());
    assert(r@ =~= path@.skip(from as int));
    r
}

fn virtual_root_chars() -> (r: Vec<char>)
    ensures
        r@ == virtual_root(),
{
    let r: Vec<char> = vec!['/', 'c', 'w', 'd'];
    assert(r@ =~= virtual_root());
    r
}

impl PathResolver {
    /// The working directory.
    pub closed spec fn cwd(&self) -> Seq<char> {
        self.cwd@
    }

    /// The links, each source joined to the working directory.
    pub closed spec fn links(&self) -> Seq<(Seq<char>, Seq<char>)> {
        pair_views(self.symlinks@)
    }

    #[verifier::type_invariant]
    closed spec fn sources_are_normalised(&self) -> bool {
        forall|i: int|
            0 <= i < self.symlinks@.len() ==> normalized((#[trigger] self.symlinks@[i]).0@)
                == self.symlinks@[i].0@
    }

    /// A resolver for the working directory `cwd` with the links `symlinks`,
    /// each a pair of a source outside and a target inside. The sources are
    /// taken relative to `cwd`. Two links may come to the same source: both
    /// are kept, and the first of them is the one that applies.
    pub fn new(symlinks: &Option<Vec<(String, String)>>, cwd: &str) -> (r: Self)
        ensures
            r.cwd() == cwd@,
            r.links() == match symlinks {
                Some(list) => link_table(pair_views(list@), cwd@),
                None => Seq::empty(),
            },
    {
        let base = chars_of(cwd);
        let mut table: Vec<(String, String)> = Vec::new();
        if let Some(list) = symlinks {
            let mut i: usize = 0;
            while i < list.len()
                invariant
                    i <= list.len(),
                    base@ == cwd@,
                    pair_views(table@) =~= link_table(pair_views(list@), cwd@).take(i as int),
                    forall|k: int|
                        0 <= k < table@.len() ==> normalized((#[trigger] table@[k]).0@)
                            == table@[k].0@,
                decreases list.len() - i,
            {
                let from = chars_of(list[i].0.as_str());
                let source = string_of(&normalize_chars(&push_chars(&base, &from)));
                proof {
                    lemma_normalized_twice(pushed(base@, from@));
                }
                let ghost before = pair_views(table@);
                table.push((source, list[i].1.clone()));
                assert(pair_views(table@) =~= before.push(
                    (joined(cwd@, list@[i as int].0@), list@[i as int].1@),
                ));
                i += 1;
            }
        }
        let r = PathResolver { cwd: string_of(&base), symlinks: table };
        assert(r.links() =~= match symlinks {
            Some(list) => link_table(pair_views(list@), cwd@),
            None => Seq::empty(),
        });
        r
    }

    /// A resolver with the same working directory and links.
    pub fn duplicate(&self) -> (r: Self)
        ensures
            r.cwd() == self.cwd(),
            r.links() == self.links(),
    {
        proof {
            use_type_invariant(self);
        }
        let mut table: Vec<(String, String)> = Vec::new();
        let mut i: usize = 0;
        while i < self.symlinks.len()
            invariant
                i <= self.symlinks.len(),
                pair_views(table@) =~= pair_views(self.symlinks@).take(i as int),
                forall|k: int|
                    0 <= k < self.symlinks@.len() ==> normalized(
                        (#[trigger] self.symlinks@[k]).0@,
                    ) == self.symlinks@[k].0@,
                forall|k: int|
                    0 <= k < table@.len() ==> normalized((#[trigger] table@[k]).0@)
                        == table@[k].0@,
            decreases self.symlinks.len() - i,
        {
            let ghost before = pair_views(table@);
            assert(normalized(self.symlinks@[i as int].0@) == self.symlinks@[i as int].0@);
            table.push((self.symlinks[i].0.clone(), self.symlinks[i].1.clone()));
            assert(pair_views(table@) =~= before.push(pair_views(self.symlinks@)[i as int]));
            i += 1;
        }
        let r = PathResolver { cwd: self.cwd.clone(), symlinks: table };
        assert(r.links() =~= self.links());
        r
    }

    /// A directory as a link names it: see [`directory`].
    pub fn normalize_directory_path(&self, dir_path: &str) -> (r: String)
        ensures
            r@ == directory(dir_path@),
    {
        let d = chars_of(dir_path);
        let normalized = normalize_chars(&d);
        if normalized.len() > 1 && normalized[normalized.len() - 1] == '/' {
            let r = copy_range(&normalized, 0, normalized.len() - 1);
            assert(r@ =~= normalized@.drop_last());
            string_of(&r)
        } else {
            string_of(&normalized)
        }
    }

    /// `path` with the directory `internal_dir` in place of the directory
    /// `external_dir`, where that directory holds the path. The directory
    /// and the path are normalised before they are compared.
    pub fn try_directory_symlink(
        &self,
        path: &str,
        external_dir: &str,
        internal_dir: &str,
    ) -> (r: Option<String>)
        ensures
            match r {
                Some(moved_path) => covers(directory(external_dir@), normalized(path@))
                    && moved_path@ == moved(
                    directory(external_dir@),
                    internal_dir@,
                    normalized(path@),
                ),
                None => !covers(directory(external_dir@), normalized(path@)),
            },
    {
        let normalized_external = self.normalize_directory_path(external_dir);
        let p = normalize_chars(&chars_of(path));
        let source = chars_of(normalized_external.as_str());
        if !holds(&source, &p) {
            return None;
        }
        let rest = rest_below(&source, &p);
        if rest.len() == 0 {
            Some(internal_dir.to_owned())
        } else {
            let target = chars_of(internal_dir);
            Some(string_of(&normalize_chars(&push_chars(&target, &rest))))
        }
    }

    /// Resolves `path` through the links: see [`resolved`]. A link whose
    /// source is the path itself is the longest that can hold it, so it wins
    /// over every link of a directory above.
    pub fn resolve_path(&self, path: &str) -> (r: String)
        ensures
            r@ == resolved(self.links(), self.cwd(), path@),
    {
        proof {
            use_type_invariant(self);
        }
        let base = chars_of(self.cwd.as_str());
        let p = chars_of(path);
        let absolute = normalize_chars(&push_chars(&base, &p));
        let mut best: Option<usize> = None;
        let mut best_len: usize = 0;
        let mut i: usize = 0;
        while i < self.symlinks.len()
            invariant
                i <= self.symlinks.len(),
                absolute@ == joined(self.cwd(), path@),
                match best {
                    Some(b) => best_link(self.links(), absolute@, i as int) == Some(b as int) && b
                        < i && best_len == self.links()[b as int].0.len(),
                    None => best_link(self.links(), absolute@, i as int) is None,
                },
            decreases self.symlinks.len() - i,
        {
            let source = chars_of(self.symlinks[i].0.as_str());
            assert(self.links()[i as int].0 == source@);
            if holds(&source, &absolute) && (best.is_none() || best_len < source.len()) {
                best = Some(i);
                best_len = source.len();
            }
            i += 1;
        }
        proof {
            lemma_best_link(self.links(), absolute@, self.symlinks.len() as int);
        }
        match best {
            None => string_of(&p),
            Some(b) => {
                assert(self.links()[b as int] == pair_views(self.symlinks@)[b as int]);
                proof {
                    // The path and the source are normalised as they stand.
                    let source = self.symlinks@[b as int].0@;
                    lemma_normalized_twice(pushed(self.cwd(), path@));
                    lemma_normalized_ends_in_a_name(source);
                    assert(directory(source) == source);
                }
                let absolute_path = string_of(&absolute);
                match self.try_directory_symlink(
                    absolute_path.as_str(),
                    self.symlinks[b].0.as_str(),
                    self.symlinks[b].1.as_str(),
                ) {
                    Some(moved_path) => moved_path,
                    None => string_of(&p),
                }
            },
        }
    }

    /// Maps `path` into the virtual file system: a path below the virtual
    /// root as it is, a path below the working directory moved below the
    /// virtual root, a relative path joined to the virtual root. Any other
    /// absolute path is refused.
    pub fn to_virtual_path(&self, path: &str) -> (r: Result<String, String>)
        ensures
            match virtual_path(self.cwd(), path@) {
                Some(v) => r is Ok && r->Ok_0@ == v,
                None => r is Err && r->Err_0@ == invalid_path_message(path@),
            },
    {
        let p = chars_of(path);
        let root = virtual_root_chars();
        if holds(&root, &p) {
            return Ok(string_of(&p));
        }
        let base = chars_of(self.cwd.as_str());
        if holds(&base, &p) {
            let rest = rest_below(&base, &p);
            return Ok(string_of(&normalize_chars(&push_chars(&root, &rest))));
        }
        if p.len() > 0 && p[0] == '/' {
            let mut message = chars_of(
                "E_INVALID_FILE_PATH: Absolute paths not starting with cwd are not supported: ",
            );
            append_chars(&mut message, &p);
            return Err(string_of(&message));
        }
        Ok(string_of(&normalize_chars(&push_chars(&root, &p))))
    }
}

/// The best link holds the path, no link that holds the path is longer, and
/// no earlier link that holds it is as long.
pub proof fn lemma_best_link(links: Seq<(Seq<char>, Seq<char>)>, path: Seq<char>, n: int)
    requires
        0 <= n <= links.len(),
    ensures
        match best_link(links, path, n) {
            Some(b) => {
                &&& 0 <= b < n
                &&& covers(links[b].0, path)
                &&& forall|j: int|
                    0 <= j < n && covers(#[trigger] links[j].0, path) ==> links[j].0.len()
                        <= links[b].0.len()
                &&& forall|j: int|
                    0 <= j < b && covers(#[trigger] links[j].0, path) ==> links[j].0.len()
                        < links[b].0.len()
            },
            None => forall|j: int| 0 <= j < n ==> !covers(#[trigger] links[j].0, path),
        },
    decreases n,
{
    if n > 0 {
        lemma_best_link(links, path, n - 1);
    }
}

/// A link whose source is the very path resolved wins over the links of the
/// directories above it: the path resolves to the target of such a link,
/// unchanged.
pub proof fn lemma_exact_link_wins(
    links: Seq<(Seq<char>, Seq<char>)>,
    cwd: Seq<char>,
    path: Seq<char>,
    k: int,
)
    requires
        0 <= k < links.len(),
        links[k].0 == joined(cwd, path),
    ensures
        best_link(links, joined(cwd, path), links.len() as int) is Some,
        links[best_link(links, joined(cwd, path), links.len() as int)->Some_0].0 == joined(
            cwd,
            path,
        ),
        resolved(links, cwd, path) == links[best_link(
            links,
            joined(cwd, path),
            links.len() as int,
        )->Some_0].1,
{
    let absolute = joined(cwd, path);
    lemma_best_link(links, absolute, links.len() as int);
    let b = best_link(links, absolute, links.len() as int)->Some_0;
    assert(covers(links[k].0, absolute));
    assert(links[b].0.len() >= absolute.len());
    assert(links[b].0 =~= absolute);
}

} // verus!
