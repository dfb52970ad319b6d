//! Caches keyed by path: what was found out about a file is kept under its
//! path, once, until the cache is cleared.

use crate::re_export::Module;
use crate::text::same_str;
use vstd::prelude::*;

verus! {

/// The place of `key` among the first `n` of `keys`.
pub open spec fn place_of(keys: Seq<Seq<char>>, key: Seq<char>, n: int) -> Option<int>
    decreases n,
{
    if n <= 0 {
        None
    } else {
        match place_of(keys, key, n - 1) {
            Some(k) => Some(k),
            None => if keys[n - 1] == key {
                Some(n - 1)
            } else {
                None
            },
        }
    }
}

/// What is known of the paths in `keys`, for the path `key`.
pub open spec fn known<V>(keys: Seq<Seq<char>>, values: Seq<V>, key: Seq<char>) -> Option<V> {
    match place_of(keys, key, keys.len() as int) {
        Some(k) => Some(values[k]),
        None => None,
    }
}

/// A cache keyed by path, with one entry for a path at most. `insert` keeps
/// what is stored under a path, `replace` puts the new value in its place.
pub struct PathCache<V> {
    entries: Vec<(String, V)>,
}

/// The paths of `entries`.
pub open spec fn entry_paths<V>(entries: Seq<(String, V)>) -> Seq<Seq<char>> {
    Seq::new(entries.len(), |i: int| entries[i].0@)
}

/// The values of `entries`.
pub open spec fn entry_values<V>(entries: Seq<(String, V)>) -> Seq<V> {
    Seq::new(entries.len(), |i: int| entries[i].1)
}

impl<V> PathCache<V> {
    /// The paths of the entries, in the order in which they were stored.
    pub closed spec fn keys(&self) -> Seq<Seq<char>> {
        entry_paths(self.entries@)
    }

    /// The values of the entries, each at the place of its path.
    pub closed spec fn values(&self) -> Seq<V> {
        entry_values(self.entries@)
    }

    #[verifier::type_invariant]
    closed spec fn distinct(&self) -> bool {
        forall|i: int, j: int|
            0 <= i < j < self.entries@.len() ==> (#[trigger] self.entries@[i]).0@ != (
            #[trigger] self.entries@[j]).0@
    }

    /// A cache with no entry.
    pub fn new() -> (r: Self)
        ensures
            r.keys() == Seq::<Seq<char>>::empty(),
            r.values() == Seq::<V>::empty(),
    {
        let r = PathCache { entries: Vec::new() };
        assert(r.keys() =~= Seq::<Seq<char>>::empty());
        assert(r.values() =~= Seq::<V>::empty());
        r
    }

    /// The number of entries.
    pub fn len(&self) -> (n: usize)
        ensures
            n == self.keys().len(),
            n == self.values().len(),
    {
        self.entries.len()
    }

    /// Whether there is no entry.
    pub fn is_empty(&self) -> (r: bool)
        ensures
            r == (self.keys().len() == 0),
    {
        self.entries.len() == 0
    }

    /// What is stored under `path`.
    pub fn get(&self, path: &str) -> (r: Option<&V>)
        ensures
            match known(self.keys(), self.values(), path@) {
                Some(value) => r == Some(&value),
                None => r is None,
            },
    {
        let mut i: usize = 0;
        while i < self.entries.len()
            invariant
                i <= self.entries.len(),
                place_of(self.keys(), path@, i as int) is None,
            decreases self.entries.len() - i,
        {
            assert(self.keys()[i as int] == self.entries@[i as int].0@);
            if same_str(self.entries[i].0.as_str(), path) {
                proof {
                    lemma_place_stays(self.keys(), path@, i + 1, self.keys().len() as int);
                }
                assert(self.values()[i as int] == self.entries@[i as int].1);
                return Some(&self.entries[i].1);
            }
            i += 1;
        }
        None
    }

    /// Stores `value` under `path`, unless something is stored there, and
    /// says whether it did.
    pub fn insert(&mut self, path: &str, value: V) -> (stored: bool)
        ensures
            stored == (known(old(self).keys(), old(self).values(), path@) is None),
            stored ==> {
                &&& final(self).keys() == old(self).keys().push(path@)
                &&& final(self).values() == old(self).values().push(value)
            },
            !stored ==> {
                &&& final(self).keys() == old(self).keys()
                &&& final(self).values() == old(self).values()
            },
    {
        proof {
            use_type_invariant(&*self);
        }
        if self.get(path).is_some() {
            return false;
        }
        proof {
            lemma_place_is_found(self.keys(), path@, self.keys().len() as int);
        }
        let ghost keys_before = self.keys();
        let ghost values_before = self.values();
        let ghost before = self.entries@;
        assert forall|i: int| 0 <= i < before.len() implies (#[trigger] before[i]).0@ != path@ by {
            assert(keys_before[i] == before[i].0@);
        }
        let mut entries: Vec<(String, V)> = Vec::new();
        core::mem::swap(&mut self.entries, &mut entries);
        entries.push((path.to_owned(), value));
        self.entries = entries;
        assert(self.keys() =~= keys_before.push(path@));
        assert(self.values() =~= values_before.push(value));
        true
    }

    fn place(&self, path: &str) -> (r: Option<usize>)
        ensures
            match r {
                Some(k) => k < self.entries@.len() && place_of(
                    self.keys(),
                    path@,
                    self.keys().len() as int,
                ) == Some(k as int),
                None => place_of(self.keys(), path@, self.keys().len() as int) is None,
            },
    {
        let mut i: usize = 0;
        while i < self.entries.len()
            invariant
                i <= self.entries.len(),
                place_of(self.keys(), path@, i as int) is None,
            decreases self.entries.len() - i,
        {
            assert(self.keys()[i as int] == self.entries@[i as int].0@);
            if same_str(self.entries[i].0.as_str(), path) {
                proof {
                    lemma_place_stays(self.keys(), path@, i + 1, self.keys().len() as int);
                }
                return Some(i);
            }
            i += 1;
        }
        None
    }

    /// Stores `value` under `path`, in the place of what was stored there.
    pub fn replace(&mut self, path: &str, value: V)
        ensures
            match place_of(old(self).keys(), path@, old(self).keys().len() as int) {
                Some(k) => {
                    &&& final(self).keys() == old(self).keys()
                    &&& final(self).values() == old(self).values().update(k, value)
                },
                None => {
                    &&& final(self).keys() == old(self).keys().push(path@)
                    &&& final(self).values() == old(self).values().push(value)
                },
            },
            known(final(self).keys(), final(self).values(), path@) == Some(value),
    {
        proof {
            use_type_invariant(&*self);
            lemma_place_is_found(self.keys(), path@, self.keys().len() as int);
        }
        let at = self.place(path);
        let ghost keys_before = self.keys();
        let ghost values_before = self.values();
        let ghost before = self.entries@;
        let mut entries: Vec<(String, V)> = Vec::new();
        core::mem::swap(&mut self.entries, &mut entries);
        match at {
            Some(k) => {
                assert(keys_before[k as int] == before[k as int].0@);
                entries.set(k, (path.to_owned(), value));
                assert forall|i: int, j: int| 0 <= i < j < entries@.len() implies (
                #[trigger] entries@[i]).0@ != (#[trigger] entries@[j]).0@ by {
                    assert(before[i].0@ != before[j].0@);
                }
                self.entries = entries;
                assert(self.keys() =~= keys_before);
                assert(self.values() =~= values_before.update(k as int, value));
                proof {
                    lemma_place_stays(self.keys(), path@, k + 1, self.keys().len() as int);
                }
            },
            None => {
                assert forall|i: int| 0 <= i < before.len() implies (#[trigger] before[i]).0@
                    != path@ by {
                    assert(keys_before[i] == before[i].0@);
                }
                entries.push((path.to_owned(), value));
                self.entries = entries;
                assert(self.keys() =~= keys_before.push(path@));
                assert(self.values() =~= values_before.push(value));
                proof {
                    lemma_place_reads_prefix(keys_before, self.keys(), path@, before.len() as int);
                }
            },
        }
    }

    /// Forgets every entry.
    pub fn clear(&mut self)
        ensures
            final(self).keys() == Seq::<Seq<char>>::empty(),
            final(self).values() == Seq::<V>::empty(),
    {
        self.entries = Vec::new();
        assert(self.keys() =~= Seq::<Seq<char>>::empty());
        assert(self.values() =~= Seq::<V>::empty());
    }
}

/// The place of a key among the first `n` keys is the same in two lists
/// whose first `n` keys are the same.
pub proof fn lemma_place_reads_prefix(a: Seq<Seq<char>>, b: Seq<Seq<char>>, key: Seq<char>, n: int)
    requires
        0 <= n <= a.len(),
        n <= b.len(),
        forall|i: int| 0 <= i < n ==> a[i] == b[i],
    ensures
        place_of(a, key, n) == place_of(b, key, n),
    decreases n,
{
    if n > 0 {
        lemma_place_reads_prefix(a, b, key, n - 1);
    }
}

/// A place found among the first `n` keys is the place found among the
/// first `m`, for every `m` from `n` on.
pub proof fn lemma_place_stays(keys: Seq<Seq<char>>, key: Seq<char>, n: int, m: int)
    requires
        n <= m,
        place_of(keys, key, n) is Some,
    ensures
        place_of(keys, key, m) == place_of(keys, key, n),
    decreases m - n,
{
    if n < m {
        lemma_place_stays(keys, key, n, m - 1);
    }
}

/// The place found holds the key, and none is found only where no place
/// holds it.
pub proof fn lemma_place_is_found(keys: Seq<Seq<char>>, key: Seq<char>, n: int)
    requires
        0 <= n <= keys.len(),
    ensures
        match place_of(keys, key, n) {
            Some(k) => 0 <= k < n && keys[k] == key,
            None => forall|i: int| 0 <= i < n ==> keys[i] != key,
        },
    decreases n,
{
    if n > 0 {
        lemma_place_is_found(keys, key, n - 1);
    }
}

/// Whether what was read of a file at the time `stored` still holds when
/// the file was last changed at the time `current`, both in milliseconds:
/// the change is no earlier than the reading and no more than
/// `cache_duration_ms` after it.
pub open spec fn fresh(stored: u64, current: u64, cache_duration_ms: u64) -> bool {
    stored <= current && current - stored <= cache_duration_ms
}

/// A cache of parsed modules, each kept with the time at which its file was
/// last changed when it was stored.
pub struct FileCache {
    cache: PathCache<(Module, u64)>,
    cache_duration_ms: u64,
}

impl FileCache {
    /// The paths of the entries.
    pub closed spec fn keys(&self) -> Seq<Seq<char>> {
        self.cache.keys()
    }

    /// The modules of the entries with their times.
    pub closed spec fn values(&self) -> Seq<(Module, u64)> {
        self.cache.values()
    }

    /// For how long after its file was changed an entry holds, in
    /// milliseconds.
    pub closed spec fn duration(&self) -> u64 {
        self.cache_duration_ms
    }

    /// A cache with no entry.
    pub fn new(cache_duration_ms: u64) -> (r: Self)
        ensures
            r.keys() == Seq::<Seq<char>>::empty(),
            r.duration() == cache_duration_ms,
    {
        FileCache { cache: PathCache::new(), cache_duration_ms }
    }

    /// The module stored for `file_path`, where the file was last changed
    /// at `current_modified` and the entry is fresh at that time. A file
    /// whose time cannot be read has no entry.
    pub fn get(&self, file_path: &str, current_modified: Option<u64>) -> (r: Option<&Module>)
        ensures
            match (known(self.keys(), self.values(), file_path@), current_modified) {
                (Some(entry), Some(current)) => if fresh(entry.1, current, self.duration()) {
                    r is Some && *r->Some_0 == entry.0
                } else {
                    r is None
                },
                _ => r is None,
            },
    {
        match self.cache.get(file_path) {
            Some(entry) => match current_modified {
                Some(current) => {
                    if entry.1 <= current && current - entry.1 <= self.cache_duration_ms {
                        Some(&entry.0)
                    } else {
                        None
                    }
                },
                None => None,
            },
            None => None,
        }
    }

    /// Stores `ast` for `file_path` with the time `last_modified` at which
    /// the file was last changed, in the place of what was stored for the
    /// path, and says whether it did: nothing is stored for a file whose
    /// time cannot be read.
    pub fn store(&mut self, file_path: &str, ast: Module, last_modified: Option<u64>) -> (stored:
        bool)
        ensures
            final(self).duration() == old(self).duration(),
            stored == (last_modified is Some),
            stored ==> match place_of(
                old(self).keys(),
                file_path@,
                old(self).keys().len() as int,
            ) {
                Some(k) => {
                    &&& final(self).keys() == old(self).keys()
                    &&& final(self).values() == old(self).values().update(
                        k,
                        (ast, last_modified->Some_0),
                    )
                },
                None => {
                    &&& final(self).keys() == old(self).keys().push(file_path@)
                    &&& final(self).values() == old(self).values().push(
                        (ast, last_modified->Some_0),
                    )
                },
            },
            stored ==> known(final(self).keys(), final(self).values(), file_path@) == Some(
                (ast, last_modified->Some_0),
            ),
            !stored ==> {
                &&& final(self).keys() == old(self).keys()
                &&& final(self).values() == old(self).values()
            },
    {
        match last_modified {
            Some(time) => {
                self.cache.replace(file_path, (ast, time));
                true
            },
            None => false,
        }
    }

    /// Forgets every entry.
    pub fn clear(&mut self)
        ensures
            final(self).keys() == Seq::<Seq<char>>::empty(),
            final(self).duration() == old(self).duration(),
    {
        self.cache.clear();
    }

    /// The number of entries.
    pub fn len(&self) -> (n: usize)
        ensures
            n == self.keys().len(),
    {
        self.cache.len()
    }

    /// Whether there is no entry.
    pub fn is_empty(&self) -> (r: bool)
        ensures
            r == (self.keys().len() == 0),
    {
        self.cache.is_empty()
    }

    /// For how long after its file was changed an entry holds, in
    /// milliseconds.
    pub fn cache_duration_ms(&self) -> (r: u64)
        ensures
            r == self.duration(),
    {
        self.cache_duration_ms
    }
}

} // verus!
