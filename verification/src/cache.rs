//! A concurrent, invalidatable cache from filesystem path to classification.
//!
//! [`ClassMap`] is the sequential core: an association map from paths to
//! [`PathType`] values with exact `Map` contracts. [`PathCache`] shares one
//! `ClassMap` between concurrent requests behind a reader/writer lock whose
//! invariant is the map's well-formedness; a read lock is held only for the
//! lookup and a write lock only for the insert, never across the metadata
//! query itself, so a slow stat on one path never stalls the cache for
//! other paths. The query is injected as a closure, which keeps the cache
//! free of filesystem access and makes the read-through behaviour testable.

use crate::resolve::{get_url_and_filepath_from_path, spec_unresolve, MediaRoot, UrlAndFilePath};
use vstd::prelude::*;
use vstd::rwlock::RwLock;

verus! {

/// Classification of a filesystem path, derived from a metadata query at a
/// point in time; it may become stale the instant after it is read.
/// `Unknown` covers paths that exist but are neither regular files nor
/// directories, and metadata failures the platform does not explain.
#[derive(Debug, Clone, Copy, PartialEq, Eq, Structural)]
pub enum PathType {
    NotFound,
    Unknown,
    File,
    Directory,
}

/// The outcome of a filesystem metadata query, as plain data: the caller
/// performs the query and reports what the platform said.
#[derive(Debug, Clone, Copy, PartialEq, Eq, Structural)]
pub enum StatInfo {
    /// Metadata was read; the flags tell whether the path is a regular
    /// file or a directory.
    Found { is_file: bool, is_dir: bool },
    /// The platform reported that the path does not exist.
    NotFound,
    /// The query failed for a reason the platform did not explain.
    Failed,
}

/// How a metadata outcome is classified: a regular file is `File`, a
/// directory is `Directory`, a missing path is `NotFound`, and anything
/// else collapses to `Unknown`.
pub open spec fn spec_classification_of_stat(s: StatInfo) -> PathType {
    match s {
        StatInfo::Found { is_file, is_dir } => if is_file {
            PathType::File
        } else if is_dir {
            PathType::Directory
        } else {
            PathType::Unknown
        },
        StatInfo::NotFound => PathType::NotFound,
        StatInfo::Failed => PathType::Unknown,
    }
}

/// Classifies a metadata outcome. Never raises an error: every failure is
/// folded into `NotFound` or `Unknown`.
pub fn classification_of_stat(s: StatInfo) -> (t: PathType)
    ensures
        t == spec_classification_of_stat(s),
{
    match s {
        StatInfo::Found { is_file, is_dir } => {
            if is_file {
                PathType::File
            } else if is_dir {
                PathType::Directory
            } else {
                PathType::Unknown
            }
        },
        StatInfo::NotFound => PathType::NotFound,
        StatInfo::Failed => PathType::Unknown,
    }
}

/// The map denoted by a sequence of entries; a later entry for the same
/// key wins (well-formed maps never hold two entries for one key).
pub open spec fn map_of(entries: Seq<(String, PathType)>) -> Map<Seq<char>, PathType>
    decreases entries.len(),
{
    if entries.len() == 0 {
        Map::empty()
    } else {
        map_of(entries.drop_last()).insert(entries.last().0@, entries.last().1)
    }
}

proof fn lemma_map_of_contains(entries: Seq<(String, PathType)>, k: Seq<char>)
    ensures
        map_of(entries).contains_key(k) <==> exists|i: int|
            0 <= i < entries.len() && (#[trigger] entries[i].0)@ == k,
    decreases entries.len(),
{
    if entries.len() > 0 {
        lemma_map_of_contains(entries.drop_last(), k);
        if map_of(entries).contains_key(k) {
            if entries.last().0@ == k {
                assert(entries[entries.len() - 1].0@ == k);
            } else {
                let i = choose|i: int|
                    0 <= i < entries.drop_last().len() && (#[trigger] entries.drop_last()[i].0)@
                        == k;
                assert(entries[i].0@ == k);
            }
        }
        if exists|i: int| 0 <= i < entries.len() && (#[trigger] entries[i].0)@ == k {
            let i = choose|i: int| 0 <= i < entries.len() && (#[trigger] entries[i].0)@ == k;
            if i < entries.len() - 1 {
                assert(entries.drop_last()[i].0@ == k);
            }
        }
    }
}

proof fn lemma_map_of_get(entries: Seq<(String, PathType)>, i: int)
    requires
        0 <= i < entries.len(),
        forall|a: int, b: int|
            0 <= a < b < entries.len() ==> (#[trigger] entries[a].0)@ != (#[trigger] entries[b].0)@,
    ensures
        map_of(entries).contains_key(entries[i].0@),
        map_of(entries)[entries[i].0@] == entries[i].1,
    decreases entries.len(),
{
    if i == entries.len() - 1 {
        assert(entries.last() == entries[i]);
    } else {
        assert(forall|a: int, b: int|
            0 <= a < b < entries.drop_last().len() ==> (#[trigger] entries.drop_last()[a].0)@ != (
            #[trigger] entries.drop_last()[b].0)@);
        lemma_map_of_get(entries.drop_last(), i);
        assert(entries.drop_last()[i] == entries[i]);
        assert(entries[i].0@ != entries.last().0@);
    }
}

/// The sequential core of the classification cache: an association map
/// from absolute paths to their cached classification.
pub struct ClassMap {
    entries: Vec<(String, PathType)>,
}

impl ClassMap {
    /// The map this cache denotes, keyed by path characters.
    pub closed spec fn view(&self) -> Map<Seq<char>, PathType> {
        map_of(self.entries@)
    }

    /// No two entries share a key.
    pub closed spec fn wf(&self) -> bool {
        forall|a: int, b: int|
            0 <= a < b < self.entries@.len() ==> (#[trigger] self.entries@[a].0)@ != (
            #[trigger] self.entries@[b].0)@
    }

    /// An empty cache.
    pub fn new() -> (m: ClassMap)
        ensures
            m.wf(),
            m@ == Map::<Seq<char>, PathType>::empty(),
    {
        ClassMap { entries: Vec::new() }
    }

    /// Looks a path up without touching the filesystem.
    pub fn get(&self, path: &str) -> (r: Option<PathType>)
        requires
            self.wf(),
        ensures
            match r {
                Some(t) => self@.contains_key(path@) && self@[path@] == t,
                None => !self@.contains_key(path@),
            },
    {
        let n = self.entries.len();
        let mut i: usize = 0;
        while i < n
            invariant
                0 <= i <= n,
                n == self.entries@.len(),
                self.wf(),
                forall|j: int| 0 <= j < i ==> (#[trigger] self.entries@[j].0)@ != path@,
            decreases n - i,
        {
            let e = &self.entries[i];
            if crate::text::str_eq(e.0.as_str(), path) {
                proof {
                    lemma_map_of_get(self.entries@, i as int);
                }
                return Some(e.1);
            }
            i = i + 1;
        }
        proof {
            lemma_map_of_contains(self.entries@, path@);
        }
        None
    }

    /// Removes any entry for `path`; the next lookup will miss.
    pub fn remove(&mut self, path: &str)
        requires
            old(self).wf(),
        ensures
            final(self).wf(),
            final(self)@ == old(self)@.remove(path@),
            !final(self)@.contains_key(path@),
    {
        let n = self.entries.len();
        let mut i: usize = 0;
        while i < n
            invariant
                0 <= i <= n,
                n == self.entries@.len(),
                self == old(self),
                self.wf(),
                forall|j: int| 0 <= j < i ==> (#[trigger] self.entries@[j].0)@ != path@,
            decreases n - i,
        {
            let e = &self.entries[i];
            if crate::text::str_eq(e.0.as_str(), path) {
                proof {
                    lemma_map_of_remove(self.entries@, i as int);
                }
                self.entries.remove(i);
                proof {
                    lemma_map_of_contains(self.entries@, path@);
                    assert forall|q: int|
                        0 <= q < self.entries@.len() implies (#[trigger] self.entries@[q].0)@
                        != path@ by {
                        if q < i {
                            assert(self.entries@[q] == old(self).entries@[q]);
                        } else {
                            assert(self.entries@[q] == old(self).entries@[q + 1]);
                        }
                    }
                }
                return ;
            }
            i = i + 1;
        }
        proof {
            lemma_map_of_contains(self.entries@, path@);
            assert(self@ =~= old(self)@.remove(path@));
        }
    }

    /// Caches `t` for `path`, replacing any earlier entry.
    pub fn insert(&mut self, path: String, t: PathType)
        requires
            old(self).wf(),
        ensures
            final(self).wf(),
            final(self)@ == old(self)@.insert(path@, t),
    {
        self.remove(path.as_str());
        proof {
            lemma_map_of_contains(self.entries@, path@);
        }
        let ghost before = self.entries@;
        self.entries.push((path, t));
        proof {
            assert(self.entries@.drop_last() =~= before);
            assert(self@ =~= old(self)@.insert(path@, t));
        }
    }

    /// Removes every entry; used defensively after bulk mutations.
    pub fn clear(&mut self)
        ensures
            final(self).wf(),
            final(self)@ == Map::<Seq<char>, PathType>::empty(),
    {
        self.entries = Vec::new();
    }

    /// Read-through classification against this map alone: a hit returns
    /// the cached value and leaves the map unchanged, a miss invokes the
    /// injected metadata query exactly once, caches its answer and returns
    /// it.
    pub fn get_or_classify<F: FnOnce() -> PathType>(&mut self, path: &String, stat: F) -> (t:
        PathType)
        requires
            old(self).wf(),
            call_requires(stat, ()),
        ensures
            final(self).wf(),
            old(self)@.contains_key(path@) ==> t == old(self)@[path@],
            !old(self)@.contains_key(path@) ==> call_ensures(stat, (), t),
            t == classify_result(old(self)@, path@, t),
            final(self)@ == classify_map(old(self)@, path@, t),
    {
        match self.get(path.as_str()) {
            Some(t) => t,
            None => {
                let fresh = stat();
                self.insert(path.clone(), fresh);
                fresh
            },
        }
    }
}

proof fn lemma_map_of_remove(entries: Seq<(String, PathType)>, i: int)
    requires
        0 <= i < entries.len(),
        forall|a: int, b: int|
            0 <= a < b < entries.len() ==> (#[trigger] entries[a].0)@ != (#[trigger] entries[b].0)@,
    ensures
        map_of(entries.remove(i)) == map_of(entries).remove(entries[i].0@),
    decreases entries.len(),
{
    let k = entries[i].0@;
    if i == entries.len() - 1 {
        assert(entries.remove(i) =~= entries.drop_last());
        assert(forall|a: int, b: int|
            0 <= a < b < entries.drop_last().len() ==> (#[trigger] entries.drop_last()[a].0)@ != (
            #[trigger] entries.drop_last()[b].0)@);
        lemma_map_of_contains(entries.drop_last(), k);
        assert(!map_of(entries.drop_last()).contains_key(k));
        assert(map_of(entries.drop_last()) =~= map_of(entries).remove(k));
    } else {
        let shorter = entries.drop_last();
        assert(forall|a: int, b: int|
            0 <= a < b < shorter.len() ==> (#[trigger] shorter[a].0)@ != (#[trigger] shorter[b].0)@);
        lemma_map_of_remove(shorter, i);
        assert(entries.remove(i).drop_last() =~= shorter.remove(i));
        assert(entries.remove(i).last() == entries.last());
        assert(shorter[i] == entries[i]);
        assert(entries.last().0@ != k);
        assert(map_of(entries.remove(i)) == map_of(shorter.remove(i)).insert(
            entries.last().0@,
            entries.last().1,
        ));
        assert(map_of(shorter).remove(k).insert(entries.last().0@, entries.last().1) =~= map_of(
            shorter,
        ).insert(entries.last().0@, entries.last().1).remove(k));
    }
}

/// The classification a read-through lookup returns on a map `m`, given
/// that a fresh metadata query would answer `fresh`.
pub open spec fn classify_result(
    m: Map<Seq<char>, PathType>,
    k: Seq<char>,
    fresh: PathType,
) -> PathType {
    if m.contains_key(k) {
        m[k]
    } else {
        fresh
    }
}

/// The map a read-through lookup leaves behind: unchanged on a hit,
/// extended with the fresh answer on a miss.
pub open spec fn classify_map(m: Map<Seq<char>, PathType>, k: Seq<char>, fresh: PathType) -> Map<
    Seq<char>,
    PathType,
> {
    if m.contains_key(k) {
        m
    } else {
        m.insert(k, fresh)
    }
}

/// Law: classification is memoized. Once a lookup has run on map `m`, a
/// second lookup for the same path returns the same classification and
/// leaves the map unchanged, whatever a second metadata query (`f2`)
/// would have said — so no second query is ever needed.
pub proof fn lemma_classify_memoized(
    m: Map<Seq<char>, PathType>,
    k: Seq<char>,
    f1: PathType,
    f2: PathType,
)
    ensures
        classify_result(classify_map(m, k, f1), k, f2) == classify_result(m, k, f1),
        classify_map(classify_map(m, k, f1), k, f2) == classify_map(m, k, f1),
{
}

/// Law: invalidation forces a fresh query. After an entry is removed, the
/// next lookup returns exactly what the new metadata query reports, so it
/// reflects any filesystem change at that path.
pub proof fn lemma_invalidate_then_classify(
    m: Map<Seq<char>, PathType>,
    k: Seq<char>,
    f1: PathType,
    f2: PathType,
)
    ensures
        classify_result(classify_map(m, k, f1).remove(k), k, f2) == f2,
{
}

/// The reader/writer lock invariant: the shared map is well-formed.
pub open spec fn cache_pred() -> spec_fn(ClassMap) -> bool {
    |m: ClassMap| m.wf()
}

/// A classification cache shared by all concurrent requests. Locks are
/// scoped strictly to the in-memory map operations: the injected metadata
/// query in [`PathCache::get_path_details`] runs with no lock held, so
/// concurrent lookups on disjoint paths never serialize on the stat phase.
/// Two concurrent misses on one path may both query and both insert;
/// last write wins and both answers are equally fresh.
pub struct PathCache {
    inner: RwLock<ClassMap, spec_fn(ClassMap) -> bool>,
}

impl PathCache {
    /// The lock protects a well-formed map.
    pub closed spec fn wf(&self) -> bool {
        self.inner.pred() == cache_pred()
    }

    /// An empty cache. Entries live until explicitly invalidated or
    /// cleared; there is no expiry.
    pub fn new() -> (c: PathCache)
        ensures
            c.wf(),
    {
        let m = ClassMap::new();
        PathCache { inner: RwLock::new(m, Ghost(cache_pred())) }
    }

    /// Read-through classification. Takes a read lock only for the
    /// lookup; on a miss, releases it, runs the injected metadata query
    /// unlocked, then takes a write lock only to insert the answer. The
    /// per-call functional contract (hit returns the cached value, miss
    /// returns and caches the query's answer) is stated and proved on the
    /// sequential core, [`ClassMap::get_or_classify`]; under the lock,
    /// concurrent writers may interleave between the phases, so this
    /// wrapper promises only that every value it returns or caches is a
    /// cached or freshly queried classification.
    pub fn get_path_details<F: FnOnce() -> PathType>(&self, path: &String, stat: F) -> PathType
        requires
            self.wf(),
            call_requires(stat, ()),
    {
        let read_handle = self.inner.acquire_read();
        let cached = read_handle.borrow().get(path.as_str());
        read_handle.release_read();
        match cached {
            Some(t) => t,
            None => {
                let fresh = stat();
                let (mut m, write_handle) = self.inner.acquire_write();
                m.insert(path.clone(), fresh);
                write_handle.release_write(m);
                fresh
            },
        }
    }

    /// Removes a single entry, forcing the next lookup to re-stat. Must
    /// be called by any collaborator that creates, deletes, or replaces
    /// a file or directory at that path.
    pub fn invalidate(&self, path: &String)
        requires
            self.wf(),
    {
        let (mut m, write_handle) = self.inner.acquire_write();
        m.remove(path.as_str());
        write_handle.release_write(m);
    }

    /// Removes all entries; used defensively after bulk mutations or when
    /// invalidation granularity is uncertain.
    pub fn clear(&self)
        requires
            self.wf(),
    {
        let (mut m, write_handle) = self.inner.acquire_write();
        m.clear();
        write_handle.release_write(m);
    }
}

/// The children of one directory, partitioned into subdirectories and
/// files, each carrying the relative url used to build links.
#[derive(Debug, Clone)]
pub struct DirectoryChildren {
    pub directories: Vec<UrlAndFilePath>,
    pub files: Vec<UrlAndFilePath>,
}

/// The url and filepath pairs of those entries classified `want` that map
/// back under the root, in input order. Entries whose canonical path
/// escapes the root (a symlink discovered during traversal) are dropped.
pub open spec fn spec_children_of(
    root: Seq<char>,
    es: Seq<(String, PathType)>,
    want: PathType,
) -> Seq<(Seq<char>, Seq<char>)>
    decreases es.len(),
{
    if es.len() == 0 {
        Seq::empty()
    } else {
        let rest = spec_children_of(root, es.drop_last(), want);
        if es.last().1 == want {
            match spec_unresolve(root, es.last().0@) {
                Some(p) => rest.push(p),
                None => rest,
            }
        } else {
            rest
        }
    }
}

/// The url and filepath views of a sequence of resolved paths.
pub open spec fn pairs_view(v: Seq<UrlAndFilePath>) -> Seq<(Seq<char>, Seq<char>)> {
    v.map_values(|p: UrlAndFilePath| (p.url@, p.filepath@))
}

/// Partitions the classified entries of one directory into subdirectories
/// and files, mapping each canonical path back to its relative url. The
/// caller enumerates the directory and classifies each child (through the
/// cache); entries of any other classification, and entries whose path
/// does not map back under the root, are dropped.
pub fn get_directory_children(root: &MediaRoot, entries: &Vec<(String, PathType)>) -> (r:
    DirectoryChildren)
    requires
        root.wf(),
    ensures
        pairs_view(r.directories@) == spec_children_of(root@, entries@, PathType::Directory),
        pairs_view(r.files@) == spec_children_of(root@, entries@, PathType::File),
        forall|j: int|
            0 <= j < r.directories@.len() ==> (#[trigger] r.directories@[j]).wf(root@),
        forall|j: int| 0 <= j < r.files@.len() ==> (#[trigger] r.files@[j]).wf(root@),
{
    let mut directories: Vec<UrlAndFilePath> = Vec::new();
    let mut files: Vec<UrlAndFilePath> = Vec::new();
    let n = entries.len();
    let mut i: usize = 0;
    proof {
        assert(entries@.take(0) =~= Seq::<(String, PathType)>::empty());
    }
    while i < n
        invariant
            0 <= i <= n,
            n == entries@.len(),
            root.wf(),
            pairs_view(directories@) == spec_children_of(
                root@,
                entries@.take(i as int),
                PathType::Directory,
            ),
            pairs_view(files@) == spec_children_of(root@, entries@.take(i as int), PathType::File),
            forall|j: int| 0 <= j < directories@.len() ==> (#[trigger] directories@[j]).wf(root@),
            forall|j: int| 0 <= j < files@.len() ==> (#[trigger] files@[j]).wf(root@),
        decreases n - i,
    {
        let e = &entries[i];
        let is_dir = e.1 == PathType::Directory;
        let is_file = e.1 == PathType::File;
        if is_dir || is_file {
            match get_url_and_filepath_from_path(root, e.0.as_str()) {
                Some(p) => {
                    if is_dir {
                        directories.push(p);
                    } else {
                        files.push(p);
                    }
                },
                None => {},
            }
        }
        proof {
            assert(entries@.take(i as int + 1).drop_last() =~= entries@.take(i as int));
            assert(entries@.take(i as int + 1).last() == entries@[i as int]);
            assert(pairs_view(directories@) =~= spec_children_of(
                root@,
                entries@.take(i as int + 1),
                PathType::Directory,
            ));
            assert(pairs_view(files@) =~= spec_children_of(
                root@,
                entries@.take(i as int + 1),
                PathType::File,
            ));
        }
        i = i + 1;
    }
    proof {
        assert(entries@.take(n as int) =~= entries@);
    }
    DirectoryChildren { directories, files }
}

/// Read-through classification against an explicitly passed cache; see
/// [`PathCache::get_path_details`].
pub fn get_path_details<F: FnOnce() -> PathType>(
    cache: &PathCache,
    path: &String,
    stat: F,
) -> PathType
    requires
        cache.wf(),
        call_requires(stat, ()),
{
    cache.get_path_details(path, stat)
}

} // verus!
