//! The response cache: API objects kept by key with the ETag they came with,
//! so that a later request can be answered "not modified".
use vstd::prelude::*;

use std::io::{Read, Write};

use flate2::read::GzDecoder;
use flate2::write::GzEncoder;
use flate2::Compression;

use crate::github::types::{GitTree, Repository};
use crate::text::str_eq;

verus! {

/// An object the response cache keeps: it can be copied, and the copy holds the same
/// values.
pub trait CachedObject: Sized {
    /// `other` holds the same values as this object.
    spec fn same_value(&self, other: &Self) -> bool;

    /// A copy holding the same values.
    fn copy_object(&self) -> (res: Self)
        ensures
            res.same_value(self),
    ;
}

impl CachedObject for Repository {
    open spec fn same_value(&self, other: &Self) -> bool {
        self.same_as(*other)
    }

    fn copy_object(&self) -> (res: Self) {
        self.deep_copy()
    }
}

impl CachedObject for GitTree {
    open spec fn same_value(&self, other: &Self) -> bool {
        self.same_as(*other)
    }

    fn copy_object(&self) -> (res: Self) {
        self.deep_copy()
    }
}

/// A cached API object and the ETag it was served with.
#[derive(Debug, Clone)]
pub struct CacheEntry<T> {
    pub data: T,
    pub etag: Option<String>,
}

/// Cache entries by key; each key appears once. The entries are kept in a vector rather
/// than a `HashMap`: vstd models a `HashMap` only for key types it knows to hash
/// consistently (integers, `bool`), which `String` is not, so a map keyed by text could be
/// given no contract.
#[derive(Debug, Clone)]
pub struct CacheMap<T> {
    pub entries: Vec<(String, CacheEntry<T>)>,
}

/// No key appears twice.
pub open spec fn distinct_keys<T>(es: Seq<(String, CacheEntry<T>)>) -> bool {
    forall|i: int, j: int| 0 <= i < es.len() && 0 <= j < es.len() && i != j ==> es[i].0@ != es[j].0@
}

/// The entries as a map from key to entry.
pub open spec fn map_of<T>(es: Seq<(String, CacheEntry<T>)>) -> Map<Seq<char>, CacheEntry<T>>
    decreases es.len(),
{
    if es.len() == 0 {
        Map::empty()
    } else {
        map_of(es.drop_last()).insert(es.last().0@, es.last().1)
    }
}

proof fn lemma_map_of_absent<T>(es: Seq<(String, CacheEntry<T>)>, k: Seq<char>)
    requires
        forall|i: int| 0 <= i < es.len() ==> es[i].0@ != k,
    ensures
        !map_of(es).contains_key(k),
    decreases es.len(),
{
    if es.len() > 0 {
        lemma_map_of_absent(es.drop_last(), k);
    }
}

proof fn lemma_map_of_index<T>(es: Seq<(String, CacheEntry<T>)>, i: int)
    requires
        distinct_keys(es),
        0 <= i < es.len(),
    ensures
        map_of(es).contains_key(es[i].0@),
        map_of(es)[es[i].0@] == es[i].1,
    decreases es.len(),
{
    if i < es.len() - 1 {
        lemma_map_of_index(es.drop_last(), i);
    }
}

proof fn lemma_map_of_update<T>(es: Seq<(String, CacheEntry<T>)>, i: int, key: String, e: CacheEntry<T>)
    requires
        distinct_keys(es),
        0 <= i < es.len(),
        es[i].0@ == key@,
    ensures
        map_of(es.update(i, (key, e))) == map_of(es).insert(key@, e),
    decreases es.len(),
{
    let u = es.update(i, (key, e));
    if i == es.len() - 1 {
        assert(u.drop_last() =~= es.drop_last());
        assert(map_of(u) =~= map_of(es).insert(key@, e));
    } else {
        lemma_map_of_update(es.drop_last(), i, key, e);
        assert(u.drop_last() =~= es.drop_last().update(i, (key, e)));
        assert(map_of(u) =~= map_of(es).insert(key@, e));
    }
}

impl<T> CacheMap<T> {
    /// The cache as a map from key to entry.
    pub open spec fn view(&self) -> Map<Seq<char>, CacheEntry<T>> {
        map_of(self.entries@)
    }

    /// Each key appears once.
    pub open spec fn wf(&self) -> bool {
        distinct_keys(self.entries@)
    }

    /// An empty cache.
    pub fn new() -> (res: Self)
        ensures
            res.wf(),
            res.view() == Map::<Seq<char>, CacheEntry<T>>::empty(),
    {
        let r = CacheMap { entries: Vec::new() };
        assert(r.view() =~= Map::<Seq<char>, CacheEntry<T>>::empty());
        r
    }

    /// The number of cached objects.
    pub fn len(&self) -> (res: usize)
        ensures
            res == self.entries@.len(),
    {
        self.entries.len()
    }

    fn index_of(&self, key: &str) -> (res: Option<usize>)
        ensures
            res matches Some(i) ==> i < self.entries@.len() && self.entries@[i as int].0@ == key@,
            res is None ==> forall|i: int| 0 <= i < self.entries@.len() ==> self.entries@[i].0@ != key@,
    {
        let mut i: usize = 0;
        while i < self.entries.len()
            invariant
                i <= self.entries@.len(),
                forall|k: int| 0 <= k < i ==> self.entries@[k].0@ != key@,
            decreases self.entries@.len() - i,
        {
            if str_eq(self.entries[i].0.as_str(), key) {
                return Some(i);
            }
            i = i + 1;
        }
        None
    }

    /// The entry cached under `key`.
    pub fn get(&self, key: &str) -> (res: Option<&CacheEntry<T>>)
        requires
            self.wf(),
        ensures
            res matches Some(e) ==> self.view().contains_key(key@) && *e == self.view()[key@],
            res is None ==> !self.view().contains_key(key@),
    {
        match self.index_of(key) {
            Some(i) => {
                proof {
                    lemma_map_of_index(self.entries@, i as int);
                }
                Some(&self.entries[i].1)
            },
            None => {
                proof {
                    lemma_map_of_absent(self.entries@, key@);
                }
                None
            },
        }
    }

    /// Caches `entry` under `key`, replacing what was cached there.
    pub fn insert(&mut self, key: String, entry: CacheEntry<T>)
        requires
            old(self).wf(),
        ensures
            final(self).wf(),
            final(self).view() == old(self).view().insert(key@, entry),
    {
        match self.index_of(key.as_str()) {
            Some(i) => {
                proof {
                    lemma_map_of_update(self.entries@, i as int, key, entry);
                }
                let ghost before = self.entries@;
                self.entries.set(i, (key, entry));
                assert(self.entries@ == before.update(i as int, (key, entry)));
                assert(distinct_keys(self.entries@)) by {
                    assert forall|a: int, b: int|
                        0 <= a < self.entries@.len() && 0 <= b < self.entries@.len() && a != b implies self.entries@[a].0@
                        != self.entries@[b].0@ by {
                        if a != i && b != i {
                            assert(before[a].0@ != before[b].0@);
                        } else if a == i {
                            assert(before[a].0@ != before[b].0@);
                        } else {
                            assert(before[a].0@ != before[b].0@);
                        }
                    }
                }
            },
            None => {
                let ghost before = self.entries@;
                self.entries.push((key, entry));
                assert(self.entries@.drop_last() =~= before);
                assert(distinct_keys(self.entries@)) by {
                    assert forall|a: int, b: int|
                        0 <= a < self.entries@.len() && 0 <= b < self.entries@.len() && a != b implies self.entries@[a].0@
                        != self.entries@[b].0@ by {
                        if a < before.len() && b < before.len() {
                            assert(before[a].0@ != before[b].0@);
                        }
                    }
                }
            },
        }
    }
}

impl<T: Clone> CacheMap<T> {
    /// A copy of the cache: the same keys in the same order, the same ETags, and a clone
    /// of each cached object.
    pub fn copy(&self) -> (res: Self)
        ensures
            res.entries@.len() == self.entries@.len(),
            forall|i: int|
                0 <= i < self.entries@.len() ==> {
                    &&& (#[trigger] res.entries@[i]).0@ == self.entries@[i].0@
                    &&& res.entries@[i].1.etag == self.entries@[i].1.etag
                    &&& cloned(self.entries@[i].1.data, res.entries@[i].1.data)
                },
            self.wf() ==> res.wf(),
    {
        let mut out: Vec<(String, CacheEntry<T>)> = Vec::new();
        let mut i: usize = 0;
        while i < self.entries.len()
            invariant
                i <= self.entries@.len(),
                out@.len() == i,
                forall|k: int|
                    0 <= k < i ==> {
                        &&& (#[trigger] out@[k]).0@ == self.entries@[k].0@
                        &&& out@[k].1.etag == self.entries@[k].1.etag
                        &&& cloned(self.entries@[k].1.data, out@[k].1.data)
                    },
            decreases self.entries@.len() - i,
        {
            let e = &self.entries[i];
            let etag = match &e.1.etag {
                Some(t) => Some(t.clone()),
                None => None,
            };
            let data = e.1.data.clone();
            out.push((e.0.clone(), CacheEntry { data, etag }));
            i = i + 1;
        }
        let r = CacheMap { entries: out };
        assert(self.wf() ==> r.wf()) by {
            if self.wf() {
                assert forall|a: int, b: int|
                    0 <= a < r.entries@.len() && 0 <= b < r.entries@.len() && a != b implies r.entries@[a].0@
                    != r.entries@[b].0@ by {
                    assert(self.entries@[a].0@ != self.entries@[b].0@);
                }
            }
        }
        r
    }
}

impl CacheMap<Repository> {
    /// A copy of the cache: the same keys in the same order, the same ETags, and a copy
    /// of each cached repository holding the same values.
    pub fn copy_repositories(&self) -> (res: Self)
        ensures
            res.entries@.len() == self.entries@.len(),
            forall|i: int|
                0 <= i < self.entries@.len() ==> {
                    &&& (#[trigger] res.entries@[i]).0@ == self.entries@[i].0@
                    &&& res.entries@[i].1.etag == self.entries@[i].1.etag
                    &&& res.entries@[i].1.data.same_as(self.entries@[i].1.data)
                },
            self.wf() ==> res.wf(),
    {
        let mut out: Vec<(String, CacheEntry<Repository>)> = Vec::new();
        let mut i: usize = 0;
        while i < self.entries.len()
            invariant
                i <= self.entries@.len(),
                out@.len() == i,
                forall|k: int|
                    0 <= k < i ==> {
                        &&& (#[trigger] out@[k]).0@ == self.entries@[k].0@
                        &&& out@[k].1.etag == self.entries@[k].1.etag
                        &&& out@[k].1.data.same_as(self.entries@[k].1.data)
                    },
            decreases self.entries@.len() - i,
        {
            let e = &self.entries[i];
            let etag = match &e.1.etag {
                Some(t) => Some(t.clone()),
                None => None,
            };
            let data = e.1.data.deep_copy();
            out.push((e.0.clone(), CacheEntry { data, etag }));
            i = i + 1;
        }
        let r = CacheMap { entries: out };
        assert(self.wf() ==> r.wf()) by {
            if self.wf() {
                assert forall|a: int, b: int|
                    0 <= a < r.entries@.len() && 0 <= b < r.entries@.len() && a != b implies r.entries@[a].0@
                    != r.entries@[b].0@ by {
                    assert(self.entries@[a].0@ != self.entries@[b].0@);
                }
            }
        }
        r
    }
}

impl CacheMap<GitTree> {
    /// A copy of the cache: the same keys in the same order, the same ETags, and a copy
    /// of each cached tree holding the same values.
    pub fn copy_trees(&self) -> (res: Self)
        ensures
            res.entries@.len() == self.entries@.len(),
            forall|i: int|
                0 <= i < self.entries@.len() ==> {
                    &&& (#[trigger] res.entries@[i]).0@ == self.entries@[i].0@
                    &&& res.entries@[i].1.etag == self.entries@[i].1.etag
                    &&& res.entries@[i].1.data.same_as(self.entries@[i].1.data)
                },
            self.wf() ==> res.wf(),
    {
        let mut out: Vec<(String, CacheEntry<GitTree>)> = Vec::new();
        let mut i: usize = 0;
        while i < self.entries.len()
            invariant
                i <= self.entries@.len(),
                out@.len() == i,
                forall|k: int|
                    0 <= k < i ==> {
                        &&& (#[trigger] out@[k]).0@ == self.entries@[k].0@
                        &&& out@[k].1.etag == self.entries@[k].1.etag
                        &&& out@[k].1.data.same_as(self.entries@[k].1.data)
                    },
            decreases self.entries@.len() - i,
        {
            let e = &self.entries[i];
            let etag = match &e.1.etag {
                Some(t) => Some(t.clone()),
                None => None,
            };
            let data = e.1.data.deep_copy();
            out.push((e.0.clone(), CacheEntry { data, etag }));
            i = i + 1;
        }
        let r = CacheMap { entries: out };
        assert(self.wf() ==> r.wf()) by {
            if self.wf() {
                assert forall|a: int, b: int|
                    0 <= a < r.entries@.len() && 0 <= b < r.entries@.len() && a != b implies r.entries@[a].0@
                    != r.entries@[b].0@ by {
                    assert(self.entries@[a].0@ != self.entries@[b].0@);
                }
            }
        }
        r
    }
}

/// `copy` holds the entries of `orig` in the same order: the same keys and ETags, and
/// repositories holding the same values.
pub open spec fn repositories_copied(copy: CacheMap<Repository>, orig: CacheMap<Repository>) -> bool {
    &&& copy.entries@.len() == orig.entries@.len()
    &&& forall|i: int|
        0 <= i < orig.entries@.len() ==> {
            &&& (#[trigger] copy.entries@[i]).0@ == orig.entries@[i].0@
            &&& copy.entries@[i].1.etag == orig.entries@[i].1.etag
            &&& copy.entries@[i].1.data.same_as(orig.entries@[i].1.data)
        }
}

/// `copy` holds the entries of `orig` in the same order: the same keys and ETags, and
/// trees holding the same values.
pub open spec fn trees_copied(copy: CacheMap<GitTree>, orig: CacheMap<GitTree>) -> bool {
    &&& copy.entries@.len() == orig.entries@.len()
    &&& forall|i: int|
        0 <= i < orig.entries@.len() ==> {
            &&& (#[trigger] copy.entries@[i]).0@ == orig.entries@[i].0@
            &&& copy.entries@[i].1.etag == orig.entries@[i].1.etag
            &&& copy.entries@[i].1.data.same_as(orig.entries@[i].1.data)
        }
}

/// Reading a key right after caching an entry under it gives that entry, and caching
/// leaves every other key as it was.
pub proof fn lemma_cache_read_after_write<T>(
    before: CacheMap<T>,
    after: CacheMap<T>,
    key: Seq<char>,
    entry: CacheEntry<T>,
    other: Seq<char>,
)
    requires
        after.view() == before.view().insert(key, entry),
    ensures
        after.view().contains_key(key),
        after.view()[key] == entry,
        other != key ==> (after.view().contains_key(other) == before.view().contains_key(other)),
        other != key && before.view().contains_key(other) ==> after.view()[other] == before.view()[other],
{
}

/// The cached repositories and git trees, as saved between runs.
#[derive(Debug)]
pub struct DataCache {
    pub repositories: CacheMap<Repository>,
    pub trees: CacheMap<GitTree>,
}

impl DataCache {
    /// Both parts have each key once.
    pub open spec fn wf(&self) -> bool {
        self.repositories.wf() && self.trees.wf()
    }

    /// An empty cache.
    pub fn empty() -> (res: Self)
        ensures
            res.wf(),
            res.repositories.view() == Map::<Seq<char>, CacheEntry<Repository>>::empty(),
            res.trees.view() == Map::<Seq<char>, CacheEntry<GitTree>>::empty(),
    {
        DataCache { repositories: CacheMap::new(), trees: CacheMap::new() }
    }

    /// The number of cached objects of both kinds.
    pub open spec fn count(&self) -> nat {
        self.repositories.entries@.len() + self.trees.entries@.len()
    }

    /// Whether saving is worth it: a cache with nothing in it is not written.
    pub fn should_save(&self) -> (res: bool)
        ensures
            res == (self.count() > 0),
    {
        self.repositories.len() > 0 || self.trees.len() > 0
    }
}

/// The bytes a gzip stream decodes to with `flate2::read::GzDecoder`; `None` when the
/// stream is not valid gzip.
pub uninterp spec fn gz_decoded(bytes: Seq<u8>) -> Option<Seq<u8>>;

/// The gzip stream `flate2::write::GzEncoder` writes for some bytes at the default level.
pub uninterp spec fn gz_encoded(bytes: Seq<u8>) -> Seq<u8>;

/// Decodes a gzip stream with `flate2::read::GzDecoder` (`read_to_end`). The contract
/// claims only that the outcome is a function of the bytes, named [`gz_decoded`].
#[verifier::external_body]
fn gunzip(bytes: &[u8]) -> (res: Option<Vec<u8>>)
    ensures
        match res {
            Some(v) => gz_decoded(bytes@) == Some(v@),
            None => gz_decoded(bytes@) is None,
        },
{
    let mut out = Vec::new();
    GzDecoder::new(bytes).read_to_end(&mut out).ok()?;
    Some(out)
}

/// Compresses bytes into a gzip stream with `flate2::write::GzEncoder` at
/// `Compression::default()` (writing into memory cannot fail). The contract claims that the
/// stream is a function of the bytes, named [`gz_encoded`], and that it decodes back to them.
#[verifier::external_body]
fn gzip(bytes: &[u8]) -> (res: Vec<u8>)
    ensures
        res@ == gz_encoded(bytes@),
        gz_decoded(res@) == Some(bytes@),
{
    let mut encoder = GzEncoder::new(Vec::new(), Compression::default());
    encoder.write_all(bytes).unwrap();
    encoder.finish().unwrap()
}

/// The serialized cache held by a cache file: its contents decoded from gzip, or `None`
/// when they are not a gzip stream (the cache then starts empty).
pub fn cache_file_payload(contents: &[u8]) -> (res: Option<Vec<u8>>)
    ensures
        match res {
            Some(v) => gz_decoded(contents@) == Some(v@),
            None => gz_decoded(contents@) is None,
        },
{
    gunzip(contents)
}

/// The contents of a cache file for a serialized cache: the bytes compressed with gzip.
/// Reading them back with [`cache_file_payload`] gives the serialized cache again.
pub fn cache_file_contents(payload: &[u8]) -> (res: Vec<u8>)
    ensures
        res@ == gz_encoded(payload@),
        gz_decoded(res@) == Some(payload@),
{
    gzip(payload)
}

} // verus!
