//! A least-recently-used cache of file previews, kept in an `lru::LruCache`.
use vstd::prelude::*;
use crate::preview::PreviewContent;
use lru::LruCache;
use std::collections::hash_map::RandomState;

verus! {

#[verifier::external_type_specification]
#[verifier::external_body]
#[verifier::reject_recursive_types(K)]
#[verifier::reject_recursive_types(V)]
#[verifier::reject_recursive_types(S)]
pub struct ExLruCache<K, V, S>(LruCache<K, V, S>);

/// The cache's map: paths to previews, hashed with std's `RandomState`.
pub type Lru = LruCache<String, PreviewContent, RandomState>;

/// A cached preview as plain values: its text, whether it is binary, and
/// whether it was cut at the size limit.
pub struct ContentV {
    pub text: Seq<char>,
    pub is_binary: bool,
    pub truncated: bool,
}

pub open spec fn content_v(c: PreviewContent) -> ContentV {
    ContentV { text: c.text@, is_binary: c.is_binary, truncated: c.truncated }
}

/// The entries of a cache, most recently used first: each path with its
/// preview.
pub uninterp spec fn lru_entries(c: Lru) -> Seq<(Seq<char>, ContentV)>;

/// The number of entries the cache was made to hold.
pub uninterp spec fn lru_cap(c: Lru) -> nat;

/// Where the entry for `k` is in `es`, if anywhere.
pub open spec fn find_key(es: Seq<(Seq<char>, ContentV)>, k: Seq<char>) -> Option<nat>
    decreases es.len(),
{
    if es.len() == 0 {
        None
    } else if es.last().0 == k {
        Some((es.len() - 1) as nat)
    } else {
        find_key(es.drop_last(), k)
    }
}

/// The entries after `k` is used: its entry moves to the front.
pub open spec fn touched(es: Seq<(Seq<char>, ContentV)>, k: Seq<char>) -> Seq<(Seq<char>, ContentV)> {
    match find_key(es, k) {
        Some(i) => seq![es[i as int]] + es.remove(i as int),
        None => es,
    }
}

/// The entries after `k` is put with `v`: an entry for `k` is replaced,
/// else when the cache is full the least recently used entry (the last)
/// leaves; the new entry comes first.
pub open spec fn put_entries(es: Seq<(Seq<char>, ContentV)>, cap: nat, k: Seq<char>, v: ContentV) -> Seq<
    (Seq<char>, ContentV),
> {
    match find_key(es, k) {
        Some(i) => seq![(k, v)] + es.remove(i as int),
        None => if es.len() >= cap {
            seq![(k, v)] + es.drop_last()
        } else {
            seq![(k, v)] + es
        },
    }
}

/// The entries after the entry for `k` is removed.
pub open spec fn popped(es: Seq<(Seq<char>, ContentV)>, k: Seq<char>) -> Seq<(Seq<char>, ContentV)> {
    match find_key(es, k) {
        Some(i) => es.remove(i as int),
        None => es,
    }
}

/// Calls `LruCache::with_hasher` with `cap` (as a `NonZeroUsize`) and a new
/// `RandomState`: an empty cache that holds at most `cap` entries.
#[verifier::external_body]
fn lru_new(cap: usize) -> (r: Lru)
    requires
        cap > 0,
    ensures
        lru_entries(r).len() == 0,
        lru_cap(r) == cap,
{
    LruCache::with_hasher(std::num::NonZeroUsize::new(cap).unwrap(), RandomState::new())
}

/// Calls `LruCache::get`: the (cloned) preview of `k` when it is cached;
/// the entry becomes the most recently used.
#[verifier::external_body]
fn lru_get(c: &mut Lru, k: &String) -> (r: Option<PreviewContent>)
    ensures
        match find_key(lru_entries(*old(c)), k@) {
            Some(i) => r matches Some(v) && content_v(v) == lru_entries(*old(c))[i as int].1,
            None => r is None,
        },
        lru_entries(*final(c)) == touched(lru_entries(*old(c)), k@),
        lru_cap(*final(c)) == lru_cap(*old(c)),
{
    c.get(k).cloned()
}

/// Calls `LruCache::put`: `k` now maps to `v`, as the most recently used
/// entry; when `k` was new and the cache full, the least recently used
/// entry was dropped.
#[verifier::external_body]
fn lru_put(c: &mut Lru, k: String, v: PreviewContent)
    ensures
        lru_entries(*final(c)) == put_entries(lru_entries(*old(c)), lru_cap(*old(c)), k@, content_v(v)),
        lru_cap(*final(c)) == lru_cap(*old(c)),
{
    c.put(k, v);
}

/// Calls `LruCache::pop`: removes the entry for `k`, if any.
#[verifier::external_body]
fn lru_pop(c: &mut Lru, k: &String)
    ensures
        lru_entries(*final(c)) == popped(lru_entries(*old(c)), k@),
        lru_cap(*final(c)) == lru_cap(*old(c)),
{
    c.pop(k);
}

/// Calls `LruCache::clear`: removes every entry.
#[verifier::external_body]
fn lru_clear(c: &mut Lru)
    ensures
        lru_entries(*final(c)).len() == 0,
        lru_cap(*final(c)) == lru_cap(*old(c)),
{
    c.clear();
}

/// Cached previews by path, at most a fixed number of them; when full, the
/// least recently used one makes room.
pub struct PreviewCache {
    cache: Lru,
}

/// No path occurs twice among the entries.
pub open spec fn keys_distinct(es: Seq<(Seq<char>, ContentV)>) -> bool {
    forall|i: int, j: int| 0 <= i < j < es.len() ==> es[i].0 != es[j].0
}

impl PreviewCache {
    /// The cached previews, most recently used first.
    pub closed spec fn entries(&self) -> Seq<(Seq<char>, ContentV)> {
        lru_entries(self.cache)
    }

    /// How many previews the cache holds at most.
    pub closed spec fn capacity(&self) -> nat {
        lru_cap(self.cache)
    }

    /// The cache holds at most `capacity` previews, at most one per path.
    pub open spec fn well_formed(&self) -> bool {
        &&& 0 < self.capacity()
        &&& self.entries().len() <= self.capacity()
        &&& keys_distinct(self.entries())
    }

    /// An empty cache for `capacity` previews (256 when `capacity` is 0).
    pub fn new(capacity: usize) -> (r: PreviewCache)
        ensures
            r.well_formed(),
            r.entries().len() == 0,
            r.capacity() == if capacity == 0 {
                256
            } else {
                capacity as nat
            },
    {
        let cap = if capacity == 0 {
            256
        } else {
            capacity
        };
        PreviewCache { cache: lru_new(cap) }
    }

    /// The cached preview of `path`, if any; it becomes the most recently
    /// used.
    pub fn get(&mut self, path: &String) -> (r: Option<PreviewContent>)
        requires
            old(self).well_formed(),
        ensures
            final(self).well_formed(),
            match find_key(old(self).entries(), path@) {
                Some(i) => r matches Some(v) && content_v(v) == old(self).entries()[i as int].1,
                None => r is None,
            },
            final(self).entries() == touched(old(self).entries(), path@),
            final(self).capacity() == old(self).capacity(),
    {
        let r = lru_get(&mut self.cache, path);
        proof {
            lemma_touched_keeps(old(self).entries(), path@);
        }
        r
    }

    /// Caches `content` as the preview of `path`.
    pub fn insert(&mut self, path: String, content: PreviewContent)
        requires
            old(self).well_formed(),
        ensures
            final(self).well_formed(),
            final(self).entries() == put_entries(
                old(self).entries(),
                old(self).capacity(),
                path@,
                content_v(content),
            ),
            final(self).capacity() == old(self).capacity(),
    {
        let ghost k = path@;
        let ghost v = content_v(content);
        lru_put(&mut self.cache, path, content);
        proof {
            lemma_put_keeps(old(self).entries(), old(self).capacity(), k, v);
        }
    }

    /// Forgets the preview of `path`.
    pub fn invalidate(&mut self, path: &String)
        requires
            old(self).well_formed(),
        ensures
            final(self).well_formed(),
            final(self).entries() == popped(old(self).entries(), path@),
            final(self).capacity() == old(self).capacity(),
    {
        lru_pop(&mut self.cache, path);
        proof {
            lemma_popped_keeps(old(self).entries(), path@);
        }
    }

    /// Forgets every preview.
    pub fn clear(&mut self)
        requires
            old(self).well_formed(),
        ensures
            final(self).well_formed(),
            final(self).entries().len() == 0,
            final(self).capacity() == old(self).capacity(),
    {
        lru_clear(&mut self.cache);
    }
}

// ---------------------------------------------------------------------------
// Lemmas and laws
// ---------------------------------------------------------------------------

proof fn lemma_find_key(es: Seq<(Seq<char>, ContentV)>, k: Seq<char>)
    ensures
        find_key(es, k) matches Some(i) ==> i < es.len() && es[i as int].0 == k,
        find_key(es, k) is None ==> forall|j: int| 0 <= j < es.len() ==> es[j].0 != k,
    decreases es.len(),
{
    if es.len() > 0 && es.last().0 != k {
        lemma_find_key(es.drop_last(), k);
        assert forall|j: int| 0 <= j < es.len() - 1 implies es[j] == es.drop_last()[j] by {}
    }
}

proof fn lemma_touched_keeps(es: Seq<(Seq<char>, ContentV)>, k: Seq<char>)
    requires
        keys_distinct(es),
    ensures
        keys_distinct(touched(es, k)),
        touched(es, k).len() == es.len(),
{
    lemma_find_key(es, k);
    match find_key(es, k) {
        Some(i) => {
            let r = touched(es, k);
            let rest = es.remove(i as int);
            assert forall|a: int, b: int| 0 <= a < b < r.len() implies r[a].0 != r[b].0 by {
                let ia = if a == 0 { i as int } else if a - 1 < i { a - 1 } else { a };
                let ib = if b - 1 < i { b - 1 } else { b };
                assert(r[a] == es[ia]);
                assert(r[b] == es[ib]);
            }
        },
        None => {},
    }
}

proof fn lemma_put_keeps(es: Seq<(Seq<char>, ContentV)>, cap: nat, k: Seq<char>, v: ContentV)
    requires
        keys_distinct(es),
        0 < cap,
        es.len() <= cap,
    ensures
        keys_distinct(put_entries(es, cap, k, v)),
        put_entries(es, cap, k, v).len() <= cap,
{
    lemma_find_key(es, k);
    let r = put_entries(es, cap, k, v);
    match find_key(es, k) {
        Some(i) => {
            assert forall|a: int, b: int| 0 <= a < b < r.len() implies r[a].0 != r[b].0 by {
                let ib = if b - 1 < i { b - 1 } else { b };
                assert(r[b] == es[ib]);
                if a > 0 {
                    let ia = if a - 1 < i { a - 1 } else { a };
                    assert(r[a] == es[ia]);
                }
            }
        },
        None => {
            let rest = if es.len() >= cap { es.drop_last() } else { es };
            assert forall|a: int, b: int| 0 <= a < b < r.len() implies r[a].0 != r[b].0 by {
                assert(r[b] == rest[b - 1]);
                assert(rest[b - 1] == es[b - 1]);
                if a > 0 {
                    assert(r[a] == es[a - 1]);
                }
            }
        },
    }
}

proof fn lemma_popped_keeps(es: Seq<(Seq<char>, ContentV)>, k: Seq<char>)
    requires
        keys_distinct(es),
    ensures
        keys_distinct(popped(es, k)),
        popped(es, k).len() <= es.len(),
{
    lemma_find_key(es, k);
    match find_key(es, k) {
        Some(i) => {
            let r = popped(es, k);
            assert forall|a: int, b: int| 0 <= a < b < r.len() implies r[a].0 != r[b].0 by {
                let ia = if a < i { a } else { a + 1 };
                let ib = if b < i { b } else { b + 1 };
                assert(r[a] == es[ia]);
                assert(r[b] == es[ib]);
            }
        },
        None => {},
    }
}

/// A preview just cached is found again: after `insert(path, content)`,
/// the cache's entry for `path` is `content`, and it is the most recently
/// used.
pub proof fn law_get_after_insert(es: Seq<(Seq<char>, ContentV)>, cap: nat, k: Seq<char>, v: ContentV)
    requires
        keys_distinct(es),
        0 < cap,
        es.len() <= cap,
    ensures
        find_key(put_entries(es, cap, k, v), k) == Some(0nat),
        put_entries(es, cap, k, v)[0] == (k, v),
{
    lemma_put_keeps(es, cap, k, v);
    let r = put_entries(es, cap, k, v);
    lemma_find_key(r, k);
    lemma_find_key_unique(r, k, 0);
}

proof fn lemma_find_key_unique(es: Seq<(Seq<char>, ContentV)>, k: Seq<char>, w: int)
    requires
        keys_distinct(es),
        0 <= w < es.len(),
        es[w].0 == k,
    ensures
        find_key(es, k) == Some(w as nat),
    decreases es.len(),
{
    if es.last().0 != k {
        assert(w < es.len() - 1);
        assert(es.drop_last()[w] == es[w]);
        lemma_find_key_unique(es.drop_last(), k, w);
    }
}

/// A forgotten preview is gone: after `invalidate(path)` no entry is for
/// `path`, and the other entries stay in their order.
pub proof fn law_invalidate_forgets(es: Seq<(Seq<char>, ContentV)>, k: Seq<char>)
    requires
        keys_distinct(es),
    ensures
        find_key(popped(es, k), k) is None,
        forall|j: int| 0 <= j < popped(es, k).len() ==> popped(es, k)[j].0 != k,
{
    lemma_find_key(es, k);
    lemma_popped_keeps(es, k);
    lemma_find_key(popped(es, k), k);
    let r = popped(es, k);
    match find_key(es, k) {
        Some(i) => {
            assert forall|j: int| 0 <= j < r.len() implies r[j].0 != k by {
                let ij = if j < i { j } else { j + 1 };
                assert(r[j] == es[ij]);
            }
        },
        None => {},
    }
}

} // verus!
