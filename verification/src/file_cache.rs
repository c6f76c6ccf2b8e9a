//! A cache of file contents that hands back what it read before while the
//! entry is younger than the cache's lifetime and the file has not changed
//! since. Times are nanoseconds since the Unix epoch; the caller reads the
//! clock and the file's modification time.

use vstd::prelude::*;
use crate::text::{str_eq, string_of};

verus! {

/// A cached file: its contents, its modification time when it was read, and
/// when it was read.
pub struct CachedFile {
    pub content: String,
    pub last_modified: i128,
    pub cached_at: i128,
}

/// The cached files, each path at most once, and how long an entry stays
/// valid (nanoseconds).
pub struct FileCache {
    entries: Vec<(String, CachedFile)>,
    cache_duration: u128,
}

/// The age given to an entry cached after `now` (the clock went back): the
/// largest duration of whole seconds a `u64` holds.
pub open spec fn unknown_age() -> int {
    18446744073709551615int * 1000000000int
}

/// How old an entry cached at `cached_at` is at `now`.
pub open spec fn age(now: int, cached_at: int) -> int {
    if now >= cached_at {
        now - cached_at
    } else {
        unknown_age()
    }
}

/// An entry viewed as (path, (contents, modified, cached at)).
pub open spec fn entry_view(e: (String, CachedFile)) -> (Seq<char>, (Seq<char>, int, int)) {
    (e.0@, (e.1.content@, e.1.last_modified as int, e.1.cached_at as int))
}

/// The entries of `s` that are younger than `duration` at `now`, in order.
pub open spec fn retained(s: Seq<(Seq<char>, (Seq<char>, int, int))>, now: int, duration: int) -> Seq<(Seq<char>, (Seq<char>, int, int))>
    decreases s.len(),
{
    if s.len() == 0 {
        s
    } else {
        let prev = retained(s.drop_last(), now, duration);
        if age(now, s.last().1.2) < duration {
            prev.push(s.last())
        } else {
            prev
        }
    }
}

/// No path occurs twice.
pub open spec fn distinct_paths(s: Seq<(Seq<char>, (Seq<char>, int, int))>) -> bool {
    forall|i: int, j: int| 0 <= i < j < s.len() ==> (#[trigger] s[i]).0 != (#[trigger] s[j]).0
}

/// The entry for `path`, if any.
pub open spec fn lookup(s: Seq<(Seq<char>, (Seq<char>, int, int))>, path: Seq<char>) -> Option<(Seq<char>, int, int)>
    decreases s.len(),
{
    if s.len() == 0 {
        None
    } else if s.last().0 == path {
        Some(s.last().1)
    } else {
        lookup(s.drop_last(), path)
    }
}

/// The entries without the one for `path`.
pub open spec fn without(s: Seq<(Seq<char>, (Seq<char>, int, int))>, path: Seq<char>) -> Seq<(Seq<char>, (Seq<char>, int, int))>
    decreases s.len(),
{
    if s.len() == 0 {
        s
    } else {
        let prev = without(s.drop_last(), path);
        if s.last().0 == path {
            prev
        } else {
            prev.push(s.last())
        }
    }
}

/// A cached entry is served while it is younger than `duration` and the
/// file's modification time is still the one recorded with it: any change of
/// that time, forwards or backwards, invalidates the entry.
pub open spec fn is_fresh(e: (Seq<char>, int, int), modified: int, now: int, duration: int) -> bool {
    age(now, e.2) < duration && e.1 == modified
}

/// `now - cached_at`, for a time not before the entry was cached.
fn age_nanos(now: i128, cached_at: i128) -> (r: u128)
    requires
        now >= cached_at,
    ensures
        r == now - cached_at,
{
    if cached_at >= 0 || now < 0 {
        (now - cached_at) as u128
    } else {
        (now as u128) + ((-(cached_at + 1)) as u128) + 1
    }
}

proof fn lemma_step<T>(s: Seq<T>, i: int)
    requires
        0 <= i < s.len(),
    ensures
        s.take(i + 1).drop_last() == s.take(i),
        s.take(i + 1).last() == s[i],
{
    assert(s.take(i + 1).drop_last() =~= s.take(i));
}

proof fn lemma_retained_within(s: Seq<(Seq<char>, (Seq<char>, int, int))>, now: int, duration: int)
    ensures
        forall|x| #[trigger] retained(s, now, duration).contains(x) ==> s.contains(x),
        retained(s, now, duration).len() <= s.len(),
        distinct_paths(s) ==> distinct_paths(retained(s, now, duration)),
    decreases s.len(),
{
    if s.len() > 0 {
        let d = s.drop_last();
        lemma_retained_within(d, now, duration);
        let prev = retained(d, now, duration);
        assert forall|x| #[trigger] retained(s, now, duration).contains(x) implies s.contains(x) by {
            if prev.contains(x) {
                let k = choose|k: int| 0 <= k < prev.len() && prev[k] == x;
                assert(d.contains(x));
                let m = choose|m: int| 0 <= m < d.len() && d[m] == x;
                assert(s[m] == x);
            } else {
                assert(x == s.last());
                assert(s[s.len() - 1] == x);
            }
        }
        if distinct_paths(s) {
            assert(distinct_paths(d)) by {
                assert forall|i: int, j: int| 0 <= i < j < d.len() implies (#[trigger] d[i]).0 != (#[trigger] d[j]).0 by {
                    assert(s[i] == d[i] && s[j] == d[j]);
                }
            }
            if age(now, s.last().1.2) < duration {
                let r = retained(s, now, duration);
                assert forall|i: int, j: int| 0 <= i < j < r.len() implies (#[trigger] r[i]).0 != (#[trigger] r[j]).0 by {
                    if j == r.len() - 1 {
                        assert(prev.contains(r[i]));
                        assert(d.contains(r[i]));
                        let m = choose|m: int| 0 <= m < d.len() && d[m] == r[i];
                        assert(s[m] == d[m]);
                        assert(s[s.len() - 1] == s.last());
                    } else {
                        assert(r[i] == prev[i] && r[j] == prev[j]);
                    }
                }
            }
        }
    }
}

impl FileCache {
    /// The cached entries, in the order they were cached.
    pub closed spec fn entries(&self) -> Seq<(Seq<char>, (Seq<char>, int, int))> {
        self.entries@.map_values(|e: (String, CachedFile)| entry_view(e))
    }

    /// How long an entry stays valid, in nanoseconds.
    pub closed spec fn duration(&self) -> nat {
        self.cache_duration as nat
    }

    /// Each path is cached at most once.
    #[verifier::type_invariant]
    spec fn paths_distinct(&self) -> bool {
        distinct_paths(self.entries())
    }

    /// An empty cache whose entries stay valid for `cache_duration`
    /// nanoseconds.
    pub fn new(cache_duration: u128) -> (r: Self)
        ensures
            r.entries().len() == 0,
            r.duration() == cache_duration,
    {
        let r = FileCache { entries: Vec::new(), cache_duration };
        assert(r.entries() =~= Seq::<(Seq<char>, (Seq<char>, int, int))>::empty());
        r
    }

    /// An empty cache whose entries stay valid for 30 seconds.
    pub fn with_default_duration() -> (r: Self)
        ensures
            r.entries().len() == 0,
            r.duration() == 30000000000,
    {
        Self::new(30000000000)
    }

    /// The number of cached files; no path is cached twice.
    pub fn len(&self) -> (r: usize)
        ensures
            r == self.entries().len(),
            distinct_paths(self.entries()),
    {
        proof {
            use_type_invariant(self);
        }
        self.entries.len()
    }

    /// The cached contents of `path` when they may be served: the file was
    /// last modified at `modified`, and it is `now`.
    pub fn cached_content(&self, path: &str, modified: i128, now: i128) -> (r: Option<String>)
        ensures
            match lookup(self.entries(), path@) {
                Some(e) => if is_fresh(e, modified as int, now as int, self.duration() as int) {
                    r matches Some(c) && c@ == e.0
                } else {
                    r is None
                },
                None => r is None,
            },
    {
        let ghost ev = self.entries();
        let mut n = self.entries.len();
        assert(ev.take(n as int) =~= ev);
        while n > 0
            invariant
                n <= self.entries@.len(),
                ev == self.entries(),
                lookup(ev, path@) == lookup(ev.take(n as int), path@),
            decreases n,
        {
            proof {
                lemma_step(ev, n - 1);
            }
            let e = &self.entries[n - 1];
            if str_eq(e.0.as_str(), path) {
                assert(ev[n - 1] == entry_view(*e));
                let age_ok = if now >= e.1.cached_at {
                    age_nanos(now, e.1.cached_at) < self.cache_duration
                } else {
                    18446744073709551615u128 * 1000000000u128 < self.cache_duration
                };
                if age_ok && e.1.last_modified == modified {
                    return Some(e.1.content.clone());
                }
                return None;
            }
            n = n - 1;
        }
        None
    }

    /// Record the contents of `path`, read at `now` while the file was last
    /// modified at `modified`; an older entry for the path goes.
    pub fn store(&mut self, path: &str, content: String, modified: i128, now: i128)
        ensures
            final(self).duration() == old(self).duration(),
            final(self).entries() == without(old(self).entries(), path@).push(
                (path@, (content@, modified as int, now as int)),
            ),
            lookup(final(self).entries(), path@) == Some((content@, modified as int, now as int)),
            forall|q: Seq<char>| q != path@ ==> #[trigger] lookup(final(self).entries(), q) == lookup(old(self).entries(), q),
    {
        proof {
            assert forall|q: Seq<char>| q != path@ implies #[trigger] lookup(without(old(self).entries(), path@).push(
                (path@, (content@, modified as int, now as int)),
            ), q) == lookup(old(self).entries(), q) by {
                let t = without(old(self).entries(), path@).push((path@, (content@, modified as int, now as int)));
                assert(t.drop_last() =~= without(old(self).entries(), path@));
                lemma_lookup_without(old(self).entries(), path@, q);
            }
        }
        proof {
            use_type_invariant(&*self);
            lemma_without_lacks(old(self).entries(), path@);
        }
        self.invalidate(path);
        let ghost before = self.entries();
        let mut v: Vec<(String, CachedFile)> = Vec::new();
        std::mem::swap(&mut v, &mut self.entries);
        v.push((string_of(path), CachedFile { content, last_modified: modified, cached_at: now }));
        proof {
            let nv = v@.map_values(|e: (String, CachedFile)| entry_view(e));
            assert(nv =~= before.push((path@, (content@, modified as int, now as int))));
            assert forall|i: int, j: int| 0 <= i < j < nv.len() implies (#[trigger] nv[i]).0 != (#[trigger] nv[j]).0 by {
                if j == nv.len() - 1 {
                    assert(nv[i] == before[i]);
                } else {
                    assert(nv[i] == before[i] && nv[j] == before[j]);
                }
            }
        }
        self.entries = v;
    }

    /// Forget `path`.
    pub fn invalidate(&mut self, path: &str)
        ensures
            final(self).duration() == old(self).duration(),
            final(self).entries() == without(old(self).entries(), path@),
            lookup(final(self).entries(), path@) is None,
            forall|q: Seq<char>| q != path@ ==> #[trigger] lookup(final(self).entries(), q) == lookup(old(self).entries(), q),
            final(self).entries().len() == old(self).entries().len() - (if lookup(old(self).entries(), path@) is Some {
                1int
            } else {
                0int
            }),
    {
        proof {
            use_type_invariant(&*self);
            lemma_without_len(old(self).entries(), path@);
            lemma_lookup_without(old(self).entries(), path@, path@);
            assert forall|q: Seq<char>| q != path@ implies #[trigger] lookup(without(old(self).entries(), path@), q) == lookup(old(self).entries(), q) by {
                lemma_lookup_without(old(self).entries(), path@, q);
            }
        }
        proof {
            use_type_invariant(&*self);
        }
        let ghost ev = self.entries();
        let mut kept: Vec<(String, CachedFile)> = Vec::new();
        let mut rest: Vec<(String, CachedFile)> = Vec::new();
        std::mem::swap(&mut rest, &mut self.entries);
        let n = rest.len();
        let mut i: usize = 0;
        while i < n
            invariant
                n == rest@.len(),
                i <= n,
                ev == rest@.map_values(|e: (String, CachedFile)| entry_view(e)),
                distinct_paths(ev),
                self.cache_duration == old(self).cache_duration,
                kept@.map_values(|e: (String, CachedFile)| entry_view(e)) == without(ev.take(i as int), path@),
            decreases n - i,
        {
            proof {
                lemma_step(ev, i as int);
            }
            if !str_eq(rest[i].0.as_str(), path) {
                let ghost before = kept@;
                let e = (string_of(rest[i].0.as_str()), CachedFile {
                    content: string_of(rest[i].1.content.as_str()),
                    last_modified: rest[i].1.last_modified,
                    cached_at: rest[i].1.cached_at,
                });
                kept.push(e);
                proof {
                    assert(entry_view(kept@.last()) == ev[i as int]);
                    assert(kept@.map_values(|e: (String, CachedFile)| entry_view(e)) =~= before.map_values(
                        |e: (String, CachedFile)| entry_view(e),
                    ).push(ev[i as int]));
                }
            }
            i = i + 1;
        }
        proof {
            assert(ev.take(n as int) =~= ev);
            lemma_without_distinct(ev, path@);
        }
        self.entries = kept;
    }

    /// Forget every entry that is no longer younger than the cache's
    /// lifetime at `now`.
    pub fn cleanup_expired(&mut self, now: i128)
        ensures
            final(self).duration() == old(self).duration(),
            final(self).entries() == retained(old(self).entries(), now as int, old(self).duration() as int),
            forall|q: Seq<char>| #[trigger] lookup(final(self).entries(), q) == match lookup(old(self).entries(), q) {
                Some(e) => if age(now as int, e.2) < old(self).duration() { Some(e) } else { None },
                None => None,
            },
    {
        proof {
            use_type_invariant(&*self);
            assert forall|q: Seq<char>| #[trigger] lookup(retained(old(self).entries(), now as int, old(self).duration() as int), q) == match lookup(old(self).entries(), q) {
                Some(e) => if age(now as int, e.2) < old(self).duration() { Some(e) } else { None },
                None => None,
            } by {
                lemma_lookup_retained(old(self).entries(), now as int, old(self).duration() as int, q);
            }
        }
        proof {
            use_type_invariant(&*self);
        }
        let ghost ev = self.entries();
        let mut kept: Vec<(String, CachedFile)> = Vec::new();
        let mut rest: Vec<(String, CachedFile)> = Vec::new();
        std::mem::swap(&mut rest, &mut self.entries);
        let n = rest.len();
        let mut i: usize = 0;
        while i < n
            invariant
                n == rest@.len(),
                i <= n,
                ev == rest@.map_values(|e: (String, CachedFile)| entry_view(e)),
                self.cache_duration == old(self).cache_duration,
                kept@.map_values(|e: (String, CachedFile)| entry_view(e)) == retained(
                    ev.take(i as int),
                    now as int,
                    self.cache_duration as int,
                ),
            decreases n - i,
        {
            proof {
                lemma_step(ev, i as int);
            }
            let c = rest[i].1.cached_at;
            let young = if now >= c {
                age_nanos(now, c) < self.cache_duration
            } else {
                18446744073709551615u128 * 1000000000u128 < self.cache_duration
            };
            if young {
                let ghost before = kept@;
                let e = (string_of(rest[i].0.as_str()), CachedFile {
                    content: string_of(rest[i].1.content.as_str()),
                    last_modified: rest[i].1.last_modified,
                    cached_at: rest[i].1.cached_at,
                });
                kept.push(e);
                proof {
                    assert(entry_view(kept@.last()) == ev[i as int]);
                    assert(kept@.map_values(|e: (String, CachedFile)| entry_view(e)) =~= before.map_values(
                        |e: (String, CachedFile)| entry_view(e),
                    ).push(ev[i as int]));
                }
            }
            i = i + 1;
        }
        proof {
            assert(ev.take(n as int) =~= ev);
            lemma_retained_within(ev, now as int, old(self).cache_duration as int);
        }
        self.entries = kept;
    }
}

impl FileCache {
    /// The contents of `path`, last modified at `modified`, at time `now`:
    /// the cached contents while they may be served (see `is_fresh`), else
    /// what `read` gives, which is then cached. A failed read leaves the
    /// cache as it was.
    pub fn get_file_content<F: FnOnce() -> Result<String, String>>(
        &mut self,
        path: &str,
        modified: i128,
        now: i128,
        read: F,
    ) -> (r: Result<String, String>)
        requires
            read.requires(()),
        ensures
            final(self).duration() == old(self).duration(),
            match lookup(old(self).entries(), path@) {
                Some(e) if is_fresh(e, modified as int, now as int, old(self).duration() as int) => {
                    &&& r matches Ok(c) && c@ == e.0
                    &&& final(self).entries() == old(self).entries()
                },
                _ => {
                    &&& read.ensures((), r)
                    &&& r matches Ok(c) ==> final(self).entries() == without(old(self).entries(), path@).push(
                        (path@, (c@, modified as int, now as int)),
                    )
                    &&& r is Err ==> final(self).entries() == old(self).entries()
                },
            },
    {
        match self.cached_content(path, modified, now) {
            Some(c) => Ok(c),
            None => {
                let r = read();
                match r {
                    Ok(content) => {
                        let stored = string_of(content.as_str());
                        self.store(path, stored, modified, now);
                        Ok(content)
                    },
                    Err(e) => Err(e),
                }
            },
        }
    }
}

/// Read `path` through the cache (see `FileCache::get_file_content`).
pub fn get_cached_file_content<F: FnOnce() -> Result<String, String>>(
    cache: &mut FileCache,
    path: &str,
    modified: i128,
    now: i128,
    read: F,
) -> (r: Result<String, String>)
    requires
        read.requires(()),
    ensures
        final(cache).duration() == old(cache).duration(),
        match lookup(old(cache).entries(), path@) {
            Some(e) if is_fresh(e, modified as int, now as int, old(cache).duration() as int) => {
                &&& r matches Ok(c) && c@ == e.0
                &&& final(cache).entries() == old(cache).entries()
            },
            _ => {
                &&& read.ensures((), r)
                &&& r matches Ok(c) ==> final(cache).entries() == without(old(cache).entries(), path@).push(
                    (path@, (c@, modified as int, now as int)),
                )
                &&& r is Err ==> final(cache).entries() == old(cache).entries()
            },
        },
{
    cache.get_file_content(path, modified, now, read)
}

/// Forget `path` in the cache.
pub fn invalidate_file_cache(cache: &mut FileCache, path: &str)
    ensures
        final(cache).duration() == old(cache).duration(),
        final(cache).entries() == without(old(cache).entries(), path@),
        lookup(final(cache).entries(), path@) is None,
        final(cache).entries().len() == old(cache).entries().len() - (if lookup(old(cache).entries(), path@) is Some {
            1int
        } else {
            0int
        }),
{
    cache.invalidate(path)
}

/// Forget the entries of the cache that expired by `now`.
pub fn cleanup_file_cache(cache: &mut FileCache, now: i128)
    ensures
        final(cache).duration() == old(cache).duration(),
        final(cache).entries() == retained(old(cache).entries(), now as int, old(cache).duration() as int),
{
    cache.cleanup_expired(now)
}

/// What the cache serves for `q` after dropping the entry of `p`.
pub proof fn lemma_lookup_without(s: Seq<(Seq<char>, (Seq<char>, int, int))>, p: Seq<char>, q: Seq<char>)
    ensures
        lookup(without(s, p), q) == if q == p { None } else { lookup(s, q) },
    decreases s.len(),
{
    if s.len() > 0 {
        lemma_lookup_without(s.drop_last(), p, q);
        if s.last().0 != p {
            assert(without(s, p).drop_last() =~= without(s.drop_last(), p));
        }
    }
}

proof fn lemma_lookup_absent(s: Seq<(Seq<char>, (Seq<char>, int, int))>, q: Seq<char>)
    requires
        forall|i: int| 0 <= i < s.len() ==> (#[trigger] s[i]).0 != q,
    ensures
        lookup(s, q) is None,
    decreases s.len(),
{
    if s.len() > 0 {
        let d = s.drop_last();
        assert forall|i: int| 0 <= i < d.len() implies (#[trigger] d[i]).0 != q by {
            assert(d[i] == s[i]);
        }
        assert(s[s.len() - 1] == s.last());
        lemma_lookup_absent(d, q);
    }
}

/// Cleaning up keeps an entry exactly when it is still young: the cache
/// then serves for `q` what it served before if that entry was younger than
/// `duration` at `now`, and nothing otherwise.
pub proof fn lemma_lookup_retained(s: Seq<(Seq<char>, (Seq<char>, int, int))>, now: int, duration: int, q: Seq<char>)
    requires
        distinct_paths(s),
    ensures
        lookup(retained(s, now, duration), q) == match lookup(s, q) {
            Some(e) => if age(now, e.2) < duration { Some(e) } else { None },
            None => None,
        },
    decreases s.len(),
{
    if s.len() > 0 {
        let d = s.drop_last();
        assert(distinct_paths(d)) by {
            assert forall|i: int, j: int| 0 <= i < j < d.len() implies (#[trigger] d[i]).0 != (#[trigger] d[j]).0 by {
                assert(s[i] == d[i] && s[j] == d[j]);
            }
        }
        lemma_lookup_retained(d, now, duration, q);
        let prev = retained(d, now, duration);
        let x = s.last();
        if x.0 == q {
            assert forall|i: int| 0 <= i < d.len() implies (#[trigger] d[i]).0 != q by {
                assert(s[i] == d[i]);
                assert(s[s.len() - 1] == s.last());
            }
            lemma_lookup_absent(d, q);
            assert(lookup(s, q) == Some(x.1));
            if age(now, x.1.2) < duration {
                assert(retained(s, now, duration) == prev.push(x));
                assert(prev.push(x).drop_last() =~= prev);
                assert(lookup(prev.push(x), q) == Some(x.1));
            } else {
                assert(retained(s, now, duration) == prev);
                assert(lookup(prev, q) is None);
            }
        } else {
            assert(lookup(s, q) == lookup(d, q));
            if age(now, x.1.2) < duration {
                assert(retained(s, now, duration) == prev.push(x));
                assert(prev.push(x).drop_last() =~= prev);
                assert(lookup(prev.push(x), q) == lookup(prev, q));
            } else {
                assert(retained(s, now, duration) == prev);
            }
        }
    }
}

proof fn lemma_without_within(s: Seq<(Seq<char>, (Seq<char>, int, int))>, path: Seq<char>)
    ensures
        forall|x| #[trigger] without(s, path).contains(x) ==> s.contains(x) && x.0 != path,
    decreases s.len(),
{
    if s.len() > 0 {
        let d = s.drop_last();
        lemma_without_within(d, path);
        let prev = without(d, path);
        assert forall|x| #[trigger] without(s, path).contains(x) implies s.contains(x) && x.0 != path by {
            if prev.contains(x) {
                let m = choose|m: int| 0 <= m < d.len() && d[m] == x;
                assert(s[m] == x);
            } else {
                assert(s[s.len() - 1] == x);
            }
        }
    }
}

proof fn lemma_without_lacks(s: Seq<(Seq<char>, (Seq<char>, int, int))>, path: Seq<char>)
    requires
        distinct_paths(s),
    ensures
        forall|k: int| 0 <= k < without(s, path).len() ==> (#[trigger] without(s, path)[k]).0 != path,
        distinct_paths(without(s, path)),
{
    lemma_without_within(s, path);
    lemma_without_distinct(s, path);
    assert forall|k: int| 0 <= k < without(s, path).len() implies (#[trigger] without(s, path)[k]).0 != path by {
        assert(without(s, path).contains(without(s, path)[k]));
    }
}

proof fn lemma_without_distinct(s: Seq<(Seq<char>, (Seq<char>, int, int))>, path: Seq<char>)
    requires
        distinct_paths(s),
    ensures
        distinct_paths(without(s, path)),
    decreases s.len(),
{
    if s.len() > 0 {
        let d = s.drop_last();
        assert(distinct_paths(d)) by {
            assert forall|i: int, j: int| 0 <= i < j < d.len() implies (#[trigger] d[i]).0 != (#[trigger] d[j]).0 by {
                assert(s[i] == d[i] && s[j] == d[j]);
            }
        }
        lemma_without_distinct(d, path);
        lemma_without_within(d, path);
        let prev = without(d, path);
        if s.last().0 != path {
            let r = without(s, path);
            assert forall|i: int, j: int| 0 <= i < j < r.len() implies (#[trigger] r[i]).0 != (#[trigger] r[j]).0 by {
                if j == r.len() - 1 {
                    assert(prev.contains(r[i]));
                    let m = choose|m: int| 0 <= m < d.len() && d[m] == r[i];
                    assert(s[m] == d[m]);
                    assert(s[s.len() - 1] == s.last());
                } else {
                    assert(r[i] == prev[i] && r[j] == prev[j]);
                }
            }
        }
    }
}

/// Dropping the entry of `p` from entries with distinct paths removes one
/// entry when `p` was cached and none otherwise.
pub proof fn lemma_without_len(s: Seq<(Seq<char>, (Seq<char>, int, int))>, p: Seq<char>)
    requires
        distinct_paths(s),
    ensures
        without(s, p).len() + (if lookup(s, p) is Some { 1int } else { 0int }) == s.len(),
    decreases s.len(),
{
    if s.len() > 0 {
        let d = s.drop_last();
        assert(distinct_paths(d)) by {
            assert forall|i: int, j: int| 0 <= i < j < d.len() implies (#[trigger] d[i]).0 != (#[trigger] d[j]).0 by {
                assert(s[i] == d[i] && s[j] == d[j]);
            }
        }
        lemma_without_len(d, p);
        if s.last().0 == p {
            assert forall|i: int| 0 <= i < d.len() implies (#[trigger] d[i]).0 != p by {
                assert(s[i] == d[i]);
                assert(s[s.len() - 1] == s.last());
            }
            lemma_lookup_absent(d, p);
        }
    }
}

/// Forgetting a path twice leaves the cache as forgetting it once.
pub proof fn lemma_without_twice(s: Seq<(Seq<char>, (Seq<char>, int, int))>, p: Seq<char>)
    ensures
        without(without(s, p), p) == without(s, p),
    decreases s.len(),
{
    if s.len() > 0 {
        let d = s.drop_last();
        lemma_without_twice(d, p);
        if s.last().0 != p {
            let w = without(d, p).push(s.last());
            assert(w.drop_last() =~= without(d, p));
        }
    }
}

} // verus!
