//! The lyrics cache: answers and remembered failures by request key, each until its
//! expiry time. Times are milliseconds on a clock that the caller reads.
use vstd::prelude::*;

use crate::payload::{copy_payload, LyricsPayload, PayloadView};

verus! {

/// How long an answer is kept: 30 minutes.
pub const CACHE_TTL_MS: u64 = 1800000;

/// How long a remembered failure is kept: 5 minutes.
pub const NEGATIVE_CACHE_TTL_MS: u64 = 300000;

/// How often expired entries are dropped: every 10 minutes.
pub const CACHE_CLEANUP_INTERVAL_MS: u64 = 600000;

/// A remembered failure: the status and detail it was answered with.
#[derive(Debug)]
pub struct CachedFailure {
    pub status: u16,
    pub detail: String,
}

/// What the cache holds for a key.
#[derive(Debug)]
pub enum CachedLyrics {
    Success(LyricsPayload),
    Failure(CachedFailure),
}

/// The mathematical content of a cached value.
pub enum CachedView {
    Success(PayloadView),
    Failure(u16, Seq<char>),
}

/// The view of a cached value.
pub open spec fn cached_view(c: CachedLyrics) -> CachedView {
    match c {
        CachedLyrics::Success(p) => CachedView::Success(p@),
        CachedLyrics::Failure(f) => CachedView::Failure(f.status, f.detail@),
    }
}

/// A cached value as it is handed out: an answer is marked as coming from the cache.
pub open spec fn served(c: CachedView) -> CachedView {
    match c {
        CachedView::Success(p) => CachedView::Success(PayloadView { cached: true, ..p }),
        CachedView::Failure(s, d) => CachedView::Failure(s, d),
    }
}

struct CacheEntry {
    key: String,
    expires_at: u64,
    value: CachedLyrics,
}

/// Cached values by key, each with its expiry time.
pub struct LyricsCache {
    entries: Vec<CacheEntry>,
}

/// One entry: its key, expiry time and value.
pub type EntryView = (Seq<char>, u64, CachedView);

/// The position of `key`, the first one when there are several.
pub open spec fn position(s: Seq<EntryView>, key: Seq<char>) -> Option<int>
    decreases s.len(),
{
    if s.len() == 0 {
        None
    } else if s.last().0 == key && position(s.drop_last(), key) is None {
        Some(s.len() - 1)
    } else {
        position(s.drop_last(), key)
    }
}

/// What is stored under `key`: its expiry time and value.
pub open spec fn entry_at(s: Seq<EntryView>, key: Seq<char>) -> Option<(u64, CachedView)> {
    match position(s, key) {
        Some(i) => Some((s[i].1, s[i].2)),
        None => None,
    }
}

/// The entries after `value` is stored under `key` until `expires_at`: an entry for the key
/// is replaced, otherwise the entry is added.
pub open spec fn stored(s: Seq<EntryView>, key: Seq<char>, expires_at: u64, value: CachedView) -> Seq<
    EntryView,
> {
    match position(s, key) {
        Some(i) => s.update(i, (key, expires_at, value)),
        None => s.push((key, expires_at, value)),
    }
}

/// The entries after the entry for `key` is dropped.
pub open spec fn removed(s: Seq<EntryView>, key: Seq<char>) -> Seq<EntryView> {
    match position(s, key) {
        Some(i) => s.remove(i),
        None => s,
    }
}

/// No key is there twice.
pub open spec fn unique_keys(s: Seq<EntryView>) -> bool {
    forall|i: int, j: int| 0 <= i < j < s.len() ==> s[i].0 != s[j].0
}

/// A position found holds the key, and no earlier entry does.
proof fn lemma_position(s: Seq<EntryView>, key: Seq<char>)
    ensures
        match position(s, key) {
            Some(i) => 0 <= i < s.len() && s[i].0 == key && forall|j: int|
                0 <= j < i ==> s[j].0 != key,
            None => forall|j: int| 0 <= j < s.len() ==> s[j].0 != key,
        },
    decreases s.len(),
{
    if s.len() > 0 {
        let t = s.drop_last();
        lemma_position(t, key);
        assert forall|j: int| 0 <= j < t.len() implies t[j] == s[j] by {}
    }
}

/// The first position of `key` is the one a scan from the start finds.
proof fn lemma_position_is_first(s: Seq<EntryView>, key: Seq<char>, i: int)
    requires
        0 <= i < s.len(),
        s[i].0 == key,
        forall|j: int| 0 <= j < i ==> s[j].0 != key,
    ensures
        position(s, key) == Some(i),
{
    lemma_position(s, key);
    match position(s, key) {
        Some(k) => {
            if k < i {
                assert(s[k].0 != key);
            } else if k > i {
            }
        },
        None => {
            assert(s[i].0 != key);
        },
    }
}

/// After storing under a key, the key holds what was stored, every other key holds what it
/// held before, and no key is there twice when none was before.
pub proof fn lemma_store_then_lookup(
    s: Seq<EntryView>,
    key: Seq<char>,
    expires_at: u64,
    value: CachedView,
    other: Seq<char>,
)
    ensures
        entry_at(stored(s, key, expires_at, value), key) == Some((expires_at, value)),
        other != key ==> entry_at(stored(s, key, expires_at, value), other) == entry_at(s, other),
        unique_keys(s) ==> unique_keys(stored(s, key, expires_at, value)),
{
    let t = stored(s, key, expires_at, value);
    lemma_position(s, key);
    lemma_position(s, other);
    match position(s, key) {
        Some(i) => {
            lemma_position_is_first(t, key, i);
            if other != key {
                match position(s, other) {
                    Some(j) => lemma_position_is_first(t, other, j),
                    None => {
                        lemma_position(t, other);
                        assert forall|j: int| 0 <= j < t.len() implies t[j].0 != other by {
                            if j != i {
                                assert(t[j] == s[j]);
                            }
                        }
                    },
                }
                lemma_position(t, other);
            }
        },
        None => {
            lemma_position_is_first(t, key, s.len() as int);
            if other != key {
                match position(s, other) {
                    Some(j) => lemma_position_is_first(t, other, j),
                    None => {
                        lemma_position(t, other);
                        assert forall|j: int| 0 <= j < t.len() implies t[j].0 != other by {
                            if j < s.len() {
                                assert(t[j] == s[j]);
                            }
                        }
                    },
                }
                lemma_position(t, other);
            }
        },
    }
}

/// With no key twice, after dropping a key nothing is stored under it, every other key
/// holds what it held, and still no key is there twice.
pub proof fn lemma_remove_then_lookup(s: Seq<EntryView>, key: Seq<char>, other: Seq<char>)
    requires
        unique_keys(s),
    ensures
        entry_at(removed(s, key), key) is None,
        other != key ==> entry_at(removed(s, key), other) == entry_at(s, other),
        unique_keys(removed(s, key)),
{
    let t = removed(s, key);
    lemma_position(s, key);
    lemma_position(s, other);
    lemma_position(t, key);
    lemma_position(t, other);
    match position(s, key) {
        Some(i) => {
            assert forall|j: int| 0 <= j < t.len() implies t[j].0 != key by {
                if j < i {
                    assert(t[j] == s[j]);
                } else {
                    assert(t[j] == s[j + 1]);
                }
            }
            if other != key {
                match position(s, other) {
                    Some(k) => {
                        if k < i {
                            assert(t[k] == s[k]);
                            lemma_position_is_first(t, other, k);
                        } else {
                            assert(t[k - 1] == s[k]);
                            assert forall|j: int| 0 <= j < k - 1 implies t[j].0 != other by {
                                if j < i {
                                    assert(t[j] == s[j]);
                                } else {
                                    assert(t[j] == s[j + 1]);
                                }
                            }
                            lemma_position_is_first(t, other, k - 1);
                        }
                    },
                    None => {
                        assert forall|j: int| 0 <= j < t.len() implies t[j].0 != other by {
                            if j < i {
                                assert(t[j] == s[j]);
                            } else {
                                assert(t[j] == s[j + 1]);
                            }
                        }
                    },
                }
            }
            assert forall|a: int, b: int| 0 <= a < b < t.len() implies t[a].0 != t[b].0 by {
                let a2 = if a < i {
                    a
                } else {
                    a + 1
                };
                let b2 = if b < i {
                    b
                } else {
                    b + 1
                };
                assert(t[a] == s[a2]);
                assert(t[b] == s[b2]);
            }
        },
        None => {},
    }
}

/// An answer stored under a key before a time `now` comes back, marked as cached, as long
/// as `now` is before its expiry; a failure comes back as it was stored.
pub proof fn lemma_cached_answer_is_served(
    s: Seq<EntryView>,
    key: Seq<char>,
    stored_at: u64,
    ttl: u64,
    value: CachedView,
    now: u64,
)
    requires
        stored_at + ttl <= u64::MAX,
        now < stored_at + ttl,
    ensures
        entry_at(stored(s, key, (stored_at + ttl) as u64, value), key) matches Some(e) && now < e.0
            && served(e.1) == served(value),
{
    lemma_store_then_lookup(s, key, (stored_at + ttl) as u64, value, key);
}

impl CachedLyrics {
    /// A copy of a cached value as it is handed out: an answer is marked as cached.
    pub fn serve(&self) -> (r: CachedLyrics)
        ensures
            cached_view(r) == served(cached_view(*self)),
    {
        match self {
            CachedLyrics::Success(p) => {
                let mut c = copy_payload(p);
                c.cached = true;
                CachedLyrics::Success(c)
            },
            CachedLyrics::Failure(f) => CachedLyrics::Failure(
                CachedFailure { status: f.status, detail: f.detail.clone() },
            ),
        }
    }
}

impl LyricsCache {
    /// The entries with their keys, expiry times and values.
    pub closed spec fn entries(&self) -> Seq<EntryView> {
        self.entries@.map_values(|e: CacheEntry| (e.key@, e.expires_at, cached_view(e.value)))
    }

    /// Every cache that the operations build holds each key once.
    pub closed spec fn wf(&self) -> bool {
        unique_keys(self.entries())
    }

    /// An empty cache.
    pub fn new() -> (r: LyricsCache)
        ensures
            r.wf(),
            r.entries() == Seq::<EntryView>::empty(),
    {
        let r = LyricsCache { entries: Vec::new() };
        assert(r.entries() =~= Seq::<EntryView>::empty());
        r
    }

    /// How many entries there are.
    pub fn len(&self) -> (r: usize)
        ensures
            r == self.entries().len(),
    {
        self.entries.len()
    }

    /// The position of `key`.
    fn find(&self, key: &str) -> (r: Option<usize>)
        ensures
            match r {
                Some(i) => position(self.entries(), key@) == Some(i as int) && i < self.entries.len(),
                None => position(self.entries(), key@) is None,
            },
    {
        let ghost s = self.entries();
        proof {
            lemma_position(s, key@);
        }
        let mut i: usize = 0;
        while i < self.entries.len()
            invariant
                i <= self.entries.len(),
                s == self.entries(),
                s.len() == self.entries.len(),
                forall|j: int| 0 <= j < i ==> s[j].0 != key@,
            decreases self.entries.len() - i,
        {
            assert(s[i as int].0 == self.entries@[i as int].key@);
            if crate::text::str_equals(self.entries[i].key.as_str(), key) {
                proof {
                    lemma_position_is_first(s, key@, i as int);
                }
                return Some(i);
            }
            i += 1;
        }
        None
    }

    /// What is cached under `key` at time `now`: a copy as it is handed out while the entry
    /// has not expired; an expired entry is dropped and nothing is returned.
    pub fn get(&mut self, key: &str, now: u64) -> (r: Option<CachedLyrics>)
        requires
            old(self).wf(),
        ensures
            final(self).wf(),
            match entry_at(old(self).entries(), key@) {
                Some(e) => if now < e.0 {
                    r matches Some(c) && cached_view(c) == served(e.1) && final(self).entries()
                        == old(self).entries()
                } else {
                    r is None && final(self).entries() == removed(old(self).entries(), key@)
                },
                None => r is None && final(self).entries() == old(self).entries(),
            },
    {
        let ghost s = self.entries();
        match self.find(key) {
            Some(i) => {
                if now < self.entries[i].expires_at {
                    return Some(self.entries[i].value.serve());
                }
                self.entries.remove(i);
                proof {
                    lemma_remove_then_lookup(s, key@, key@);
                }
                assert(self.entries() =~= s.remove(i as int));
                None
            },
            None => None,
        }
    }

    /// Stores `value` under `key` until `expires_at`, replacing what the key held.
    fn put(&mut self, key: String, expires_at: u64, value: CachedLyrics)
        requires
            old(self).wf(),
        ensures
            final(self).wf(),
            final(self).entries() == stored(
                old(self).entries(),
                key@,
                expires_at,
                cached_view(value),
            ),
    {
        let ghost s = self.entries();
        let ghost v = cached_view(value);
        proof {
            lemma_store_then_lookup(s, key@, expires_at, v, key@);
        }
        match self.find(key.as_str()) {
            Some(i) => {
                self.entries.set(i, CacheEntry { key, expires_at, value });
                assert(self.entries() =~= s.update(i as int, (key@, expires_at, v)));
            },
            None => {
                self.entries.push(CacheEntry { key, expires_at, value });
                assert(self.entries() =~= s.push((key@, expires_at, v)));
            },
        }
    }

    /// Stores an answer under `key` for `CACHE_TTL_MS` from `now`.
    pub fn store(&mut self, key: String, payload: LyricsPayload, now: u64)
        requires
            old(self).wf(),
            now <= u64::MAX - CACHE_TTL_MS,
        ensures
            final(self).wf(),
            final(self).entries() == stored(
                old(self).entries(),
                key@,
                (now + CACHE_TTL_MS) as u64,
                CachedView::Success(payload@),
            ),
    {
        self.put(key, now + CACHE_TTL_MS, CachedLyrics::Success(payload));
    }

    /// Remembers a failure under `key` for `NEGATIVE_CACHE_TTL_MS` from `now`.
    pub fn store_negative(&mut self, key: String, status: u16, detail: String, now: u64)
        requires
            old(self).wf(),
            now <= u64::MAX - NEGATIVE_CACHE_TTL_MS,
        ensures
            final(self).wf(),
            final(self).entries() == stored(
                old(self).entries(),
                key@,
                (now + NEGATIVE_CACHE_TTL_MS) as u64,
                CachedView::Failure(status, detail@),
            ),
    {
        self.put(
            key,
            now + NEGATIVE_CACHE_TTL_MS,
            CachedLyrics::Failure(CachedFailure { status, detail }),
        );
    }

    /// Drops every entry and tells how many there were.
    pub fn clear(&mut self) -> (r: usize)
        ensures
            final(self).wf(),
            r == old(self).entries().len(),
            final(self).entries() == Seq::<EntryView>::empty(),
    {
        let n = self.entries.len();
        self.entries = Vec::new();
        assert(self.entries() =~= Seq::<EntryView>::empty());
        n
    }

    /// Drops the entries that expired by `now` (those whose time is not after it) and tells
    /// how many were dropped; the others stay in order.
    pub fn remove_expired(&mut self, now: u64) -> (r: usize)
        requires
            old(self).wf(),
        ensures
            final(self).wf(),
            final(self).entries() == unexpired(old(self).entries(), now),
            r == old(self).entries().len() - final(self).entries().len(),
    {
        let ghost s = self.entries();
        let mut rest: Vec<CacheEntry> = Vec::new();
        std::mem::swap(&mut rest, &mut self.entries);
        let n = rest.len();
        let ghost all = rest@;
        assert(s =~= all.map_values(|e: CacheEntry| (e.key@, e.expires_at, cached_view(e.value))));
        let mut kept: Vec<CacheEntry> = Vec::new();
        let mut i: usize = 0;
        assert(s.take(0) =~= Seq::<EntryView>::empty());
        while rest.len() > 0
            invariant
                i + rest.len() == n,
                n == all.len(),
                rest@ == all.skip(i as int),
                s == all.map_values(|e: CacheEntry| (e.key@, e.expires_at, cached_view(e.value))),
                kept@.map_values(|e: CacheEntry| (e.key@, e.expires_at, cached_view(e.value)))
                    == unexpired(s.take(i as int), now),
            decreases rest.len(),
        {
            let e = rest.remove(0);
            assert(e == all[i as int]);
            assert(rest@ =~= all.skip(i + 1));
            assert(s.take(i + 1).drop_last() =~= s.take(i as int));
            assert(s.take(i + 1).last() == s[i as int]);
            let ghost before = kept@.map_values(
                |e: CacheEntry| (e.key@, e.expires_at, cached_view(e.value)),
            );
            if e.expires_at > now {
                kept.push(e);
                assert(kept@.map_values(|e: CacheEntry| (e.key@, e.expires_at, cached_view(e.value)))
                    =~= before.push(s[i as int]));
            }
            i += 1;
        }
        assert(s.take(i as int) =~= s);
        self.entries = kept;
        proof {
            lemma_unexpired_keeps_unique(s, now);
            lemma_unexpired_len(s, now);
        }
        n - self.entries.len()
    }
}

/// The entries that expire after `now`, in order.
pub open spec fn unexpired(s: Seq<EntryView>, now: u64) -> Seq<EntryView>
    decreases s.len(),
{
    if s.len() == 0 {
        s
    } else if s.last().1 > now {
        unexpired(s.drop_last(), now).push(s.last())
    } else {
        unexpired(s.drop_last(), now)
    }
}

/// Dropping expired entries does not add any.
proof fn lemma_unexpired_len(s: Seq<EntryView>, now: u64)
    ensures
        unexpired(s, now).len() <= s.len(),
    decreases s.len(),
{
    if s.len() > 0 {
        lemma_unexpired_len(s.drop_last(), now);
    }
}

/// Every kept entry was there before.
proof fn lemma_unexpired_from(s: Seq<EntryView>, now: u64, a: int)
    requires
        0 <= a < unexpired(s, now).len(),
    ensures
        exists|j: int| 0 <= j < s.len() && s[j] == unexpired(s, now)[a],
    decreases s.len(),
{
    let t = s.drop_last();
    if s.last().1 > now && a == unexpired(s, now).len() - 1 {
        assert(s[s.len() - 1] == unexpired(s, now)[a]);
    } else {
        lemma_unexpired_from(t, now, a);
        let j = choose|j: int| 0 <= j < t.len() && t[j] == unexpired(t, now)[a];
        assert(s[j] == t[j]);
    }
}

/// Dropping expired entries keeps every key at most once.
proof fn lemma_unexpired_keeps_unique(s: Seq<EntryView>, now: u64)
    requires
        unique_keys(s),
    ensures
        unique_keys(unexpired(s, now)),
    decreases s.len(),
{
    if s.len() > 0 {
        let t = s.drop_last();
        assert(unique_keys(t));
        lemma_unexpired_keeps_unique(t, now);
        let ft = unexpired(t, now);
        if s.last().1 > now {
            let f = unexpired(s, now);
            assert forall|a: int, b: int| 0 <= a < b < f.len() implies f[a].0 != f[b].0 by {
                if b == f.len() - 1 {
                    lemma_unexpired_from(t, now, a);
                    let j = choose|j: int| 0 <= j < t.len() && t[j] == ft[a];
                    assert(s[j] == t[j]);
                    assert(f[a] == ft[a]);
                } else {
                    assert(f[a] == ft[a]);
                    assert(f[b] == ft[b]);
                }
            }
        }
    }
}

} // verus!
