//! Response caching: entries with a time to live, an optional limit on their
//! number (the least recently used one leaves first) and a periodic cleanup.
//!
//! Times are microseconds since the Unix epoch; entries expire on whole
//! seconds.

use std::sync::Arc;

use vstd::prelude::*;
use vstd::string::*;

use crate::number;
use crate::text;

verus! {

/// A cache entry: payload and integral expiry second.
#[verifier::reject_recursive_types(T)]
pub struct CacheEntry<T> {
    key: String,
    payload: Arc<T>,
    expires: i128,
}

/// What a cache entry holds.
pub struct EntryModel<T> {
    pub key: Seq<char>,
    pub payload: T,
    pub expires: int,
}

/// What a cache holds: its settings, its entries from the least to the most
/// recently used one, and its counters.
pub struct CacheModel<T> {
    pub ttl: int,
    pub size: Option<nat>,
    pub period: Option<int>,
    pub entries: Seq<EntryModel<T>>,
    pub last_cleanup: int,
    pub total: int,
    pub hits: int,
}

/// Position of the entry for `key`, from `i` on; the length when there is none.
pub open spec fn entry_of<T>(entries: Seq<EntryModel<T>>, key: Seq<char>, i: int) -> int
    decreases entries.len() - i,
{
    if i < 0 || i >= entries.len() {
        entries.len() as int
    } else if entries[i].key == key {
        i
    } else {
        entry_of(entries, key, i + 1)
    }
}

/// The first `n` entries without the expired ones.
pub open spec fn unexpired<T>(entries: Seq<EntryModel<T>>, second: int, n: int) -> Seq<EntryModel<T>>
    decreases n,
{
    if n <= 0 {
        Seq::empty()
    } else if second < entries[n - 1].expires {
        unexpired(entries, second, n - 1).push(entries[n - 1])
    } else {
        unexpired(entries, second, n - 1)
    }
}

/// The second of a time in microseconds.
pub open spec fn second_of(now: int) -> int {
    number::quotient(now, 1_000_000)
}

/// A counter after one more event; it stays at its greatest value.
pub open spec fn count_up(n: int) -> int {
    if n < u64::MAX {
        n + 1
    } else {
        n
    }
}

impl<T> CacheModel<T> {
    /// Whether no two entries have the same key.
    pub open spec fn keys_differ(self) -> bool {
        forall|i: int, j: int|
            0 <= i < j < self.entries.len() ==> (#[trigger] self.entries[i]).key != (#[trigger] self.entries[j]).key
    }

    /// The invariant of a cache: one entry per key, no more entries than the
    /// limit allows, and no more hits than lookups.
    pub open spec fn wf(self) -> bool {
        &&& self.keys_differ()
        &&& self.size matches Some(n) ==> self.entries.len() <= n || self.entries.len() <= 1
        &&& 0 <= self.hits <= self.total
    }

    /// The valid payload for `key` at `now`.
    pub open spec fn valid(self, key: Seq<char>, now: int) -> Option<T> {
        let k = entry_of(self.entries, key, 0);
        if k < self.entries.len() && second_of(now) < self.entries[k].expires {
            Some(self.entries[k].payload)
        } else {
            None
        }
    }

    /// Whether the limit is reached.
    pub open spec fn full(self) -> bool {
        self.size matches Some(n) && self.entries.len() >= n
    }

    /// The cache without its least recently used entry.
    pub open spec fn without_oldest(self) -> CacheModel<T> {
        if self.entries.len() > 0 {
            CacheModel { entries: self.entries.remove(0), ..self }
        } else {
            self
        }
    }

    /// The cache after the cleanup that is due at `now`, if any.
    pub open spec fn cleaned(self, now: int) -> CacheModel<T> {
        if self.period matches Some(p) && now > self.last_cleanup + p {
            CacheModel {
                entries: unexpired(self.entries, second_of(now), self.entries.len() as int),
                last_cleanup: now,
                ..self
            }
        } else {
            self
        }
    }

    /// The cache after a lookup.
    pub open spec fn looked_up(self, key: Seq<char>, now: int) -> CacheModel<T> {
        let c = CacheModel { total: count_up(self.total), ..self.cleaned(now) };
        let k = entry_of(c.entries, key, 0);
        if c.valid(key, now) is Some {
            let used = if c.size is Some {
                c.entries.remove(k).push(c.entries[k])
            } else {
                c.entries
            };
            CacheModel {
                entries: used,
                hits: if c.hits < c.total {
                    c.hits + 1
                } else {
                    c.hits
                },
                ..c
            }
        } else if k < c.entries.len() {
            c
        } else if c.full() {
            c.without_oldest()
        } else {
            c
        }
    }

    /// The cache after storing a payload.
    pub open spec fn stored(self, key: Seq<char>, payload: T, now: int) -> CacheModel<T> {
        let k = entry_of(self.entries, key, 0);
        let room = if k < self.entries.len() {
            CacheModel { entries: self.entries.remove(k), ..self }
        } else if self.full() {
            self.without_oldest()
        } else {
            self
        };
        CacheModel {
            entries: room.entries.push(EntryModel { key, payload, expires: second_of(now) + self.ttl }),
            ..room
        }
    }
}

/// Lookups and hits of a cache; the hit ratio is their quotient, and 0 without
/// hits.
#[derive(Debug, Clone, Copy, PartialEq, Eq, Structural)]
pub struct HitRatio {
    pub hits: u64,
    pub total: u64,
}

/// Cache with a time to live.
#[verifier::reject_recursive_types(T)]
pub struct ObjectCache<T> {
    ttl_seconds: i64,
    size: Option<usize>,
    cleanup_period: Option<i64>,
    entries: Vec<CacheEntry<T>>,
    last_cleanup: i64,
    total_count: u64,
    total_hit_count: u64,
}

impl<T> CacheEntry<T> {
    closed spec fn model(self) -> EntryModel<T> {
        EntryModel { key: self.key@, payload: *self.payload, expires: self.expires as int }
    }
}

spec fn shared_value<T>(shared: Arc<T>) -> T {
    *shared
}

spec fn models<T>(entries: Seq<CacheEntry<T>>) -> Seq<EntryModel<T>> {
    entries.map_values(|e: CacheEntry<T>| e.model())
}

impl<T> View for ObjectCache<T> {
    type V = CacheModel<T>;

    closed spec fn view(&self) -> CacheModel<T> {
        CacheModel {
            ttl: self.ttl_seconds as int,
            size: (match self.size {
                Some(n) => Some(n as nat),
                None => None,
            }),
            period: (match self.cleanup_period {
                Some(p) => Some(p as int),
                None => None,
            }),
            entries: models(self.entries@),
            last_cleanup: self.last_cleanup as int,
            total: self.total_count as int,
            hits: self.total_hit_count as int,
        }
    }
}

fn seconds(now: i64) -> (r: i64)
    ensures
        r == second_of(now as int),
{
    number::divide(now as i128, 1_000_000) as i64
}

impl<T> ObjectCache<T> {
    /// A cache with nothing in it.
    pub fn new(ttl_seconds: i64, size: Option<usize>, cleanup_period: Option<i64>) -> (r: ObjectCache<T>)
        ensures
            r@.wf(),
            r@.entries == Seq::<EntryModel<T>>::empty(),
            r@.ttl == ttl_seconds,
            r@.size == (match size {
                Some(n) => Some(n as nat),
                None => None,
            }),
            r@.period == (match cleanup_period {
                Some(p) => Some(p as int),
                None => None,
            }),
            r@.last_cleanup == 0,
            r@.total == 0,
            r@.hits == 0,
    {
        let r = ObjectCache {
            ttl_seconds,
            size,
            cleanup_period,
            entries: Vec::new(),
            last_cleanup: 0,
            total_count: 0,
            total_hit_count: 0,
        };
        assert(r@.entries =~= Seq::<EntryModel<T>>::empty());
        r
    }

    /// Position of the entry for `key`.
    fn find(&self, key: &str) -> (r: usize)
        ensures
            r == entry_of(self@.entries, key@, 0),
            r <= self.entries@.len(),
    {
        let mut i: usize = 0;
        while i < self.entries.len()
            invariant
                i <= self.entries@.len(),
                self@.entries == models(self.entries@),
                entry_of(self@.entries, key@, 0) == entry_of(self@.entries, key@, i as int),
            decreases self.entries@.len() - i,
        {
            assert(self@.entries[i as int].key == self.entries@[i as int].key@);
            if text::same_text(self.entries[i].key.as_str(), key) {
                return i;
            }
            i = i + 1;
        }
        i
    }

    /// Drop the least recently used entry.
    fn remove_oldest_entry(&mut self)
        ensures
            final(self)@ == old(self)@.without_oldest(),
    {
        if self.entries.len() > 0 {
            let ghost before = self@.entries;
            let _ = self.entries.remove(0);
            assert(self@.entries =~= before.remove(0));
        }
    }

    /// Drop the expired entries.
    fn clean_expired(&mut self, now: i64)
        ensures
            final(self)@ == (CacheModel {
                entries: unexpired(
                    old(self)@.entries,
                    second_of(now as int),
                    old(self)@.entries.len() as int,
                ),
                ..old(self)@
            }),
    {
        let second: i64 = seconds(now);
        let ghost before = self@;
        let ghost originals = self.entries@;
        let mut rest: Vec<CacheEntry<T>> = Vec::new();
        std::mem::swap(&mut rest, &mut self.entries);
        let mut kept: Vec<CacheEntry<T>> = Vec::new();
        let mut i: usize = 0;
        let n: usize = rest.len();
        assert(models(kept@) =~= unexpired(models(originals), second as int, 0));
        assert(rest@ =~= originals.skip(0));
        while i < n
            invariant
                i <= n,
                n == originals.len(),
                rest@ == originals.skip(i as int),
                models(kept@) == unexpired(models(originals), second as int, i as int),
            decreases n - i,
        {
            let entry = rest.remove(0);
            assert(entry == originals[i as int]);
            assert(models(originals)[i as int] == entry.model());
            assert(rest@ =~= originals.skip(i + 1));
            let ghost prior = models(kept@);
            if (second as i128) < entry.expires {
                kept.push(entry);
                assert(models(kept@) =~= prior.push(entry.model()));
            }
            i = i + 1;
        }
        self.entries = kept;
        assert(self@.entries == unexpired(before.entries, second as int, before.entries.len() as int));
    }

    /// Look up `key`: the payload when a valid entry exists.  On a miss the
    /// least recently used entry makes room for the payload to come.
    pub fn lookup(&mut self, key: &str, now: i64) -> (r: Option<Arc<T>>)
        requires
            old(self)@.wf(),
        ensures
            final(self)@.wf(),
            final(self)@ == old(self)@.looked_up(key@, now as int),
            r matches Some(p) ==> old(self)@.cleaned(now as int).valid(key@, now as int) == Some(*p),
            r is None ==> old(self)@.cleaned(now as int).valid(key@, now as int) is None,
    {
        proof {
            lemma_lookup_keeps_invariant(self@, key@, now as int);
        }
        if let Some(period) = self.cleanup_period {
            if now as i128 > self.last_cleanup as i128 + period as i128 {
                self.clean_expired(now);
                self.last_cleanup = now;
            }
        }
        if self.total_count < u64::MAX {
            self.total_count = self.total_count + 1;
        }
        let ghost counted = self@;
        assert(counted == (CacheModel {
            total: count_up(old(self)@.total),
            ..old(self)@.cleaned(now as int)
        }));
        let second: i64 = seconds(now);
        let k: usize = self.find(key);
        if k < self.entries.len() {
            assert(counted.entries[k as int] == self.entries@[k as int].model());
            if (second as i128) < self.entries[k].expires {
                let payload = self.entries[k].payload.clone();
                if self.size.is_some() {
                    let entry = self.entries.remove(k);
                    assert(models(self.entries@) =~= counted.entries.remove(k as int));
                    self.entries.push(entry);
                    assert(models(self.entries@) =~= counted.entries.remove(k as int).push(counted.entries[k as int]));
                }
                if self.total_hit_count < self.total_count {
                    self.total_hit_count = self.total_hit_count + 1;
                }
                return Some(payload);
            }
            return None;
        }
        if let Some(size) = self.size {
            if self.entries.len() >= size {
                self.remove_oldest_entry();
            }
        }
        None
    }

    /// Store the payload for `key` as the most recently used entry.
    pub fn store(&mut self, key: &str, payload: Arc<T>, now: i64)
        requires
            old(self)@.wf(),
        ensures
            final(self)@.wf(),
            final(self)@ == old(self)@.stored(key@, *payload, now as int),
    {
        proof {
            lemma_store_keeps_invariant(self@, key@, shared_value(payload), now as int);
        }
        let ghost before = self@;
        let k: usize = self.find(key);
        if k < self.entries.len() {
            let _ = self.entries.remove(k);
            assert(models(self.entries@) =~= before.entries.remove(k as int));
        } else if let Some(size) = self.size {
            if self.entries.len() >= size {
                self.remove_oldest_entry();
            }
        }
        let ghost room = self@;
        let expires: i128 = seconds(now) as i128 + self.ttl_seconds as i128;
        let entry = CacheEntry { key: String::from_str(key), payload, expires };
        self.entries.push(entry);
        assert(models(self.entries@) =~= room.entries.push(entry.model()));
    }

    /// Fetch `key`, computing the payload with `creator` on a miss.
    pub fn get_at<F: FnOnce() -> T>(&mut self, key: &str, creator: F, now: i64) -> (r: Arc<T>)
        requires
            old(self)@.wf(),
            creator.requires(()),
        ensures
            final(self)@.wf(),
            old(self)@.cleaned(now as int).valid(key@, now as int) matches Some(p) ==> *r == p && final(self)@
                == old(self)@.looked_up(key@, now as int),
            old(self)@.cleaned(now as int).valid(key@, now as int) is None ==> creator.ensures((), *r) && final(self)@
                == old(self)@.looked_up(key@, now as int).stored(key@, *r, now as int),
    {
        match self.lookup(key, now) {
            Some(payload) => payload,
            None => {
                let payload = Arc::new(creator());
                self.store(key, payload.clone(), now);
                payload
            },
        }
    }

    /// [`ObjectCache::get_at`] for producers that can fail: on `Err` nothing is
    /// stored and the error is returned.
    pub fn get_result<F: FnOnce() -> Result<T, E>, E>(&mut self, key: &str, creator: F, now: i64) -> (r: Result<
        Arc<T>,
        E,
    >)
        requires
            old(self)@.wf(),
            creator.requires(()),
        ensures
            final(self)@.wf(),
            old(self)@.cleaned(now as int).valid(key@, now as int) matches Some(p) ==> (r matches Ok(v) && *v == p)
                && final(self)@ == old(self)@.looked_up(key@, now as int),
            old(self)@.cleaned(now as int).valid(key@, now as int) is None ==> match r {
                Ok(v) => creator.ensures((), Ok(*v)) && final(self)@ == old(self)@.looked_up(
                    key@,
                    now as int,
                ).stored(key@, *v, now as int),
                Err(e) => creator.ensures((), Err(e)) && final(self)@ == old(self)@.looked_up(key@, now as int),
            },
    {
        match self.lookup(key, now) {
            Some(payload) => Ok(payload),
            None => match creator() {
                Ok(value) => {
                    let payload = Arc::new(value);
                    self.store(key, payload.clone(), now);
                    Ok(payload)
                },
                Err(e) => Err(e),
            },
        }
    }

    /// Hits and lookups so far.
    pub fn get_ratio(&self) -> (r: HitRatio)
        ensures
            r.hits == self@.hits,
            r.total == self@.total,
    {
        HitRatio { hits: self.total_hit_count, total: self.total_count }
    }

    /// Number of stored entries.
    pub fn get_size(&self) -> (r: usize)
        ensures
            r == self@.entries.len(),
    {
        self.entries.len()
    }

    /// Seconds that an entry stays valid.
    pub fn get_time_to_live(&self) -> (r: i64)
        ensures
            r == self@.ttl,
    {
        self.ttl_seconds
    }

    /// Forget all entries and counters.
    pub fn clear(&mut self)
        ensures
            final(self)@.wf(),
            final(self)@ == (CacheModel {
                entries: Seq::<EntryModel<T>>::empty(),
                last_cleanup: 0,
                total: 0,
                hits: 0,
                ..old(self)@
            }),
    {
        self.entries = Vec::new();
        self.last_cleanup = 0;
        self.total_count = 0;
        self.total_hit_count = 0;
        assert(self@.entries =~= Seq::<EntryModel<T>>::empty());
    }
}

/// The service-wide cache layout: short time to live for the current minute,
/// long time to live for history; the local grids also limit their number of
/// entries.
#[verifier::reject_recursive_types(T)]
pub struct ServiceCache<T> {
    strikes_grid: ObjectCache<T>,
    strikes_history_grid: ObjectCache<T>,
    global_strikes_grid: ObjectCache<T>,
    global_strikes_history_grid: ObjectCache<T>,
    local_strikes_grid: ObjectCache<T>,
    local_strikes_history_grid: ObjectCache<T>,
    /// Shared histogram cache.
    pub histogram: ObjectCache<T>,
}

/// Time between two cleanups, in microseconds.
pub const CLEANUP_PERIOD: i64 = 300_000_000;

/// Time to live of current data, in seconds.
pub const TTL_SHORT: i64 = 20;

/// Time to live of history, in seconds.
pub const TTL_LONG: i64 = 60;

/// Limit on the entries of current local grids.
pub const LOCAL_CACHE_SIZE_CURRENT: usize = 100;

/// Limit on the entries of local grid history.
pub const LOCAL_CACHE_SIZE_HISTORY: usize = 400;

/// The contents of a [`ServiceCache`].
pub struct ServiceCacheModel<T> {
    pub strikes: CacheModel<T>,
    pub strikes_history: CacheModel<T>,
    pub global: CacheModel<T>,
    pub global_history: CacheModel<T>,
    pub local: CacheModel<T>,
    pub local_history: CacheModel<T>,
    pub histogram: CacheModel<T>,
}

/// An empty cache with the given settings.
pub open spec fn empty_cache<T>(ttl: int, size: Option<nat>, period: Option<int>) -> CacheModel<T> {
    CacheModel { ttl, size, period, entries: Seq::empty(), last_cleanup: 0, total: 0, hits: 0 }
}

impl<T> ServiceCacheModel<T> {
    /// The invariant of every cache.
    pub open spec fn wf(self) -> bool {
        &&& self.strikes.wf()
        &&& self.strikes_history.wf()
        &&& self.global.wf()
        &&& self.global_history.wf()
        &&& self.local.wf()
        &&& self.local_history.wf()
        &&& self.histogram.wf()
    }

    /// The layout with nothing stored.
    pub open spec fn fresh(period: Option<int>) -> ServiceCacheModel<T> {
        ServiceCacheModel {
            strikes: empty_cache(TTL_SHORT as int, None, period),
            strikes_history: empty_cache(TTL_LONG as int, None, period),
            global: empty_cache(TTL_SHORT as int, None, period),
            global_history: empty_cache(TTL_LONG as int, None, period),
            local: empty_cache(TTL_SHORT as int, Some(LOCAL_CACHE_SIZE_CURRENT as nat), period),
            local_history: empty_cache(TTL_LONG as int, Some(LOCAL_CACHE_SIZE_HISTORY as nat), period),
            histogram: empty_cache(TTL_LONG as int, None, period),
        }
    }
}

impl<T> View for ServiceCache<T> {
    type V = ServiceCacheModel<T>;

    closed spec fn view(&self) -> ServiceCacheModel<T> {
        ServiceCacheModel {
            strikes: self.strikes_grid@,
            strikes_history: self.strikes_history_grid@,
            global: self.global_strikes_grid@,
            global_history: self.global_strikes_history_grid@,
            local: self.local_strikes_grid@,
            local_history: self.local_strikes_history_grid@,
            histogram: self.histogram@,
        }
    }
}

impl<T> ServiceCache<T> {
    /// The layout with the usual cleanup period.
    pub fn new() -> (r: ServiceCache<T>)
        ensures
            r@.wf(),
            r@ == ServiceCacheModel::<T>::fresh(Some(CLEANUP_PERIOD as int)),
    {
        Self::new_with_cleanup(Some(CLEANUP_PERIOD))
    }

    /// The layout with the given cleanup period.
    pub fn new_with_cleanup(cleanup_period: Option<i64>) -> (r: ServiceCache<T>)
        ensures
            r@.wf(),
            r@ == ServiceCacheModel::<T>::fresh(
                match cleanup_period {
                    Some(p) => Some(p as int),
                    None => None,
                },
            ),
    {
        ServiceCache {
            strikes_grid: ObjectCache::new(TTL_SHORT, None, cleanup_period),
            strikes_history_grid: ObjectCache::new(TTL_LONG, None, cleanup_period),
            global_strikes_grid: ObjectCache::new(TTL_SHORT, None, cleanup_period),
            global_strikes_history_grid: ObjectCache::new(TTL_LONG, None, cleanup_period),
            local_strikes_grid: ObjectCache::new(TTL_SHORT, Some(LOCAL_CACHE_SIZE_CURRENT), cleanup_period),
            local_strikes_history_grid: ObjectCache::new(TTL_LONG, Some(LOCAL_CACHE_SIZE_HISTORY), cleanup_period),
            histogram: ObjectCache::new(TTL_LONG, None, cleanup_period),
        }
    }

    /// The current-minute cache for an offset of 0, the history cache
    /// otherwise.
    pub fn strikes(&self, minute_offset: i64) -> (r: &ObjectCache<T>)
        ensures
            r@ == (if minute_offset == 0 {
                self@.strikes
            } else {
                self@.strikes_history
            }),
    {
        if minute_offset == 0 {
            &self.strikes_grid
        } else {
            &self.strikes_history_grid
        }
    }

    /// [`ServiceCache::strikes`] for the world-wide grid.
    pub fn global_strikes(&self, minute_offset: i64) -> (r: &ObjectCache<T>)
        ensures
            r@ == (if minute_offset == 0 {
                self@.global
            } else {
                self@.global_history
            }),
    {
        if minute_offset == 0 {
            &self.global_strikes_grid
        } else {
            &self.global_strikes_history_grid
        }
    }

    /// [`ServiceCache::strikes`] for the local grids.
    pub fn local_strikes(&self, minute_offset: i64) -> (r: &ObjectCache<T>)
        ensures
            r@ == (if minute_offset == 0 {
                self@.local
            } else {
                self@.local_history
            }),
    {
        if minute_offset == 0 {
            &self.local_strikes_grid
        } else {
            &self.local_strikes_history_grid
        }
    }

    /// The cache of the histograms.
    pub fn histograms(&self) -> (r: &ObjectCache<T>)
        ensures
            r@ == self@.histogram,
    {
        &self.histogram
    }

    /// [`ServiceCache::histograms`], to be changed.
    pub fn histograms_mut(&mut self) -> (r: &mut ObjectCache<T>)
        ensures
            r@ == old(self)@.histogram,
            final(self)@ == (ServiceCacheModel { histogram: final(r)@, ..old(self)@ }),
    {
        &mut self.histogram
    }

    /// [`ServiceCache::strikes`], to be changed.
    pub fn strikes_mut(&mut self, minute_offset: i64) -> (r: &mut ObjectCache<T>)
        ensures
            r@ == (if minute_offset == 0 {
                old(self)@.strikes
            } else {
                old(self)@.strikes_history
            }),
            final(self)@ == (if minute_offset == 0 {
                ServiceCacheModel { strikes: final(r)@, ..old(self)@ }
            } else {
                ServiceCacheModel { strikes_history: final(r)@, ..old(self)@ }
            }),
    {
        if minute_offset == 0 {
            &mut self.strikes_grid
        } else {
            &mut self.strikes_history_grid
        }
    }

    /// [`ServiceCache::global_strikes`], to be changed.
    pub fn global_strikes_mut(&mut self, minute_offset: i64) -> (r: &mut ObjectCache<T>)
        ensures
            r@ == (if minute_offset == 0 {
                old(self)@.global
            } else {
                old(self)@.global_history
            }),
            final(self)@ == (if minute_offset == 0 {
                ServiceCacheModel { global: final(r)@, ..old(self)@ }
            } else {
                ServiceCacheModel { global_history: final(r)@, ..old(self)@ }
            }),
    {
        if minute_offset == 0 {
            &mut self.global_strikes_grid
        } else {
            &mut self.global_strikes_history_grid
        }
    }

    /// [`ServiceCache::local_strikes`], to be changed.
    pub fn local_strikes_mut(&mut self, minute_offset: i64) -> (r: &mut ObjectCache<T>)
        ensures
            r@ == (if minute_offset == 0 {
                old(self)@.local
            } else {
                old(self)@.local_history
            }),
            final(self)@ == (if minute_offset == 0 {
                ServiceCacheModel { local: final(r)@, ..old(self)@ }
            } else {
                ServiceCacheModel { local_history: final(r)@, ..old(self)@ }
            }),
    {
        if minute_offset == 0 {
            &mut self.local_strikes_grid
        } else {
            &mut self.local_strikes_history_grid
        }
    }
}

// ---------------------------------------------------------------------
// laws
// ---------------------------------------------------------------------

proof fn lemma_entry_of<T>(entries: Seq<EntryModel<T>>, key: Seq<char>, i: int)
    requires
        0 <= i <= entries.len(),
    ensures
        i <= entry_of(entries, key, i) <= entries.len(),
        entry_of(entries, key, i) < entries.len() ==> entries[entry_of(entries, key, i)].key == key,
        forall|j: int| i <= j < entry_of(entries, key, i) ==> (#[trigger] entries[j]).key != key,
    decreases entries.len() - i,
{
    if i < entries.len() && entries[i].key != key {
        lemma_entry_of(entries, key, i + 1);
    }
}

proof fn lemma_entry_of_is<T>(entries: Seq<EntryModel<T>>, key: Seq<char>, i: int, k: int)
    requires
        0 <= i <= k < entries.len(),
        entries[k].key == key,
        forall|j: int| i <= j < k ==> (#[trigger] entries[j]).key != key,
    ensures
        entry_of(entries, key, i) == k,
    decreases k - i,
{
    if i < k {
        lemma_entry_of_is(entries, key, i + 1, k);
    }
}

/// Every kept entry comes from its list, and kept entries keep their order.
proof fn lemma_unexpired<T>(entries: Seq<EntryModel<T>>, second: int, n: int)
    requires
        0 <= n <= entries.len(),
        forall|i: int, j: int| 0 <= i < j < entries.len() ==> (#[trigger] entries[i]).key != (#[trigger] entries[j]).key,
    ensures
        unexpired(entries, second, n).len() <= n,
        forall|i: int|
            0 <= i < unexpired(entries, second, n).len() ==> second < (#[trigger] unexpired(
                entries,
                second,
                n,
            )[i]).expires && exists|k: int| 0 <= k < n && entries[k] == unexpired(entries, second, n)[i],
        forall|i: int, j: int|
            0 <= i < j < unexpired(entries, second, n).len() ==> (#[trigger] unexpired(entries, second, n)[i]).key != (
            #[trigger] unexpired(entries, second, n)[j]).key,
    decreases n,
{
    if n > 0 {
        lemma_unexpired(entries, second, n - 1);
        let before = unexpired(entries, second, n - 1);
        let after = unexpired(entries, second, n);
        if second < entries[n - 1].expires {
            assert forall|i: int| 0 <= i < after.len() implies second < (#[trigger] after[i]).expires && exists|k: int|
                0 <= k < n && entries[k] == after[i] by {
                if i < before.len() {
                    assert(after[i] == before[i]);
                    let k = choose|k: int| 0 <= k < n - 1 && entries[k] == before[i];
                    assert(entries[k] == after[i]);
                } else {
                    assert(entries[n - 1] == after[i]);
                }
            }
            assert forall|i: int, j: int| 0 <= i < j < after.len() implies (#[trigger] after[i]).key != (
            #[trigger] after[j]).key by {
                assert(after[i] == before[i]);
                let k = choose|k: int| 0 <= k < n - 1 && entries[k] == before[i];
                if j < before.len() {
                    assert(after[j] == before[j]);
                } else {
                    assert(entries[k].key != entries[n - 1].key);
                }
            }
        } else {
            assert forall|i: int| 0 <= i < after.len() implies second < (#[trigger] after[i]).expires && exists|k: int|
                0 <= k < n && entries[k] == after[i] by {
                let k = choose|k: int| 0 <= k < n - 1 && entries[k] == before[i];
                assert(entries[k] == after[i]);
            }
        }
    }
}

proof fn lemma_cleaned<T>(c: CacheModel<T>, now: int)
    requires
        c.wf(),
    ensures
        c.cleaned(now).wf(),
        c.cleaned(now).entries.len() <= c.entries.len(),
{
    lemma_unexpired(c.entries, second_of(now), c.entries.len() as int);
}

/// A lookup keeps the invariant of the cache.
pub proof fn lemma_lookup_keeps_invariant<T>(c: CacheModel<T>, key: Seq<char>, now: int)
    requires
        c.wf(),
    ensures
        c.looked_up(key, now).wf(),
{
    lemma_cleaned(c, now);
    let d = c.cleaned(now);
    lemma_entry_of(d.entries, key, 0);
}

/// Storing keeps the invariant of the cache.
pub proof fn lemma_store_keeps_invariant<T>(c: CacheModel<T>, key: Seq<char>, payload: T, now: int)
    requires
        c.wf(),
    ensures
        c.stored(key, payload, now).wf(),
{
    lemma_entry_of(c.entries, key, 0);
}

/// What was stored is found, until its time to live is over.
pub proof fn a_stored_payload_is_served_until_it_expires<T>(
    c: CacheModel<T>,
    key: Seq<char>,
    payload: T,
    now: int,
    later: int,
)
    requires
        c.wf(),
    ensures
        second_of(later) < second_of(now) + c.ttl ==> c.stored(key, payload, now).valid(key, later) == Some(payload),
        second_of(later) >= second_of(now) + c.ttl ==> c.stored(key, payload, now).valid(key, later) is None,
{
    lemma_entry_of(c.entries, key, 0);
    let s = c.stored(key, payload, now);
    lemma_entry_of_is(s.entries, key, 0, s.entries.len() - 1);
}

/// A cleanup does not change what is found.
pub proof fn a_cleanup_drops_no_valid_entry<T>(c: CacheModel<T>, key: Seq<char>, now: int)
    requires
        c.wf(),
    ensures
        c.cleaned(now).valid(key, now) == c.valid(key, now),
{
    if c.cleaned(now) != c {
        let second = second_of(now);
        let n = c.entries.len() as int;
        lemma_unexpired(c.entries, second, n);
        lemma_entry_of(c.entries, key, 0);
        let kept = unexpired(c.entries, second, n);
        lemma_entry_of(kept, key, 0);
        let k = entry_of(c.entries, key, 0);
        let m = entry_of(kept, key, 0);
        if m < kept.len() {
            let origin = choose|i: int| 0 <= i < n && c.entries[i] == kept[m];
            assert(c.entries[origin].key == key);
            assert(origin == k);
        }
        if k < n && second < c.entries[k].expires {
            lemma_unexpired_keeps(c.entries, second, n, k);
            let i = choose|i: int| 0 <= i < kept.len() && kept[i] == c.entries[k];
            assert(kept[i].key == key);
            assert(m <= i);
        }
    }
}

proof fn lemma_unexpired_keeps<T>(entries: Seq<EntryModel<T>>, second: int, n: int, k: int)
    requires
        0 <= k < n <= entries.len(),
        second < entries[k].expires,
    ensures
        exists|i: int| 0 <= i < unexpired(entries, second, n).len() && #[trigger] unexpired(entries, second, n)[i] == entries[k],
    decreases n,
{
    let after = unexpired(entries, second, n);
    if k == n - 1 {
        assert(after[after.len() - 1] == entries[k]);
    } else {
        lemma_unexpired_keeps(entries, second, n - 1, k);
        let before = unexpired(entries, second, n - 1);
        let i = choose|i: int| 0 <= i < before.len() && #[trigger] before[i] == entries[k];
        assert(after[i] == before[i]);
    }
}

/// A lookup of one key and the store of its payload leave what is found under
/// another key alone, unless the limit on the number of entries makes that
/// entry leave.
pub proof fn other_keys_keep_their_payload<T>(
    c: CacheModel<T>,
    key: Seq<char>,
    other: Seq<char>,
    payload: T,
    now: int,
)
    requires
        c.wf(),
        key != other,
        c.size is None,
    ensures
        c.stored(key, payload, now).valid(other, now) == c.valid(other, now),
{
    let s = c.stored(key, payload, now);
    lemma_store_keeps_invariant(c, key, payload, now);
    lemma_entry_of(c.entries, key, 0);
    lemma_entry_of(c.entries, other, 0);
    lemma_entry_of(s.entries, other, 0);
    let k = entry_of(c.entries, key, 0);
    let m = entry_of(c.entries, other, 0);
    let p = entry_of(s.entries, other, 0);
    if m < c.entries.len() {
        let place = if k < m {
            m - 1
        } else {
            m
        };
        assert(s.entries[place] == c.entries[m]);
        assert(p == place) by {
            if p < place {
                assert(s.entries[p].key != s.entries[place].key);
            }
        }
    } else if p < s.entries.len() {
        let origin = if k < c.entries.len() && p >= k {
            p + 1
        } else {
            p
        };
        if p < s.entries.len() - 1 {
            assert(s.entries[p] == c.entries[origin]);
        }
    }
}

/// A payload that was stored at `now` is served for as many seconds as the cache
/// says, counted in whole seconds, and not longer.
pub proof fn payloads_live_for_their_seconds<T>(c: CacheModel<T>, key: Seq<char>, payload: T, now: int, later: int)
    requires
        c.wf(),
        0 <= now <= later,
    ensures
        later < (now / 1_000_000 + c.ttl) * 1_000_000 ==> c.stored(key, payload, now).valid(key, later) == Some(payload),
        later >= (now / 1_000_000 + c.ttl) * 1_000_000 ==> c.stored(key, payload, now).valid(key, later) is None,
{
    a_stored_payload_is_served_until_it_expires(c, key, payload, now, later);
    let t = now / 1_000_000 + c.ttl;
    assert(later < t * 1_000_000 <==> later / 1_000_000 < t);
}

/// A full cache makes room by dropping the entry that was used least recently:
/// an entry that was just looked up stays, and so does every other one.
pub proof fn the_least_recently_used_entry_is_dropped<T>(
    c: CacheModel<T>,
    used: Seq<char>,
    key: Seq<char>,
    payload: T,
    now: int,
)
    requires
        c.wf(),
        c.period is None,
        c.size matches Some(n) && n >= 2 && c.entries.len() == n,
        c.valid(used, now) is Some,
        entry_of(c.entries, key, 0) == c.entries.len(),
    ensures
        ({
            let looked = c.looked_up(used, now);
            let after = looked.stored(key, payload, now);
            &&& after.entries.len() == c.entries.len()
            &&& after.entries.last().key == key
            &&& after.entries[after.entries.len() - 2].key == used
            &&& after.entries[after.entries.len() - 2].payload == c.valid(used, now)->0
            &&& forall|i: int|
                1 <= i < looked.entries.len() ==> after.entries[i - 1] == #[trigger] looked.entries[i]
        }),
{
    let d = CacheModel { total: count_up(c.total), ..c };
    let k = entry_of(c.entries, used, 0);
    lemma_entry_of(c.entries, used, 0);
    lemma_entry_of(c.entries, key, 0);
    let looked = c.looked_up(used, now);
    lemma_lookup_keeps_invariant(c, used, now);
    assert(looked.entries == c.entries.remove(k).push(c.entries[k]));
    lemma_entry_of(looked.entries, key, 0);
    let m = entry_of(looked.entries, key, 0);
    if m < looked.entries.len() {
        let origin = if m == looked.entries.len() - 1 {
            k
        } else if m < k {
            m
        } else {
            m + 1
        };
        assert(looked.entries[m] == c.entries[origin]);
        assert(c.entries[origin].key == key);
        assert(false);
    }
}

/// A lookup counts as one, and as a hit if and only if it finds a valid
/// payload.
pub proof fn lookups_and_hits_are_counted<T>(c: CacheModel<T>, key: Seq<char>, now: int)
    requires
        0 <= c.hits <= c.total < u64::MAX,
    ensures
        c.looked_up(key, now).total == c.total + 1,
        c.looked_up(key, now).hits == c.hits + (if c.cleaned(now).valid(key, now) is Some {
            1int
        } else {
            0
        }),
{
}

proof fn lemma_kept_entry<T>(entries: Seq<EntryModel<T>>, second: int, n: int, i: int)
    requires
        0 <= n <= entries.len(),
        0 <= i < unexpired(entries, second, n).len(),
    ensures
        second < unexpired(entries, second, n)[i].expires,
    decreases n,
{
    if second < entries[n - 1].expires {
        if i < unexpired(entries, second, n - 1).len() {
            lemma_kept_entry(entries, second, n - 1, i);
        }
    } else {
        lemma_kept_entry(entries, second, n - 1, i);
    }
}

/// A cleanup is made when the period is over since the last one, and leaves no
/// expired entry; until then nothing is dropped.
pub proof fn cleanups_drop_what_is_expired<T>(c: CacheModel<T>, now: int, period: int, i: int)
    requires
        c.period == Some(period),
    ensures
        now > c.last_cleanup + period && 0 <= i < c.cleaned(now).entries.len() ==> number::quotient(now, 1_000_000)
            < c.cleaned(now).entries[i].expires,
        now > c.last_cleanup + period ==> c.cleaned(now).last_cleanup == now,
        now <= c.last_cleanup + period ==> c.cleaned(now) == c,
{
    if now > c.last_cleanup + period && 0 <= i < c.cleaned(now).entries.len() {
        lemma_kept_entry(c.entries, second_of(now), c.entries.len() as int, i);
    }
}

/// The caches of current grids keep them for 20 seconds, those of earlier ones
/// and of histograms for 60; of local grids at most 100 current and 400 earlier
/// ones are kept.  They are cleaned up every five minutes.
pub proof fn caches_have_their_limits<T>(period: Option<int>)
    ensures
        ({
            let fresh = ServiceCacheModel::<T>::fresh(period);
            &&& fresh.strikes.ttl == 20 && fresh.global.ttl == 20 && fresh.local.ttl == 20
            &&& fresh.strikes_history.ttl == 60 && fresh.global_history.ttl == 60 && fresh.local_history.ttl == 60
            &&& fresh.histogram.ttl == 60
            &&& fresh.local.size == Some(100nat) && fresh.local_history.size == Some(400nat)
            &&& fresh.strikes.size is None && fresh.global.size is None && fresh.histogram.size is None
            &&& fresh.strikes.period == period && fresh.local.period == period && fresh.histogram.period == period
            &&& fresh.strikes.entries.len() == 0 && fresh.global.entries.len() == 0 && fresh.local.entries.len() == 0
        }),
        CLEANUP_PERIOD == 5 * 60 * 1_000_000,
{
}

} // verus!
