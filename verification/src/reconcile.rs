//! The reconciliation cache: the last snapshot inspected from each runtime,
//! when it was taken, and whether it has gone stale.
use vstd::prelude::*;
use crate::clock::now_millis;
use crate::keyed::{
    has_key, is_first_key, key_index, keys_distinct, lemma_first_key_unique, lemma_upsert, upsert,
};
use crate::model::{RuntimeId, RuntimeMemorySnapshot, RuntimeSnapshot};
use crate::text::{owned, str_eq};

verus! {

/// How long a reconciled snapshot stays fresh by default, in milliseconds.
pub const DEFAULT_RECONCILIATION_TTL_MS: u64 = 5000;

/// A runtime snapshot as the reconciliation loop last recorded it;
/// `last_inspected` is in milliseconds since the Unix epoch.
#[derive(Debug, PartialEq, Eq)]
pub struct ReconciledSnapshot {
    pub snapshot: RuntimeSnapshot,
    pub last_inspected: i64,
    pub last_error: Option<String>,
    pub is_stale: bool,
}

impl ReconciledSnapshot {
    /// Field-wise equality, the snapshot compared by its contents.
    pub open spec fn same(self, o: Self) -> bool {
        &&& self.snapshot.same(o.snapshot)
        &&& self.last_inspected == o.last_inspected
        &&& self.last_error == o.last_error
        &&& self.is_stale == o.is_stale
    }
}

impl Clone for ReconciledSnapshot {
    fn clone(&self) -> (r: Self)
        ensures
            r.same(*self),
    {
        ReconciledSnapshot {
            snapshot: self.snapshot.clone(),
            last_inspected: self.last_inspected,
            last_error: self.last_error.clone(),
            is_stale: self.is_stale,
        }
    }
}

impl ReconciledSnapshot {
    /// A snapshot inspected just now without error.
    pub fn fresh(snapshot: RuntimeSnapshot) -> (r: Self)
        ensures
            r.snapshot == snapshot,
            r.last_error is None,
            !r.is_stale,
    {
        ReconciledSnapshot { snapshot, last_inspected: now_millis(), last_error: None, is_stale: false }
    }

    /// A snapshot recorded just now but already known to be stale.
    pub fn stale(snapshot: RuntimeSnapshot, last_error: Option<String>) -> (r: Self)
        ensures
            r.snapshot == snapshot,
            r.last_error == last_error,
            r.is_stale,
    {
        ReconciledSnapshot { snapshot, last_inspected: now_millis(), last_error, is_stale: true }
    }

    /// What is recorded when inspecting `runtime_id` failed with `error`: an
    /// unavailable runtime with nothing observed, stale, carrying the error.
    pub fn from_error(runtime_id: RuntimeId, error: String) -> (r: Self)
        ensures
            r.snapshot.runtime_id == runtime_id,
            !r.snapshot.available,
            r.snapshot.residents@.len() == 0,
            r.snapshot.configured_models@.len() == 0,
            r.snapshot.memory == RuntimeMemorySnapshot::none_reported(),
            r.snapshot.active_requests@.len() == 0,
            r.last_error == Some(error),
            r.is_stale,
    {
        ReconciledSnapshot {
            snapshot: RuntimeSnapshot::unavailable(runtime_id),
            last_inspected: now_millis(),
            last_error: Some(error),
            is_stale: true,
        }
    }
}

/// `ttl` read as a signed 64-bit integer (two's complement), the bound the
/// age of a snapshot is compared with.
pub open spec fn signed_ttl(ttl: u64) -> int {
    if ttl <= i64::MAX {
        ttl as int
    } else {
        ttl - 0x1_0000_0000_0000_0000
    }
}

/// Whether `r`, looked at `now`, counts as stale: it was recorded stale, or
/// it is older than `ttl` milliseconds.
pub open spec fn stale_at(r: ReconciledSnapshot, now: i64, ttl: u64) -> bool {
    r.is_stale || now - r.last_inspected > signed_ttl(ttl)
}

/// `e` is the cache entry `entry` as seen at `now`: the same, but stale when
/// `entry` is stale or older than the TTL.
pub open spec fn seen_at(e: ReconciledSnapshot, entry: ReconciledSnapshot, now: i64, ttl: u64) -> bool {
    e.same(ReconciledSnapshot { is_stale: stale_at(entry, now, ttl), ..entry })
}

/// `r` lists the cache entries `entries`, in order, as seen at `now`.
pub open spec fn all_seen_at(r: Seq<ReconciledSnapshot>, entries: Seq<(Seq<char>, ReconciledSnapshot)>, now: i64, ttl: u64) -> bool {
    &&& r.len() == entries.len()
    &&& forall|i: int| 0 <= i < r.len() ==> #[trigger] seen_at(r[i], entries[i].1, now, ttl)
}

/// The runtime id an entry of the cache is kept under.
pub open spec fn entry_key() -> spec_fn((Seq<char>, ReconciledSnapshot)) -> Seq<char> {
    |e: (Seq<char>, ReconciledSnapshot)| e.0
}

/// The cache of reconciled snapshots, one per runtime id.
#[derive(Debug)]
pub struct Reconciler {
    cache: Vec<(String, ReconciledSnapshot)>,
    ttl_ms: u64,
}

impl Reconciler {
    /// The cached entries by runtime id, in the order runtimes were first
    /// recorded.
    pub closed spec fn entries(&self) -> Seq<(Seq<char>, ReconciledSnapshot)> {
        self.cache@.map_values(|e: (String, ReconciledSnapshot)| (e.0@, e.1))
    }

    /// How long a snapshot stays fresh, in milliseconds.
    pub closed spec fn ttl(&self) -> u64 {
        self.ttl_ms
    }

    /// No runtime id is cached twice.
    #[verifier::type_invariant]
    spec fn ids_distinct(self) -> bool {
        keys_distinct(self.entries(), entry_key())
    }

    /// Whether runtime `id` has an entry.
    pub open spec fn holds(&self, id: Seq<char>) -> bool {
        has_key(self.entries(), entry_key(), id)
    }

    /// The entry of runtime `id` (meaningful when `holds(id)`).
    pub open spec fn entry(&self, id: Seq<char>) -> ReconciledSnapshot {
        self.entries()[key_index(self.entries(), entry_key(), id)].1
    }

    /// An empty cache whose snapshots stay fresh for `ttl_ms` milliseconds.
    pub fn new(ttl_ms: u64) -> (r: Self)
        ensures
            r.entries().len() == 0,
            r.ttl() == ttl_ms,
    {
        Reconciler { cache: Vec::new(), ttl_ms }
    }

    /// The index of runtime `id`'s entry, if cached.
    fn find(&self, id: &str) -> (r: Option<usize>)
        ensures
            match r {
                Some(i) => is_first_key(self.entries(), entry_key(), id@, i as int)
                    && key_index(self.entries(), entry_key(), id@) == i,
                None => !self.holds(id@),
            },
    {
        let ghost es = self.entries();
        let mut i: usize = 0;
        while i < self.cache.len()
            invariant
                i <= self.cache@.len(),
                es == self.entries(),
                forall|j: int| 0 <= j < i ==> (entry_key())(#[trigger] es[j]) != id@,
            decreases self.cache@.len() - i,
        {
            if str_eq(self.cache[i].0.as_str(), id) {
                proof {
                    assert(is_first_key(es, entry_key(), id@, i as int));
                    lemma_first_key_unique(es, entry_key(), id@, i as int);
                }
                return Some(i);
            }
            i = i + 1;
        }
        None
    }

    /// Writes `entry` under runtime `id`, replacing what was cached for it.
    fn put(&mut self, id: &str, entry: ReconciledSnapshot)
        ensures
            final(self).entries() == upsert(old(self).entries(), entry_key(), (id@, entry)),
            final(self).ttl() == old(self).ttl(),
            keys_distinct(final(self).entries(), entry_key()),
    {
        proof {
            use_type_invariant(&*self);
        }
        let ghost before = self.entries();
        let ghost e = (id@, entry);
        proof {
            lemma_upsert(before, entry_key(), e);
        }
        let found = self.find(id);
        let mut cache: Vec<(String, ReconciledSnapshot)> = Vec::new();
        std::mem::swap(&mut cache, &mut self.cache);
        match found {
            Some(i) => {
                cache.set(i, (owned(id), entry));
            },
            None => {
                cache.push((owned(id), entry));
            },
        }
        proof {
            assert(cache@.map_values(|e: (String, ReconciledSnapshot)| (e.0@, e.1)) =~= upsert(before, entry_key(), e));
        }
        self.cache = cache;
    }

    /// Records a fresh snapshot of runtime `runtime_id` taken at `now`.
    pub fn update_at(&mut self, runtime_id: &str, snapshot: RuntimeSnapshot, now: i64)
        ensures
            final(self).entries() == upsert(
                old(self).entries(),
                entry_key(),
                (runtime_id@, ReconciledSnapshot { snapshot, last_inspected: now, last_error: None, is_stale: false }),
            ),
            final(self).ttl() == old(self).ttl(),
            keys_distinct(final(self).entries(), entry_key()),
    {
        self.put(runtime_id, ReconciledSnapshot { snapshot, last_inspected: now, last_error: None, is_stale: false });
    }

    /// Records a fresh snapshot of runtime `runtime_id`, taken now.
    pub fn update(&mut self, runtime_id: &str, snapshot: RuntimeSnapshot)
        ensures
            exists|t: i64| final(self).entries() == upsert(
                old(self).entries(),
                entry_key(),
                (runtime_id@, ReconciledSnapshot { snapshot, last_inspected: t, last_error: None, is_stale: false }),
            ),
            final(self).ttl() == old(self).ttl(),
            keys_distinct(final(self).entries(), entry_key()),
    {
        let now = now_millis();
        self.update_at(runtime_id, snapshot, now);
    }

    /// Records that inspecting runtime `runtime_id` failed with `error`.
    pub fn record_error(&mut self, runtime_id: &str, error: String)
        ensures
            keys_distinct(final(self).entries(), entry_key()),
            final(self).ttl() == old(self).ttl(),
            final(self).holds(runtime_id@),
            ({
                let e = final(self).entry(runtime_id@);
                &&& e.snapshot.runtime_id.0@ == runtime_id@
                &&& !e.snapshot.available
                &&& e.snapshot.residents@.len() == 0
                &&& e.snapshot.configured_models@.len() == 0
                &&& e.snapshot.memory == RuntimeMemorySnapshot::none_reported()
                &&& e.snapshot.active_requests@.len() == 0
                &&& e.last_error == Some(error)
                &&& e.is_stale
            }),
            forall|k: Seq<char>| k != runtime_id@ ==> (final(self).holds(k) <==> old(self).holds(k)),
            forall|k: Seq<char>| k != runtime_id@ && old(self).holds(k) ==> final(self).entry(k) == old(self).entry(k),
    {
        let entry = ReconciledSnapshot::from_error(RuntimeId(owned(runtime_id)), error);
        let ghost before = self.entries();
        proof {
            lemma_upsert(before, entry_key(), (runtime_id@, entry));
        }
        self.put(runtime_id, entry);
    }

    /// Marks every cached snapshot stale.
    pub fn mark_stale(&mut self)
        ensures
            final(self).entries().len() == old(self).entries().len(),
            forall|i: int| 0 <= i < old(self).entries().len() ==> {
                &&& (#[trigger] final(self).entries()[i]).0 == old(self).entries()[i].0
                &&& final(self).entries()[i].1 == (ReconciledSnapshot { is_stale: true, ..old(self).entries()[i].1 })
            },
            final(self).ttl() == old(self).ttl(),
            keys_distinct(final(self).entries(), entry_key()),
    {
        proof {
            use_type_invariant(&*self);
        }
        let ghost before = self.entries();
        let mut cache: Vec<(String, ReconciledSnapshot)> = Vec::new();
        std::mem::swap(&mut cache, &mut self.cache);
        let ghost view_of = |e: (String, ReconciledSnapshot)| (e.0@, e.1);
        assert(cache@.map_values(view_of) =~= before);
        let mut i: usize = 0;
        while i < cache.len()
            invariant
                i <= cache@.len(),
                cache@.len() == before.len(),
                view_of == (|e: (String, ReconciledSnapshot)| (e.0@, e.1)),
                forall|j: int| 0 <= j < before.len() ==> (#[trigger] cache@.map_values(view_of)[j]).0 == before[j].0,
                forall|j: int| 0 <= j < i ==> (#[trigger] cache@.map_values(view_of)[j]).1 == (ReconciledSnapshot { is_stale: true, ..before[j].1 }),
                forall|j: int| i <= j < before.len() ==> (#[trigger] cache@.map_values(view_of)[j]).1 == before[j].1,
            decreases cache@.len() - i,
        {
            let ghost prev = cache@;
            let ghost prev_entries = cache@.map_values(view_of);
            let removed = cache.remove(i);
            proof {
                assert(removed == prev[i as int]);
                assert(prev_entries[i as int] == (prev[i as int].0@, prev[i as int].1));
            }
            let (name, mut entry) = removed;
            entry.is_stale = true;
            let ghost newe = (name, entry);
            cache.insert(i, (name, entry));
            proof {
                assert(cache@ =~= prev.update(i as int, newe));
                assert(cache@.map_values(view_of) =~= prev_entries.update(i as int, (newe.0@, newe.1)));
                assert forall|j: int| 0 <= j < before.len() implies (#[trigger] cache@.map_values(view_of)[j]).0 == before[j].0 by {
                    if j != i {
                        assert(cache@.map_values(view_of)[j] == prev_entries[j]);
                    }
                }
                assert forall|j: int| 0 <= j < i + 1 implies (#[trigger] cache@.map_values(view_of)[j]).1 == (ReconciledSnapshot { is_stale: true, ..before[j].1 }) by {
                    if j != i {
                        assert(cache@.map_values(view_of)[j] == prev_entries[j]);
                    }
                }
            }
            i = i + 1;
        }
        proof {
            let after = cache@.map_values(view_of);
            assert forall|a: int, b: int| 0 <= a < b < after.len() implies (entry_key())(#[trigger] after[a]) != (entry_key())(#[trigger] after[b]) by {
                assert((entry_key())(before[a]) != (entry_key())(before[b]));
            }
        }
        self.cache = cache;
    }

    /// The entry of runtime `runtime_id` as seen at `now`: stale when it was
    /// recorded stale or is older than the TTL.
    pub fn get_at(&self, runtime_id: &str, now: i64) -> (r: Option<ReconciledSnapshot>)
        ensures
            r is Some == self.holds(runtime_id@),
            r matches Some(e) ==> e.same(ReconciledSnapshot {
                is_stale: stale_at(self.entry(runtime_id@), now, self.ttl()),
                ..self.entry(runtime_id@)
            }),
    {
        match self.find(runtime_id) {
            Some(i) => {
                let mut e = self.cache[i].1.clone();
                e.is_stale = self.cache[i].1.is_stale || stale_by_age(self.cache[i].1.last_inspected, now, self.ttl_ms);
                Some(e)
            },
            None => None,
        }
    }

    /// The entry of runtime `runtime_id` as seen now (at the clock's reading
    /// `now`, which the contract leaves open).
    pub fn get(&self, runtime_id: &str) -> (r: Option<ReconciledSnapshot>)
        ensures
            r is Some == self.holds(runtime_id@),
            r matches Some(e) ==> exists|now: i64| #[trigger] seen_at(e, self.entry(runtime_id@), now, self.ttl()),
    {
        let now = now_millis();
        let r = self.get_at(runtime_id, now);
        proof {
            if r is Some {
                assert(seen_at(r->0, self.entry(runtime_id@), now, self.ttl()));
            }
        }
        r
    }

    /// Every entry as seen at `now`, in cache order.
    pub fn all_at(&self, now: i64) -> (r: Vec<ReconciledSnapshot>)
        ensures
            r@.len() == self.entries().len(),
            forall|i: int| 0 <= i < r@.len() ==> (#[trigger] r@[i]).same(ReconciledSnapshot {
                is_stale: stale_at(self.entries()[i].1, now, self.ttl()),
                ..self.entries()[i].1
            }),
    {
        let mut out: Vec<ReconciledSnapshot> = Vec::new();
        let mut i: usize = 0;
        while i < self.cache.len()
            invariant
                i <= self.cache@.len(),
                out@.len() == i,
                forall|j: int| 0 <= j < i ==> (#[trigger] out@[j]).same(ReconciledSnapshot {
                    is_stale: stale_at(self.entries()[j].1, now, self.ttl()),
                    ..self.entries()[j].1
                }),
            decreases self.cache@.len() - i,
        {
            let mut e = self.cache[i].1.clone();
            e.is_stale = self.cache[i].1.is_stale || stale_by_age(self.cache[i].1.last_inspected, now, self.ttl_ms);
            out.push(e);
            i = i + 1;
        }
        out
    }

    /// Every entry as seen now (at one reading `now` of the clock, which the
    /// contract leaves open), in cache order.
    pub fn all(&self) -> (r: Vec<ReconciledSnapshot>)
        ensures
            exists|now: i64| #[trigger] all_seen_at(r@, self.entries(), now, self.ttl()),
    {
        let now = now_millis();
        let r = self.all_at(now);
        proof {
            assert(all_seen_at(r@, self.entries(), now, self.ttl()));
        }
        r
    }

    /// The cached snapshots, in cache order.
    pub fn get_snapshots(&self) -> (r: Vec<RuntimeSnapshot>)
        ensures
            r@.len() == self.entries().len(),
            forall|i: int| 0 <= i < r@.len() ==> (#[trigger] r@[i]).same(self.entries()[i].1.snapshot),
    {
        let mut out: Vec<RuntimeSnapshot> = Vec::new();
        let mut i: usize = 0;
        while i < self.cache.len()
            invariant
                i <= self.cache@.len(),
                out@.len() == i,
                forall|j: int| 0 <= j < i ==> (#[trigger] out@[j]).same(self.entries()[j].1.snapshot),
            decreases self.cache@.len() - i,
        {
            out.push(self.cache[i].1.snapshot.clone());
            i = i + 1;
        }
        out
    }

    /// Whether any runtime has been recorded.
    pub fn has_cache(&self) -> (r: bool)
        ensures
            r == (self.entries().len() > 0),
    {
        self.cache.len() > 0
    }
}

impl Default for Reconciler {
    fn default() -> (r: Self)
        ensures
            r.entries().len() == 0,
            r.ttl() == DEFAULT_RECONCILIATION_TTL_MS,
    {
        Reconciler::new(DEFAULT_RECONCILIATION_TTL_MS)
    }
}

/// Whether a snapshot inspected at `last_inspected` is, at `now`, older than
/// `ttl` milliseconds.
pub fn stale_by_age(last_inspected: i64, now: i64, ttl: u64) -> (r: bool)
    ensures
        r == (now - last_inspected > signed_ttl(ttl)),
{
    let elapsed: i128 = now as i128 - last_inspected as i128;
    let bound: i128 = if ttl <= 9223372036854775807u64 {
        ttl as i128
    } else {
        ttl as i128 - 18446744073709551616i128
    };
    elapsed > bound
}

/// What a read gives back after a write: once a snapshot of `id` taken at
/// `t` is recorded, the entry of `id` holds that snapshot with no error, and
/// it reads as stale at `now` exactly when it is older than the TTL. Other
/// runtimes' entries are untouched.
pub proof fn lemma_read_after_update(r: Reconciler, id: Seq<char>, snapshot: RuntimeSnapshot, t: i64, after: Seq<(Seq<char>, ReconciledSnapshot)>, now: i64)
    requires
        after == upsert(
            r.entries(),
            entry_key(),
            (id, ReconciledSnapshot { snapshot, last_inspected: t, last_error: None, is_stale: false }),
        ),
    ensures
        has_key(after, entry_key(), id),
        after[key_index(after, entry_key(), id)].1.snapshot == snapshot,
        after[key_index(after, entry_key(), id)].1.last_error is None,
        stale_at(after[key_index(after, entry_key(), id)].1, now, r.ttl()) == (now - t > signed_ttl(r.ttl())),
        forall|k: Seq<char>| k != id ==> (has_key(after, entry_key(), k) <==> r.holds(k)),
        forall|k: Seq<char>| k != id && r.holds(k) ==> after[key_index(after, entry_key(), k)] == r.entries()[key_index(r.entries(), entry_key(), k)],
{
    lemma_upsert(
        r.entries(),
        entry_key(),
        (id, ReconciledSnapshot { snapshot, last_inspected: t, last_error: None, is_stale: false }),
    );
}

/// After `mark_stale`, every cached snapshot reads as stale, whatever the
/// time.
pub proof fn lemma_marked_stale_reads_stale(before: Seq<(Seq<char>, ReconciledSnapshot)>, after: Seq<(Seq<char>, ReconciledSnapshot)>, now: i64, ttl: u64)
    requires
        after.len() == before.len(),
        forall|i: int| 0 <= i < before.len() ==> (#[trigger] after[i]).1 == (ReconciledSnapshot { is_stale: true, ..before[i].1 }),
    ensures
        forall|i: int| 0 <= i < after.len() ==> stale_at((#[trigger] after[i]).1, now, ttl),
{
}

} // verus!
