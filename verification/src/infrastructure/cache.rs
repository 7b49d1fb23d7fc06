//! Task results kept for a while: a map from task identifiers to results,
//! each with its own time to live, on a clock that the caller supplies (in
//! nanoseconds, never going back).

use vstd::prelude::*;

use crate::domain::tasks::{TaskResult, same_result};
use crate::external::{duration_from_secs, duration_nanos, nanos_of, secs_duration};

verus! {

/// A cached result, the time it was stored and how long it lives.
#[derive(Debug)]
pub struct CacheEntry {
    /// The cached result.
    pub result: TaskResult,
    /// When the entry was stored, in nanoseconds on the cache's clock.
    pub inserted_at: u128,
    /// How long the entry lives.
    pub ttl: std::time::Duration,
}

/// An entry as written to and read back from the cache file: times in
/// whole seconds of wall-clock time.
#[derive(Debug)]
pub struct StoredEntry {
    /// The task identifier.
    pub key: String,
    /// The cached result.
    pub result: TaskResult,
    /// When the entry was written, in seconds since the Unix epoch.
    pub inserted_at_secs: u64,
    /// Its lifetime in seconds.
    pub ttl_secs: u64,
}

/// The time from `since` to `now`, zero if `now` is earlier.
pub open spec fn elapsed(since: u128, now: u128) -> int {
    if now >= since {
        now - since
    } else {
        0
    }
}

/// An entry has expired at `now` once more than its lifetime has elapsed
/// since it was stored.
pub open spec fn expired(e: CacheEntry, now: u128) -> bool {
    elapsed(e.inserted_at, now) > nanos_of(e.ttl)
}

/// The entries by key; a later entry for a key hides an earlier one.
pub open spec fn entry_map(s: Seq<(String, CacheEntry)>) -> Map<Seq<char>, CacheEntry>
    decreases s.len(),
{
    if s.len() == 0 {
        Map::empty()
    } else {
        entry_map(s.drop_last()).insert(s.last().0@, s.last().1)
    }
}

/// No key occurs twice.
pub open spec fn keys_unique(s: Seq<(String, CacheEntry)>) -> bool {
    forall|i: int, j: int| 0 <= i < j < s.len() ==> (#[trigger] s[i]).0@ != (#[trigger] s[j]).0@
}

/// The age of a stored entry at wall-clock time `now_secs` (zero if it was
/// written later).
pub open spec fn stored_age(e: StoredEntry, now_secs: u64) -> int {
    if now_secs >= e.inserted_at_secs {
        now_secs - e.inserted_at_secs
    } else {
        0
    }
}

/// The entry that a stored entry becomes when read back at wall-clock time
/// `now_secs` and cache-clock time `clock`, its age counted once: stored
/// `age` seconds before the cache clock's now with its whole lifetime; or,
/// when the clock has not run that long, stored at its now with the rest of
/// its lifetime.
pub open spec fn revived(e: StoredEntry, now_secs: u64, clock: u128) -> CacheEntry {
    let age = stored_age(e, now_secs);
    if clock >= age * 1_000_000_000 {
        CacheEntry {
            result: e.result,
            inserted_at: (clock - age * 1_000_000_000) as u128,
            ttl: secs_duration(e.ttl_secs),
        }
    } else {
        CacheEntry { result: e.result, inserted_at: clock, ttl: secs_duration((e.ttl_secs - age) as u64) }
    }
}

/// The cache rebuilt from stored entries: each entry younger than its
/// lifetime is revived, in order; older ones are dropped.
pub open spec fn restored_map(s: Seq<StoredEntry>, now_secs: u64, clock: u128) -> Map<Seq<char>, CacheEntry>
    decreases s.len(),
{
    if s.len() == 0 {
        Map::empty()
    } else {
        let prev = restored_map(s.drop_last(), now_secs, clock);
        let e = s.last();
        if stored_age(e, now_secs) < e.ttl_secs {
            prev.insert(e.key@, revived(e, now_secs, clock))
        } else {
            prev
        }
    }
}

proof fn lemma_entry_map(s: Seq<(String, CacheEntry)>)
    requires
        keys_unique(s),
    ensures
        forall|k: Seq<char>| #[trigger] entry_map(s).contains_key(k) <==> exists|i: int| 0 <= i < s.len() && s[i].0@ == k,
        forall|i: int| 0 <= i < s.len() ==> entry_map(s)[(#[trigger] s[i]).0@] == s[i].1,
        entry_map(s).dom().finite(),
        entry_map(s).dom().len() == s.len(),
    decreases s.len(),
{
    if s.len() > 0 {
        let d = s.drop_last();
        assert(keys_unique(d)) by {
            assert forall|i: int, j: int| 0 <= i < j < d.len() implies (#[trigger] d[i]).0@ != (#[trigger] d[j]).0@ by {
                assert(d[i] == s[i] && d[j] == s[j]);
            }
        }
        lemma_entry_map(d);
        let last = s.last();
        assert(!entry_map(d).contains_key(last.0@)) by {
            if entry_map(d).contains_key(last.0@) {
                let i = choose|i: int| 0 <= i < d.len() && d[i].0@ == last.0@;
                assert(d[i] == s[i]);
                assert(s[i].0@ != s[s.len() - 1].0@);
            }
        }
        assert forall|k: Seq<char>| #[trigger] entry_map(s).contains_key(k) <==> exists|i: int| 0 <= i < s.len() && s[i].0@ == k by {
            if entry_map(s).contains_key(k) {
                if k == last.0@ {
                    assert(s[s.len() - 1].0@ == k);
                } else {
                    assert(entry_map(d).contains_key(k));
                    let i = choose|i: int| 0 <= i < d.len() && d[i].0@ == k;
                    assert(s[i] == d[i]);
                }
            }
            if exists|i: int| 0 <= i < s.len() && s[i].0@ == k {
                let i = choose|i: int| 0 <= i < s.len() && s[i].0@ == k;
                if i < s.len() - 1 {
                    assert(d[i] == s[i]);
                    assert(entry_map(d).contains_key(k));
                }
            }
        }
        assert forall|i: int| 0 <= i < s.len() implies entry_map(s)[(#[trigger] s[i]).0@] == s[i].1 by {
            if i < s.len() - 1 {
                assert(d[i] == s[i]);
                assert(s[i].0@ != last.0@);
            }
        }
        assert(entry_map(s).dom() =~= entry_map(d).dom().insert(last.0@));
    }
}

proof fn lemma_unique_after_remove(s: Seq<(String, CacheEntry)>, i: int)
    requires
        keys_unique(s),
        0 <= i < s.len(),
    ensures
        keys_unique(s.remove(i)),
        entry_map(s.remove(i)) == entry_map(s).remove(s[i].0@),
{
    let t = s.remove(i);
    assert forall|a: int, b: int| 0 <= a < b < t.len() implies (#[trigger] t[a]).0@ != (#[trigger] t[b]).0@ by {
        let a2 = if a < i { a } else { a + 1 };
        let b2 = if b < i { b } else { b + 1 };
        assert(t[a] == s[a2] && t[b] == s[b2]);
    }
    lemma_entry_map(s);
    lemma_entry_map(t);
    let k0 = s[i].0@;
    assert forall|k: Seq<char>| #[trigger] entry_map(t).contains_key(k) <==> entry_map(s).remove(k0).contains_key(k) by {
        if entry_map(t).contains_key(k) {
            let a = choose|a: int| 0 <= a < t.len() && t[a].0@ == k;
            let a2 = if a < i { a } else { a + 1 };
            assert(t[a] == s[a2]);
            assert(entry_map(s).contains_key(k));
        }
        if entry_map(s).remove(k0).contains_key(k) {
            assert(entry_map(s).contains_key(k));
            let a = choose|a: int| 0 <= a < s.len() && s[a].0@ == k;
            assert(a != i);
            let a2 = if a < i { a } else { a - 1 };
            assert(t[a2] == s[a]);
        }
    }
    assert forall|k: Seq<char>| entry_map(t).contains_key(k) implies entry_map(t)[k] == entry_map(s).remove(k0)[k] by {
        let a = choose|a: int| 0 <= a < t.len() && t[a].0@ == k;
        let a2 = if a < i { a } else { a + 1 };
        assert(t[a] == s[a2]);
        assert(entry_map(t)[t[a].0@] == t[a].1);
        assert(entry_map(s)[s[a2].0@] == s[a2].1);
    }
    assert(entry_map(t) =~= entry_map(s).remove(k0));
}

proof fn lemma_unique_after_update(s: Seq<(String, CacheEntry)>, i: int, x: (String, CacheEntry))
    requires
        keys_unique(s),
        0 <= i < s.len(),
        x.0@ == s[i].0@,
    ensures
        keys_unique(s.update(i, x)),
        entry_map(s.update(i, x)) == entry_map(s).insert(x.0@, x.1),
{
    let t = s.update(i, x);
    assert forall|a: int, b: int| 0 <= a < b < t.len() implies (#[trigger] t[a]).0@ != (#[trigger] t[b]).0@ by {
        assert(t[a].0@ == s[a].0@ && t[b].0@ == s[b].0@);
    }
    lemma_entry_map(s);
    lemma_entry_map(t);
    assert forall|k: Seq<char>| #[trigger] entry_map(t).contains_key(k) <==> entry_map(s).insert(x.0@, x.1).contains_key(k) by {
        if entry_map(t).contains_key(k) {
            let a = choose|a: int| 0 <= a < t.len() && t[a].0@ == k;
            assert(s[a].0@ == k);
        }
        if entry_map(s).contains_key(k) {
            let a = choose|a: int| 0 <= a < s.len() && s[a].0@ == k;
            assert(t[a].0@ == k);
        }
        if k == x.0@ {
            assert(t[i].0@ == k);
        }
    }
    assert forall|k: Seq<char>| entry_map(t).contains_key(k) implies entry_map(t)[k] == entry_map(s).insert(x.0@, x.1)[k] by {
        let a = choose|a: int| 0 <= a < t.len() && t[a].0@ == k;
        assert(entry_map(t)[t[a].0@] == t[a].1);
        if a != i {
            assert(t[a] == s[a]);
            assert(entry_map(s)[s[a].0@] == s[a].1);
        }
    }
    assert(entry_map(t) =~= entry_map(s).insert(x.0@, x.1));
}

proof fn lemma_unique_after_push(s: Seq<(String, CacheEntry)>, x: (String, CacheEntry))
    requires
        keys_unique(s),
        !entry_map(s).contains_key(x.0@),
    ensures
        keys_unique(s.push(x)),
{
    lemma_entry_map(s);
    let t = s.push(x);
    assert forall|a: int, b: int| 0 <= a < b < t.len() implies (#[trigger] t[a]).0@ != (#[trigger] t[b]).0@ by {
        assert(t[a] == s[a]);
        if b == s.len() {
            assert(t[b] == x);
            if s[a].0@ == x.0@ {
                assert(entry_map(s).contains_key(x.0@));
            }
        } else {
            assert(t[b] == s[b]);
        }
    }
}

/// Results by task identifier, each with its own lifetime; expired
/// entries are dropped when read.
pub struct ResultCache {
    entries: Vec<(String, CacheEntry)>,
    default_ttl: std::time::Duration,
}

impl View for ResultCache {
    type V = Map<Seq<char>, CacheEntry>;

    closed spec fn view(&self) -> Map<Seq<char>, CacheEntry> {
        entry_map(self.entries@)
    }
}

impl ResultCache {
    #[verifier::type_invariant]
    spec fn wf(self) -> bool {
        keys_unique(self.entries@)
    }

    /// The lifetime given to entries inserted without one.
    pub closed spec fn ttl(self) -> std::time::Duration {
        self.default_ttl
    }

    /// An empty cache whose entries live `default_ttl` unless told
    /// otherwise.
    pub fn new(default_ttl: std::time::Duration) -> (r: Self)
        ensures
            r@ == Map::<Seq<char>, CacheEntry>::empty(),
            r.ttl() == default_ttl,
    {
        ResultCache { entries: Vec::new(), default_ttl }
    }

    /// The default lifetime.
    pub fn default_ttl(&self) -> (r: std::time::Duration)
        ensures
            r == self.ttl(),
    {
        self.default_ttl
    }

    fn position(&self, key: &str) -> (r: Option<usize>)
        ensures
            match r {
                Some(i) => i < self.entries@.len() && self.entries@[i as int].0@ == key@,
                None => !self@.contains_key(key@),
            },
    {
        proof {
            use_type_invariant(self);
            lemma_entry_map(self.entries@);
        }
        let wanted = String::from_str(key);
        let mut i: usize = 0;
        while i < self.entries.len()
            invariant
                i <= self.entries@.len(),
                wanted@ == key@,
                forall|j: int| 0 <= j < i ==> self.entries@[j].0@ != key@,
            decreases self.entries.len() - i,
        {
            if self.entries[i].0 == wanted {
                return Some(i);
            }
            i = i + 1;
        }
        proof {
            if self@.contains_key(key@) {
                let j = choose|j: int| 0 <= j < self.entries@.len() && self.entries@[j].0@ == key@;
                assert(self.entries@[j].0@ == key@);
            }
        }
        None
    }

    /// The number of entries, expired ones included until they are read.
    pub fn len(&self) -> (r: usize)
        ensures
            r == self@.dom().len(),
    {
        proof {
            use_type_invariant(self);
            lemma_entry_map(self.entries@);
        }
        self.entries.len()
    }

    /// Whether the cache holds no entry.
    pub fn is_empty(&self) -> (r: bool)
        ensures
            r == (self@.dom().len() == 0),
    {
        self.len() == 0
    }

    /// The result cached for `key` at time `now`: `None` when there is
    /// none; an expired entry is removed and gives `None`; otherwise a copy
    /// of the result, the cache unchanged.
    pub fn get(&mut self, key: &str, now: u128) -> (r: Option<TaskResult>)
        ensures
            final(self).ttl() == old(self).ttl(),
            !old(self)@.contains_key(key@) ==> r is None && final(self)@ == old(self)@,
            old(self)@.contains_key(key@) && expired(old(self)@[key@], now) ==> r is None
                && final(self)@ == old(self)@.remove(key@),
            old(self)@.contains_key(key@) && !expired(old(self)@[key@], now) ==> (r matches Some(x)
                && same_result(x, old(self)@[key@].result) && final(self)@ == old(self)@),
    {
        proof {
            use_type_invariant(&*self);
            lemma_entry_map(self.entries@);
        }
        match self.position(key) {
            None => None,
            Some(i) => {
                let at = self.entries[i].1.inserted_at;
                let age: u128 = if now >= at { now - at } else { 0 };
                let ttl = duration_nanos(&self.entries[i].1.ttl);
                if age > ttl {
                    proof {
                        lemma_unique_after_remove(self.entries@, i as int);
                    }
                    let mut entries: Vec<(String, CacheEntry)> = Vec::new();
                    std::mem::swap(&mut entries, &mut self.entries);
                    let _gone = entries.remove(i);
                    self.entries = entries;
                    None
                } else {
                    Some(self.entries[i].1.result.duplicate())
                }
            },
        }
    }

    /// Stores `result` under `key` at time `now` with the given lifetime,
    /// replacing any entry for `key`.
    pub fn insert_with_ttl(&mut self, key: String, result: TaskResult, ttl: std::time::Duration, now: u128)
        ensures
            final(self)@ == old(self)@.insert(key@, (CacheEntry { result, inserted_at: now, ttl })),
            final(self).ttl() == old(self).ttl(),
    {
        proof {
            use_type_invariant(&*self);
        }
        let entry = CacheEntry { result, inserted_at: now, ttl };
        match self.position(key.as_str()) {
            Some(i) => {
                proof {
                    lemma_unique_after_update(self.entries@, i as int, (key, entry));
                }
                let mut entries: Vec<(String, CacheEntry)> = Vec::new();
                std::mem::swap(&mut entries, &mut self.entries);
                entries.set(i, (key, entry));
                self.entries = entries;
            },
            None => {
                proof {
                    lemma_unique_after_push(self.entries@, (key, entry));
                }
                let ghost before = self.entries@;
                let mut entries: Vec<(String, CacheEntry)> = Vec::new();
                std::mem::swap(&mut entries, &mut self.entries);
                entries.push((key, entry));
                self.entries = entries;
                proof {
                    assert(self.entries@.drop_last() =~= before);
                }
            },
        }
    }

    /// Stores `result` under `key` at time `now` with the default lifetime.
    pub fn insert(&mut self, key: String, result: TaskResult, now: u128)
        ensures
            final(self)@ == old(self)@.insert(key@, (CacheEntry { result, inserted_at: now, ttl: old(self).ttl() })),
            final(self).ttl() == old(self).ttl(),
    {
        let ttl = self.default_ttl;
        self.insert_with_ttl(key, result, ttl, now);
    }

    /// Drops the entry for `key`, if any.
    pub fn invalidate(&mut self, key: &str)
        ensures
            final(self)@ == old(self)@.remove(key@),
            final(self).ttl() == old(self).ttl(),
    {
        proof {
            use_type_invariant(&*self);
            lemma_entry_map(self.entries@);
        }
        match self.position(key) {
            Some(i) => {
                proof {
                    lemma_unique_after_remove(self.entries@, i as int);
                }
                let mut entries: Vec<(String, CacheEntry)> = Vec::new();
                std::mem::swap(&mut entries, &mut self.entries);
                let _gone = entries.remove(i);
                self.entries = entries;
            },
            None => {
                proof {
                    assert(self@ =~= self@.remove(key@));
                }
            },
        }
    }

    /// Drops every entry.
    pub fn clear(&mut self)
        ensures
            final(self)@ == Map::<Seq<char>, CacheEntry>::empty(),
            final(self).ttl() == old(self).ttl(),
    {
        self.entries = Vec::new();
    }

    /// The cache rebuilt from stored entries read at wall-clock time
    /// `now_secs` and cache-clock time `clock`: an entry whose age
    /// (`now_secs` minus its write time, at least zero) is below its
    /// lifetime comes back stored `age` seconds before `clock` with its
    /// whole lifetime (or stored at `clock` with the rest of its lifetime
    /// when the clock has not run that long), so none of them has expired
    /// at `clock`; the others are dropped.
    pub fn restore(default_ttl: std::time::Duration, stored: Vec<StoredEntry>, now_secs: u64, clock: u128) -> (r: Self)
        ensures
            r@ == restored_map(stored@, now_secs, clock),
            r.ttl() == default_ttl,
            forall|k: Seq<char>| #[trigger] r@.contains_key(k) ==> !expired(r@[k], clock),
    {
        let mut cache = ResultCache::new(default_ttl);
        let ghost all = stored@;
        let n = stored.len();
        let mut rest = stored;
        let mut done: usize = 0;
        proof {
            assert(all.subrange(0, 0) =~= Seq::<StoredEntry>::empty());
            assert(rest@ =~= all.subrange(0, n as int));
        }
        while rest.len() > 0
            invariant
                n == all.len(),
                done + rest@.len() == n,
                rest@ == all.subrange(done as int, n as int),
                cache@ == restored_map(all.subrange(0, done as int), now_secs, clock),
                cache.ttl() == default_ttl,
                forall|k: Seq<char>| #[trigger] cache@.contains_key(k) ==> !expired(cache@[k], clock),
            decreases rest.len(),
        {
            let e = rest.remove(0);
            proof {
                assert(e == all[done as int]);
                assert(rest@ =~= all.subrange(done + 1, n as int));
                assert(all.subrange(0, done + 1).drop_last() =~= all.subrange(0, done as int));
                assert(all.subrange(0, done + 1).last() == e);
            }
            let age: u64 = if now_secs >= e.inserted_at_secs { now_secs - e.inserted_at_secs } else { 0 };
            if age < e.ttl_secs {
                let back: u128 = (age as u128) * 1_000_000_000;
                let ttl_secs = e.ttl_secs;
                let StoredEntry { key, result, .. } = e;
                if clock >= back {
                    let ttl = duration_from_secs(ttl_secs);
                    cache.insert_with_ttl(key, result, ttl, clock - back);
                } else {
                    let ttl = duration_from_secs(ttl_secs - age);
                    cache.insert_with_ttl(key, result, ttl, clock);
                }
            }
            done = done + 1;
        }
        proof {
            assert(all.subrange(0, n as int) =~= all);
        }
        cache
    }

    /// The entries to write out at wall-clock time `now_secs`: one per key,
    /// each marked as written at `now_secs` with its lifetime in whole
    /// seconds.
    pub fn snapshot(&self, now_secs: u64) -> (r: Vec<StoredEntry>)
        ensures
            r@.len() == self@.dom().len(),
            forall|i: int, j: int| 0 <= i < j < r@.len() ==> (#[trigger] r@[i]).key@ != (#[trigger] r@[j]).key@,
            forall|i: int| 0 <= i < r@.len() ==> {
                let e = #[trigger] r@[i];
                &&& self@.contains_key(e.key@)
                &&& same_result(e.result, self@[e.key@].result)
                &&& e.inserted_at_secs == now_secs
                &&& e.ttl_secs == nanos_of(self@[e.key@].ttl) / 1_000_000_000
            },
    {
        proof {
            use_type_invariant(self);
            lemma_entry_map(self.entries@);
        }
        let mut r: Vec<StoredEntry> = Vec::new();
        let mut i: usize = 0;
        while i < self.entries.len()
            invariant
                i <= self.entries@.len(),
                keys_unique(self.entries@),
                r@.len() == i,
                forall|j: int| 0 <= j < i ==> (#[trigger] r@[j]).key@ == self.entries@[j].0@,
                forall|j: int| 0 <= j < i ==> {
                    let e = #[trigger] r@[j];
                    &&& same_result(e.result, self.entries@[j].1.result)
                    &&& e.inserted_at_secs == now_secs
                    &&& e.ttl_secs == nanos_of(self.entries@[j].1.ttl) / 1_000_000_000
                },
            decreases self.entries.len() - i,
        {
            let nanos = duration_nanos(&self.entries[i].1.ttl);
            let secs = nanos / 1_000_000_000;
            proof {
                assert(secs <= u64::MAX) by (nonlinear_arith)
                    requires
                        nanos <= 18_446_744_073_709_551_615int * 1_000_000_000 + 999_999_999,
                        secs == nanos / 1_000_000_000,
                ;
            }
            r.push(StoredEntry {
                key: self.entries[i].0.clone(),
                result: self.entries[i].1.result.duplicate(),
                inserted_at_secs: now_secs,
                ttl_secs: secs as u64,
            });
            i = i + 1;
        }
        proof {
            assert forall|a: int, b: int| 0 <= a < b < r@.len() implies (#[trigger] r@[a]).key@ != (#[trigger] r@[b]).key@ by {
                assert(self.entries@[a].0@ != self.entries@[b].0@);
            }
            assert forall|a: int| 0 <= a < r@.len() implies {
                let e = #[trigger] r@[a];
                &&& self@.contains_key(e.key@)
                &&& same_result(e.result, self@[e.key@].result)
                &&& e.inserted_at_secs == now_secs
                &&& e.ttl_secs == nanos_of(self@[e.key@].ttl) / 1_000_000_000
            } by {
                assert(self.entries@[a] == self.entries@[a]);
                assert(self@[self.entries@[a].0@] == self.entries@[a].1);
            }
        }
        r
    }
}

/// A result stored under a key is read back, and is not expired, as long
/// as no more than its lifetime has elapsed since it was stored; once more
/// has elapsed it is expired.
pub proof fn lemma_read_back_within_ttl(m: Map<Seq<char>, CacheEntry>, k: Seq<char>, e: CacheEntry, later: u128)
    ensures
        m.insert(k, e).contains_key(k),
        m.insert(k, e)[k] == e,
        !expired(m.insert(k, e)[k], later) <==> elapsed(e.inserted_at, later) <= nanos_of(e.ttl),
{
}

/// Storing under one key leaves every other key's entry as it was, and
/// invalidating a key leaves no entry for it.
pub proof fn lemma_other_keys_untouched(m: Map<Seq<char>, CacheEntry>, k: Seq<char>, e: CacheEntry, other: Seq<char>)
    requires
        other != k,
    ensures
        m.insert(k, e).contains_key(other) == m.contains_key(other),
        m.contains_key(other) ==> m.insert(k, e)[other] == m[other],
        !m.remove(k).contains_key(k),
        m.remove(k).contains_key(other) == m.contains_key(other),
{
}

} // verus!
