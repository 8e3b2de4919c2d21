//! Memoization with expiry, under a clock that the caller supplies.

use vstd::prelude::*;
use crate::assoc::{first_value, lemma_first_value_extends, lemma_with_entry, with_entry, without};
use crate::text::views;

verus! {

/// The key of a cached result: the identity of the function and its arguments.
#[derive(Clone, Debug, PartialEq, Eq)]
pub struct CacheKey {
    pub function: String,
    pub arguments: Vec<String>,
}

/// The mathematical model of a [`CacheKey`].
pub type KeyModel = (Seq<char>, Seq<Seq<char>>);

impl View for CacheKey {
    type V = KeyModel;

    open spec fn view(&self) -> KeyModel {
        (self.function@, views(self.arguments@))
    }
}

impl CacheKey {
    /// The key of a call of `function` with `arguments`.
    pub fn new(function: &str, arguments: Vec<String>) -> (key: CacheKey)
        ensures
            key@ == (function@, views(arguments@)),
    {
        CacheKey { function: function.to_owned(), arguments }
    }

    /// Whether two keys stand for the same call.
    pub fn same(&self, other: &CacheKey) -> (r: bool)
        ensures
            r == (self@ == other@),
    {
        if !(self.function == other.function) {
            return false;
        }
        if self.arguments.len() != other.arguments.len() {
            assert(views(self.arguments@).len() != views(other.arguments@).len());
            return false;
        }
        let ghost mine = views(self.arguments@);
        let ghost theirs = views(other.arguments@);
        let mut i: usize = 0;
        while i < self.arguments.len()
            invariant
                i <= self.arguments.len() == other.arguments.len(),
                mine == views(self.arguments@),
                theirs == views(other.arguments@),
                forall|j: int| 0 <= j < i ==> mine[j] == theirs[j],
            decreases self.arguments.len() - i,
        {
            if !(self.arguments[i] == other.arguments[i]) {
                assert(mine[i as int] != theirs[i as int]);
                return false;
            }
            i += 1;
        }
        assert(mine == theirs);
        true
    }
}

/// What is kept for one key.
pub struct CacheEntry<V> {
    pub value: V,
    /// When the value was computed.
    pub computed_at: u64,
    /// For how long the value is served.
    pub ttl: u64,
}

/// The mathematical model of a cache: pairs of a key and what is kept for it.
pub type CacheModel<V> = Seq<(KeyModel, CacheEntry<V>)>;

/// Whether an entry is served at `now`: less than its time to live has passed since
/// it was computed.
pub open spec fn fresh<V>(entry: CacheEntry<V>, now: u64) -> bool {
    now - entry.computed_at < entry.ttl
}

/// The value that the cache serves for `key` at `now`, if any.
pub open spec fn served<V>(cache: CacheModel<V>, key: KeyModel, now: u64) -> Option<V> {
    match first_value(cache, key) {
        Some(entry) => if fresh(entry, now) {
            Some(entry.value)
        } else {
            None
        },
        None => None,
    }
}

/// The cache after `value` was computed for `key` at `now`.
pub open spec fn stored<V>(cache: CacheModel<V>, key: KeyModel, value: V, now: u64, ttl: u64)
    -> CacheModel<V> {
    with_entry(cache, key, CacheEntry { value, computed_at: now, ttl })
}

/// A stored value is served until its time to live has passed, and not after; what
/// is kept for other keys is not touched.
pub proof fn stored_value_is_served<V>(
    cache: CacheModel<V>,
    key: KeyModel,
    value: V,
    at: u64,
    ttl: u64,
    other: KeyModel,
    now: u64,
)
    ensures
        now - at < ttl ==> served(stored(cache, key, value, at, ttl), key, now) == Some(value),
        now - at >= ttl ==> served(stored(cache, key, value, at, ttl), key, now) is None,
        other != key ==> served(stored(cache, key, value, at, ttl), other, now) == served(
            cache,
            other,
            now,
        ),
{
    lemma_with_entry(cache, key, CacheEntry { value, computed_at: at, ttl }, other);
}

/// A cache of computed values, each with its time to live.
pub struct TtlCache<V> {
    slots: Vec<(CacheKey, CacheEntry<V>)>,
}

impl<V> View for TtlCache<V> {
    type V = CacheModel<V>;

    closed spec fn view(&self) -> CacheModel<V> {
        Seq::new(self.slots@.len(), |i: int| (self.slots@[i].0@, self.slots@[i].1))
    }
}

impl<V> TtlCache<V> {
    /// The empty cache.
    pub fn new() -> (cache: TtlCache<V>)
        ensures
            cache@ == CacheModel::<V>::empty(),
    {
        let cache = TtlCache { slots: Vec::new() };
        assert(cache@ == CacheModel::<V>::empty());
        cache
    }

    /// The number of entries that are kept.
    pub fn len(&self) -> (n: usize)
        ensures
            n == self@.len(),
    {
        self.slots.len()
    }

    /// The value that is served for `key` at `now`: the stored one, if less than its
    /// time to live has passed since it was computed.
    pub fn lookup(&self, key: &CacheKey, now: u64) -> (r: Option<&V>)
        ensures
            match r {
                Some(value) => served(self@, key@, now) == Some(*value),
                None => served(self@, key@, now) is None,
            },
    {
        let ghost all = self@;
        let mut i: usize = 0;
        assert(all.take(0) == CacheModel::<V>::empty());
        while i < self.slots.len()
            invariant
                i <= self.slots.len(),
                all == self@,
                first_value(all.take(i as int), key@) is None,
            decreases self.slots.len() - i,
        {
            assert(all.take(i + 1).drop_last() == all.take(i as int));
            assert(all.take(i + 1).last() == all[i as int]);
            if self.slots[i].0.same(key) {
                proof {
                    lemma_first_value_extends(all, key@, i + 1);
                }
                let entry = &self.slots[i].1;
                if now < entry.computed_at || now - entry.computed_at < entry.ttl {
                    return Some(&entry.value);
                } else {
                    return None;
                }
            }
            i += 1;
        }
        assert(all.take(self.slots.len() as int) == all);
        None
    }

    /// Forgets what is kept for `key`.
    pub fn evict(&mut self, key: &CacheKey)
        ensures
            final(self)@ == without(old(self)@, key@),
    {
        let ghost all = self@;
        let ghost mut k: int = 0;
        let mut i: usize = 0;
        assert(all.take(0) == CacheModel::<V>::empty());
        assert(all.skip(0) == all);
        assert(without(all.take(0), key@) + all == all);
        while i < self.slots.len()
            invariant
                0 <= k <= all.len(),
                i == without(all.take(k), key@).len(),
                self@ == without(all.take(k), key@) + all.skip(k),
            decreases all.len() - k,
        {
            let ghost kept = without(all.take(k), key@);
            let ghost current = self@;
            assert(k < all.len());
            assert(current[i as int] == all.skip(k)[0]);
            assert(all.take(k + 1).drop_last() == all.take(k));
            assert(all.take(k + 1).last() == all[k]);
            if self.slots[i].0.same(key) {
                self.slots.remove(i);
                assert(self@ == current.remove(i as int));
                assert(current.remove(i as int) == kept + all.skip(k + 1));
            } else {
                assert(current == kept.push(all[k]) + all.skip(k + 1));
                i += 1;
            }
            proof {
                k = k + 1;
            }
        }
        assert(all.skip(k).len() == 0);
        assert(all.take(k) == all);
        assert(without(all, key@) + all.skip(k) == without(all, key@));
    }

    /// Keeps `value` for `key`, computed at `now`, to be served for `ttl`. What was kept
    /// for the key before is replaced.
    pub fn store(&mut self, key: CacheKey, value: V, now: u64, ttl: u64)
        ensures
            final(self)@ == stored(old(self)@, key@, value, now, ttl),
    {
        self.evict(&key);
        let ghost before = self@;
        self.slots.push((key, CacheEntry { value, computed_at: now, ttl }));
        assert(self@ == before.push((key@, CacheEntry { value, computed_at: now, ttl })));
    }

    /// The value for `key` at `now`: the one that is served, if there is one, and
    /// `producer` is not called; otherwise what `producer` returns, which is then
    /// kept for `ttl`.
    pub fn get_or_produce<F: FnOnce() -> V>(&mut self, key: CacheKey, ttl: u64, now: u64, producer: F)
        -> (value: &V)
        requires
            producer.requires(()),
        ensures
            match served(old(self)@, key@, now) {
                Some(kept) => *value == kept && final(self)@ == old(self)@,
                None => producer.ensures((), *value) && final(self)@ == stored(
                    old(self)@,
                    key@,
                    *value,
                    now,
                    ttl,
                ),
            },
            served(final(self)@, key@, now) == Some(*value) || ttl == 0,
    {
        if self.lookup(&key, now).is_none() {
            let value = producer();
            proof {
                stored_value_is_served(self@, key@, value, now, ttl, key@, now);
            }
            self.store(key, value, now, ttl);
            let last = self.slots.len() - 1;
            &self.slots[last].1.value
        } else {
            self.lookup(&key, now).unwrap()
        }
    }
}

} // verus!
