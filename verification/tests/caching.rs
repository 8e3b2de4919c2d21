use gateway::cache::{CacheKey, TtlCache};
use std::cell::Cell;

fn key(function: &str, arguments: &[&str]) -> CacheKey {
    CacheKey::new(function, arguments.iter().map(|a| a.to_string()).collect())
}

#[test]
fn cached_value_is_served_until_it_expires() {
    let calls = Cell::new(0);
    let mut cache: TtlCache<String> = TtlCache::new();
    let first = cache
        .get_or_produce(key("commits", &[]), 600, 0, || {
            calls.set(calls.get() + 1);
            "V1".to_string()
        })
        .clone();
    assert_eq!(first, "V1");
    assert_eq!(calls.get(), 1);
    let second = cache
        .get_or_produce(key("commits", &[]), 600, 300, || {
            calls.set(calls.get() + 1);
            "V2".to_string()
        })
        .clone();
    assert_eq!(second, "V1");
    assert_eq!(calls.get(), 1);
    let third = cache
        .get_or_produce(key("commits", &[]), 600, 601, || {
            calls.set(calls.get() + 1);
            "V2".to_string()
        })
        .clone();
    assert_eq!(third, "V2");
    assert_eq!(calls.get(), 2);
    assert_eq!(cache.len(), 1);
}

#[test]
fn lookup_serves_while_less_than_the_time_to_live_has_passed() {
    let mut cache: TtlCache<u32> = TtlCache::new();
    assert_eq!(cache.lookup(&key("f", &[]), 0), None);
    cache.store(key("f", &[]), 7, 100, 600);
    assert_eq!(cache.lookup(&key("f", &[]), 100), Some(&7));
    assert_eq!(cache.lookup(&key("f", &[]), 699), Some(&7));
    assert_eq!(cache.lookup(&key("f", &[]), 700), None);
    assert_eq!(cache.lookup(&key("f", &[]), 701), None);
    assert_eq!(cache.lookup(&key("f", &[]), u64::MAX), None);
    assert_eq!(cache.lookup(&key("f", &[]), 99), Some(&7));
    assert_eq!(cache.lookup(&key("f", &[]), 0), Some(&7));
}

#[test]
fn entry_without_time_to_live_is_never_served() {
    let mut cache: TtlCache<u32> = TtlCache::new();
    cache.store(key("f", &[]), 7, 100, 0);
    assert_eq!(cache.lookup(&key("f", &[]), 100), None);
    assert_eq!(cache.len(), 1);
    let value = *cache.get_or_produce(key("f", &[]), 0, 100, || 8);
    assert_eq!(value, 8);
    assert_eq!(cache.len(), 1);
}

#[test]
fn keys_tell_functions_and_arguments_apart() {
    let mut cache: TtlCache<&'static str> = TtlCache::new();
    cache.store(key("f", &["a", "b"]), "f(a,b)", 0, 10);
    cache.store(key("f", &["ab"]), "f(ab)", 0, 10);
    cache.store(key("f", &[]), "f()", 0, 10);
    cache.store(key("g", &["a", "b"]), "g(a,b)", 0, 10);
    cache.store(key("f", &["b", "a"]), "f(b,a)", 0, 10);
    assert_eq!(cache.len(), 5);
    assert_eq!(cache.lookup(&key("f", &["a", "b"]), 1), Some(&"f(a,b)"));
    assert_eq!(cache.lookup(&key("f", &["ab"]), 1), Some(&"f(ab)"));
    assert_eq!(cache.lookup(&key("f", &[]), 1), Some(&"f()"));
    assert_eq!(cache.lookup(&key("g", &["a", "b"]), 1), Some(&"g(a,b)"));
    assert_eq!(cache.lookup(&key("f", &["b", "a"]), 1), Some(&"f(b,a)"));
    assert_eq!(cache.lookup(&key("g", &[]), 1), None);
    assert!(key("f", &["a"]).same(&key("f", &["a"])));
    assert!(!key("f", &["a"]).same(&key("f", &["a", ""])));
    assert!(!key("f", &["a"]).same(&key("F", &["a"])));
}

#[test]
fn store_replaces_and_evict_forgets() {
    let mut cache: TtlCache<u32> = TtlCache::new();
    cache.store(key("f", &["x"]), 1, 0, 10);
    cache.store(key("g", &[]), 2, 0, 10);
    cache.store(key("f", &["x"]), 3, 5, 10);
    assert_eq!(cache.len(), 2);
    assert_eq!(cache.lookup(&key("f", &["x"]), 12), Some(&3));
    assert_eq!(cache.lookup(&key("f", &["x"]), 15), None);
    assert_eq!(cache.lookup(&key("g", &[]), 9), Some(&2));
    cache.evict(&key("f", &["x"]));
    assert_eq!(cache.len(), 1);
    assert_eq!(cache.lookup(&key("f", &["x"]), 6), None);
    assert_eq!(cache.lookup(&key("g", &[]), 9), Some(&2));
    cache.evict(&key("missing", &[]));
    assert_eq!(cache.len(), 1);
}

#[test]
fn producer_runs_once_per_miss_and_never_on_a_hit() {
    let calls = Cell::new(0u32);
    let mut cache: TtlCache<u32> = TtlCache::new();
    for now in [0u64, 1, 2, 3, 9] {
        let value = *cache.get_or_produce(key("n", &[]), 10, now, || {
            calls.set(calls.get() + 1);
            calls.get()
        });
        assert_eq!(value, 1);
    }
    assert_eq!(calls.get(), 1);
    let value = *cache.get_or_produce(key("n", &[]), 10, 10, || {
        calls.set(calls.get() + 1);
        calls.get()
    });
    assert_eq!(value, 2);
    let value = *cache.get_or_produce(key("m", &[]), 10, 10, || {
        calls.set(calls.get() + 1);
        calls.get()
    });
    assert_eq!(value, 3);
    assert_eq!(cache.lookup(&key("n", &[]), 19), Some(&2));
    assert_eq!(cache.lookup(&key("n", &[]), 20), None);
}
