use vxbot::cache::{HookInfo, IdentityCache};

fn named(handle: u64, name: &str) -> HookInfo {
    HookInfo { handle, name: Some(String::from(name)) }
}

#[test]
fn fresh_cache_misses() {
    let cache = IdentityCache::new();
    assert_eq!(cache.lookup(1), None);
}

#[test]
fn store_then_lookup() {
    let mut cache = IdentityCache::new();
    cache.store(5, 500);
    assert_eq!(cache.lookup(5), Some(500));
    assert_eq!(cache.lookup(6), None);
}

#[test]
fn second_call_reuses_identity_and_creates_nothing() {
    let mut cache = IdentityCache::new();
    let hooks: Vec<HookInfo> = Vec::new();
    let (h1, created1) = cache.get_or_create(42, &hooks, 1001);
    assert_eq!(h1, 1001);
    assert!(created1);
    let (h2, created2) = cache.get_or_create(42, &hooks, 2002);
    assert_eq!(h2, 1001);
    assert!(!created2);
}

#[test]
fn existing_reserved_identity_is_adopted_not_duplicated() {
    let mut cache = IdentityCache::new();
    let hooks = vec![named(7, "other-hook"), named(9, "vxbot"), named(11, "vxbot")];
    let (h, created) = cache.get_or_create(3, &hooks, 999);
    assert_eq!(h, 9);
    assert!(!created);
    let (h2, created2) = cache.get_or_create(3, &hooks, 999);
    assert_eq!(h2, 9);
    assert!(!created2);
}

#[test]
fn unnamed_identities_are_not_adopted() {
    let mut cache = IdentityCache::new();
    let hooks = vec![HookInfo { handle: 1, name: None }, named(2, "vxbot2")];
    let (h, created) = cache.get_or_create(8, &hooks, 77);
    assert_eq!(h, 77);
    assert!(created);
}

#[test]
fn channels_are_cached_independently() {
    let mut cache = IdentityCache::new();
    let hooks: Vec<HookInfo> = Vec::new();
    let (h1, c1) = cache.get_or_create(1, &hooks, 100);
    let (h2, c2) = cache.get_or_create(2, &hooks, 200);
    assert!(c1 && c2);
    assert_eq!(h1, 100);
    assert_eq!(h2, 200);
    assert_eq!(cache.lookup(1), Some(100));
    assert_eq!(cache.lookup(2), Some(200));
}
