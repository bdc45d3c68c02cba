use micro_url::cache::{LinkCache, DEFAULT_CACHE_CAPACITY};

fn s(x: &str) -> String {
    x.to_string()
}

#[test]
fn overfilling_evicts_the_first_key() {
    let mut cache = LinkCache::new(3);
    for k in ["a", "b", "c", "d"] {
        assert_eq!(cache.put(s(k), format!("https://{k}.example")), None);
    }
    assert_eq!(cache.len(), 3);
    assert_eq!(cache.get("a"), None);
    assert_eq!(cache.get("b"), Some(s("https://b.example")));
    assert_eq!(cache.get("c"), Some(s("https://c.example")));
    assert_eq!(cache.get("d"), Some(s("https://d.example")));
}

#[test]
fn a_lookup_protects_a_key_from_eviction() {
    let mut cache = LinkCache::new(3);
    cache.put(s("a"), s("1"));
    cache.put(s("b"), s("2"));
    cache.put(s("c"), s("3"));
    assert_eq!(cache.get("a"), Some(s("1")));
    cache.put(s("d"), s("4"));
    assert_eq!(cache.get("b"), None);
    assert_eq!(cache.get("a"), Some(s("1")));
    assert_eq!(cache.len(), 3);
}

#[test]
fn put_on_a_present_key_returns_the_old_value() {
    let mut cache = LinkCache::new(2);
    assert_eq!(cache.put(s("k"), s("old")), None);
    assert_eq!(cache.put(s("k"), s("new")), Some(s("old")));
    assert_eq!(cache.get("k"), Some(s("new")));
    assert_eq!(cache.len(), 1);
}

#[test]
fn replacing_a_value_refreshes_its_key() {
    let mut cache = LinkCache::new(2);
    cache.put(s("a"), s("1"));
    cache.put(s("b"), s("2"));
    cache.put(s("a"), s("3"));
    cache.put(s("c"), s("4"));
    assert_eq!(cache.get("b"), None);
    assert_eq!(cache.get("a"), Some(s("3")));
}

#[test]
fn pop_takes_the_entry_out() {
    let mut cache = LinkCache::new(2);
    cache.put(s("a"), s("1"));
    assert_eq!(cache.pop("a"), Some((s("a"), s("1"))));
    assert_eq!(cache.pop("a"), None);
    assert_eq!(cache.get("a"), None);
    assert_eq!(cache.len(), 0);
}

#[test]
fn a_miss_changes_nothing() {
    let mut cache = LinkCache::new(1);
    assert_eq!(cache.get("x"), None);
    cache.put(s("y"), s("1"));
    assert_eq!(cache.get("x"), None);
    assert_eq!(cache.len(), 1);
}

#[test]
fn default_capacity_holds_a_thousand() {
    let mut cache = LinkCache::new(DEFAULT_CACHE_CAPACITY);
    for i in 0..1001 {
        cache.put(format!("k{i}"), format!("v{i}"));
    }
    assert_eq!(cache.len(), 1000);
    assert_eq!(cache.get("k0"), None);
    assert_eq!(cache.get("k1"), Some(s("v1")));
}
