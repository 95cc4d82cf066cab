use aliyundrive_webdav::cache::{parent_of, EntryCache};
use aliyundrive_webdav::entry::{CacheValue, Entry, EntryKind};

fn entry(id: &str, parent: &str, name: &str, kind: EntryKind) -> Entry {
    Entry {
        id: id.to_string(),
        parent_path: parent.to_string(),
        name: name.to_string(),
        kind,
        size: 0,
        modified_at: 0,
    }
}

fn single(id: &str) -> CacheValue {
    CacheValue::Single(entry(id, "/", id, EntryKind::File))
}

fn id_of(v: &CacheValue) -> String {
    match v {
        CacheValue::Single(e) => e.id.clone(),
        CacheValue::Listing(_) => panic!("expected a single entry"),
    }
}

#[test]
fn lru_evicts_least_recently_used() {
    // TTL 600 s, capacity 2: the third put evicts the least recently used slot.
    let mut cache = EntryCache::new(600, 2);
    cache.put("/a".to_string(), single("X"), 0);
    cache.put("/b".to_string(), single("Y"), 0);
    cache.put("/c".to_string(), single("Z"), 0);
    assert!(cache.get(&"/a".to_string(), 1).is_none());
    let b = cache.get(&"/b".to_string(), 1).expect("/b stays");
    assert_eq!(id_of(&b.value), "Y");
    let c = cache.get(&"/c".to_string(), 1).expect("/c stays");
    assert_eq!(id_of(&c.value), "Z");
}

#[test]
fn get_refreshes_recency() {
    let mut cache = EntryCache::new(600, 2);
    cache.put("/a".to_string(), single("X"), 0);
    cache.put("/b".to_string(), single("Y"), 0);
    // touch "/a": now "/b" is the least recently used
    assert!(cache.get(&"/a".to_string(), 1).is_some());
    cache.put("/c".to_string(), single("Z"), 2);
    assert!(cache.get(&"/a".to_string(), 3).is_some());
    assert!(cache.get(&"/b".to_string(), 3).is_none());
    assert!(cache.get(&"/c".to_string(), 3).is_some());
}

#[test]
fn expired_entries_are_absent() {
    let mut cache = EntryCache::new(600, 10);
    cache.put("/a".to_string(), single("X"), 1000);
    assert!(cache.get(&"/a".to_string(), 1599).is_some());
    assert!(cache.get(&"/a".to_string(), 1600).is_none());
    assert!(cache.get(&"/a".to_string(), 9999).is_none());
}

#[test]
fn put_replaces_in_place() {
    let mut cache = EntryCache::new(600, 2);
    cache.put("/a".to_string(), single("X"), 0);
    cache.put("/b".to_string(), single("Y"), 0);
    cache.put("/a".to_string(), single("X2"), 5);
    // no eviction happened: both keys resident, "/a" holds the new value
    let a = cache.get(&"/a".to_string(), 6).expect("/a stays");
    assert_eq!(id_of(&a.value), "X2");
    assert_eq!(a.inserted_at, 5);
    assert!(cache.get(&"/b".to_string(), 6).is_some());
}

#[test]
fn invalidate_removes_path_and_parent() {
    let mut cache = EntryCache::new(600, 10);
    cache.put("/docs".to_string(), single("D"), 0);
    cache.put("/docs/a.txt".to_string(), single("A"), 0);
    cache.put("/other".to_string(), single("O"), 0);
    cache.invalidate(&"/docs/a.txt".to_string());
    assert!(cache.get(&"/docs/a.txt".to_string(), 1).is_none());
    assert!(cache.get(&"/docs".to_string(), 1).is_none());
    assert!(cache.get(&"/other".to_string(), 1).is_some());
}

#[test]
fn invalidate_prefix_removes_subtree_only() {
    let mut cache = EntryCache::new(600, 10);
    cache.put("/a".to_string(), single("A"), 0);
    cache.put("/a/b".to_string(), single("B"), 0);
    cache.put("/a/b/c".to_string(), single("C"), 0);
    cache.put("/ab".to_string(), single("AB"), 0);
    cache.invalidate_prefix(&"/a".to_string());
    assert!(cache.get(&"/a".to_string(), 1).is_none());
    assert!(cache.get(&"/a/b".to_string(), 1).is_none());
    assert!(cache.get(&"/a/b/c".to_string(), 1).is_none());
    assert!(cache.get(&"/ab".to_string(), 1).is_some());
}

#[test]
fn parent_of_paths() {
    assert_eq!(parent_of("/a/b"), "/a");
    assert_eq!(parent_of("/a"), "/");
    assert_eq!(parent_of("/"), "/");
    assert_eq!(parent_of("a"), "");
    assert_eq!(parent_of("/a/b/"), "/a/b");
}
