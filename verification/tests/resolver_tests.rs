use aliyundrive_webdav::cache::EntryCache;
use aliyundrive_webdav::entry::{CacheValue, Entry, EntryKind};
use aliyundrive_webdav::resolver::{
    find_child, join_child, resolve_cached, split_path, ResolveError, ResolveStep,
};

fn entry(id: &str, parent: &str, name: &str, kind: EntryKind) -> Entry {
    Entry {
        id: id.to_string(),
        parent_path: parent.to_string(),
        name: name.to_string(),
        kind,
        size: 0,
        modified_at: 0,
    }
}

fn root() -> Entry {
    entry("root", "", "", EntryKind::Directory)
}

#[test]
fn split_path_components() {
    assert_eq!(split_path("/a/b"), vec!["a".to_string(), "b".to_string()]);
    assert_eq!(split_path("a//b/"), vec!["a".to_string(), "b".to_string()]);
    assert_eq!(split_path("/"), Vec::<String>::new());
    assert_eq!(split_path(""), Vec::<String>::new());
    assert_eq!(split_path("docs"), vec!["docs".to_string()]);
}

#[test]
fn join_child_keys() {
    assert_eq!(join_child(&"/".to_string(), &"a".to_string()), "/a");
    assert_eq!(join_child(&"/a".to_string(), &"b".to_string()), "/a/b");
}

#[test]
fn duplicate_names_first_occurrence_wins() {
    let listing = vec![
        entry("first", "/", "x", EntryKind::File),
        entry("second", "/", "x", EntryKind::File),
    ];
    let found = find_child(&listing, &"x".to_string()).expect("x is there");
    assert_eq!(found.id, "first");
}

#[test]
fn resolve_walks_cached_listings() {
    let mut cache = EntryCache::new(600, 100);
    cache.put(
        "/".to_string(),
        CacheValue::Listing(vec![
            entry("d1", "/", "docs", EntryKind::Directory),
            entry("f1", "/", "readme.txt", EntryKind::File),
        ]),
        0,
    );
    cache.put(
        "/docs".to_string(),
        CacheValue::Listing(vec![entry("f2", "/docs", "a.txt", EntryKind::File)]),
        0,
    );
    let comps = vec!["docs".to_string(), "a.txt".to_string()];
    match resolve_cached(&mut cache, &root(), &comps, 1) {
        ResolveStep::Done(Ok(e)) => {
            assert_eq!(e.id, "f2");
            assert_eq!(e.name, "a.txt");
        },
        _ => panic!("expected a resolved entry"),
    }
    // an empty component list resolves to the root itself
    match resolve_cached(&mut cache, &root(), &Vec::new(), 1) {
        ResolveStep::Done(Ok(e)) => assert_eq!(e.id, "root"),
        _ => panic!("expected the root"),
    }
}

#[test]
fn resolve_reports_the_missing_listing() {
    let mut cache = EntryCache::new(600, 100);
    let comps = vec!["docs".to_string()];
    match resolve_cached(&mut cache, &root(), &comps, 0) {
        ResolveStep::NeedListing(path, id) => {
            assert_eq!(path, "/");
            assert_eq!(id, "root");
        },
        _ => panic!("expected a miss on the root listing"),
    }
}

#[test]
fn resolve_not_found_and_not_a_directory() {
    let mut cache = EntryCache::new(600, 100);
    cache.put(
        "/".to_string(),
        CacheValue::Listing(vec![entry("f1", "/", "readme.txt", EntryKind::File)]),
        0,
    );
    match resolve_cached(&mut cache, &root(), &vec!["nope".to_string()], 1) {
        ResolveStep::Done(Err(ResolveError::NotFound)) => {},
        _ => panic!("expected NotFound"),
    }
    match resolve_cached(
        &mut cache,
        &root(),
        &vec!["readme.txt".to_string(), "inner".to_string()],
        1,
    ) {
        ResolveStep::Done(Err(ResolveError::NotADirectory)) => {},
        _ => panic!("expected NotADirectory"),
    }
}

#[test]
fn resolution_is_repeatable_between_fills() {
    // the same unmodified path, resolved twice against two separate cache
    // fills of the same remote listings, yields identical entry data
    let listing_root = vec![entry("d1", "/", "docs", EntryKind::Directory)];
    let listing_docs = vec![entry("f2", "/docs", "a.txt", EntryKind::File)];
    let comps = vec!["docs".to_string(), "a.txt".to_string()];
    let mut ids = Vec::new();
    for fill_time in [0u64, 50u64] {
        let mut cache = EntryCache::new(600, 100);
        cache.put("/".to_string(), CacheValue::Listing(listing_root.clone()), fill_time);
        cache.put("/docs".to_string(), CacheValue::Listing(listing_docs.clone()), fill_time);
        match resolve_cached(&mut cache, &root(), &comps, fill_time + 1) {
            ResolveStep::Done(Ok(e)) => ids.push(e.id),
            _ => panic!("expected a resolved entry"),
        }
    }
    assert_eq!(ids[0], ids[1]);
}

#[test]
fn expired_listing_counts_as_a_miss() {
    let mut cache = EntryCache::new(600, 100);
    cache.put(
        "/".to_string(),
        CacheValue::Listing(vec![entry("d1", "/", "docs", EntryKind::Directory)]),
        0,
    );
    match resolve_cached(&mut cache, &root(), &vec!["docs".to_string()], 600) {
        ResolveStep::NeedListing(path, _) => assert_eq!(path, "/"),
        _ => panic!("expected the stale listing to be refetched"),
    }
}
