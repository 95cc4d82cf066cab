use aliyundrive_webdav::adapter::{
    after_mutation, after_subtree_mutation, fs_error_of, guard_operation, FsError, FsOp,
};
use aliyundrive_webdav::auth::{auth_config_valid, check_basic_auth, AuthDecision};
use aliyundrive_webdav::cache::EntryCache;
use aliyundrive_webdav::entry::{CacheValue, Entry, EntryKind};
use aliyundrive_webdav::retry::DriveError;

fn single(id: &str) -> CacheValue {
    CacheValue::Single(Entry {
        id: id.to_string(),
        parent_path: "/".to_string(),
        name: id.to_string(),
        kind: EntryKind::File,
        size: 0,
        modified_at: 0,
    })
}

#[test]
fn read_only_mode_refuses_mutations_early() {
    for op in [FsOp::Create, FsOp::Write, FsOp::Delete, FsOp::Rename] {
        assert_eq!(guard_operation(true, op), Err(FsError::PermissionDenied));
        assert_eq!(guard_operation(false, op), Ok(()));
    }
    for op in [FsOp::List, FsOp::Stat, FsOp::Read] {
        assert_eq!(guard_operation(true, op), Ok(()));
        assert_eq!(guard_operation(false, op), Ok(()));
    }
}

#[test]
fn drive_errors_translate_to_protocol_vocabulary() {
    assert_eq!(fs_error_of(DriveError::NotFound), FsError::NotFound);
    assert_eq!(fs_error_of(DriveError::Conflict), FsError::Conflict);
    assert_eq!(fs_error_of(DriveError::Unauthorized), FsError::PermissionDenied);
    assert_eq!(fs_error_of(DriveError::RateLimited), FsError::IoFailure);
    assert_eq!(fs_error_of(DriveError::Transient), FsError::IoFailure);
    assert_eq!(fs_error_of(DriveError::Fatal), FsError::IoFailure);
}

#[test]
fn mutation_invalidates_path_and_parent_listing() {
    // a read immediately after a successful mutation must not see the
    // pre-mutation cached data, for the path or its parent listing
    let mut cache = EntryCache::new(600, 100);
    cache.put("/docs".to_string(), single("old-listing"), 0);
    cache.put("/docs/a.txt".to_string(), single("old-entry"), 0);
    cache.put("/unrelated".to_string(), single("kept"), 0);
    after_mutation(&mut cache, &"/docs/a.txt".to_string());
    assert!(cache.get(&"/docs/a.txt".to_string(), 1).is_none());
    assert!(cache.get(&"/docs".to_string(), 1).is_none());
    assert!(cache.get(&"/unrelated".to_string(), 1).is_some());
}

#[test]
fn subtree_mutation_invalidates_descendants() {
    let mut cache = EntryCache::new(600, 100);
    cache.put("/docs".to_string(), single("L"), 0);
    cache.put("/docs/a".to_string(), single("A"), 0);
    cache.put("/docs/a/b".to_string(), single("B"), 0);
    cache.put("/other".to_string(), single("O"), 0);
    after_subtree_mutation(&mut cache, &"/docs/a".to_string());
    assert!(cache.get(&"/docs/a".to_string(), 1).is_none());
    assert!(cache.get(&"/docs/a/b".to_string(), 1).is_none());
    assert!(cache.get(&"/docs".to_string(), 1).is_none());
    assert!(cache.get(&"/other".to_string(), 1).is_some());
}

#[test]
fn basic_auth_decisions() {
    let user = Some("alice".to_string());
    let pass = Some("secret".to_string());
    // no auth configured: open
    assert!(matches!(check_basic_auth(&None, &None, &None), AuthDecision::Open));
    // right credentials: authorized as the configured principal
    match check_basic_auth(
        &user,
        &pass,
        &Some(("alice".to_string(), "secret".to_string())),
    ) {
        AuthDecision::Authorized(p) => assert_eq!(p, "alice"),
        _ => panic!("expected authorization"),
    }
    // wrong password, wrong user, or no header: a challenge, never a crash
    assert!(matches!(
        check_basic_auth(&user, &pass, &Some(("alice".to_string(), "wrong".to_string()))),
        AuthDecision::Challenge
    ));
    assert!(matches!(
        check_basic_auth(&user, &pass, &Some(("bob".to_string(), "secret".to_string()))),
        AuthDecision::Challenge
    ));
    assert!(matches!(check_basic_auth(&user, &pass, &None), AuthDecision::Challenge));
}

#[test]
fn auth_config_must_be_paired() {
    assert!(auth_config_valid(&None, &None));
    assert!(auth_config_valid(&Some("u".to_string()), &Some("p".to_string())));
    assert!(!auth_config_valid(&Some("u".to_string()), &None));
    assert!(!auth_config_valid(&None, &Some("p".to_string())));
}
