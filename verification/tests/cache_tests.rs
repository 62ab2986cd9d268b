use regit::{Cache, archive_path_for};

#[test]
fn repairs_cache_tree() {
    let cache = Cache::new_custom("cachedir");
    cache.repair();
}

#[test]
fn cleans_cache() {
    let mut cache = Cache::new_custom("cachedir");
    cache.update("a/b:HEAD", "1234", "cachedir");
    cache.clean();
    assert!(cache.tree().is_empty());
    assert_eq!(cache.lookup("a/b:HEAD"), None);
}

#[test]
fn loads_cache_tree() {
    let cache = Cache::new_custom("cachedir").load("{\"acme/widgets:HEAD\":\"cafebabe\"}");
    assert_eq!(cache.lookup("acme/widgets:HEAD"), Some("cafebabe".to_string()));
    assert_eq!(cache.lookup("acme/widgets:dev"), None);
    assert_eq!(cache.dir(), "cachedir");
}

#[test]
fn malformed_config_is_an_empty_cache() {
    let cache = Cache::new_custom("cachedir").load("not json at all {");
    assert!(cache.tree().is_empty());
    let cache = Cache::new_custom("cachedir").load("{\"key\": 7}");
    assert!(cache.tree().is_empty());
}

#[test]
fn persisted_map_round_trips() {
    let mut cache = Cache::new_custom("cachedir");
    cache.update("acme/widgets:v2.0.0", "deadbeef", "cachedir");
    cache.update("acme/widgets:HEAD", "cafebabe", "cachedir");
    let text = cache.persist_string();
    let reloaded = Cache::new_custom("cachedir").load(&text);
    assert_eq!(
        reloaded.lookup("acme/widgets:v2.0.0"),
        Some("deadbeef".to_string())
    );
    assert_eq!(
        reloaded.lookup("acme/widgets:HEAD"),
        Some("cafebabe".to_string())
    );
    assert_eq!(reloaded.tree().len(), 2);
}

#[test]
fn lookup_and_key_building() {
    let mut cache = Cache::new_custom("cachedir");
    cache.update("acme/widgets:dev", "2222", "cachedir");
    assert_eq!(
        cache.get_cached_hash("acme/widgets", "dev"),
        Some("2222".to_string())
    );
    assert_eq!(cache.get_cached_hash("acme/widgets", "main"), None);
    // The key is `<id>:<ref>`: a different split is a different key.
    assert_eq!(cache.get_cached_hash("acme", "widgets:dev"), None);
}

#[test]
fn update_is_idempotent() {
    let mut cache = Cache::new_custom("cachedir");
    let first = cache.update("a/b:HEAD", "1111", "cachedir");
    assert_eq!(first, None);
    let after_one = cache.persist_string();
    let entries_after_one = cache.tree().clone();
    let second = cache.update("a/b:HEAD", "1111", "cachedir");
    assert_eq!(second, None, "a repeated update must not evict anything");
    assert_eq!(cache.persist_string(), after_one);
    assert_eq!(cache.tree(), &entries_after_one);
}

#[test]
fn update_replaces_and_evicts_unreferenced_hash() {
    let mut cache = Cache::new_custom("cachedir");
    assert_eq!(cache.update("a/b:dev", "1111", "cachedir"), None);
    let evict = cache.update("a/b:dev", "2222", "cachedir");
    assert_eq!(evict, Some("cachedir/1111.tar.gz".to_string()));
    assert_eq!(cache.lookup("a/b:dev"), Some("2222".to_string()));
}

#[test]
fn shared_hash_is_not_evicted() {
    let mut cache = Cache::new_custom("cachedir");
    cache.update("a/b:dev", "1111", "cachedir");
    cache.update("a/b:v1.0.0", "1111", "cachedir");
    // "a/b:dev" moves away from 1111, but the tag still references it.
    let evict = cache.update("a/b:dev", "2222", "cachedir");
    assert_eq!(evict, None, "a hash still referenced must not be deleted");
    assert_eq!(cache.lookup("a/b:v1.0.0"), Some("1111".to_string()));
    // Once the tag moves too, nothing references 1111 any more.
    let evict = cache.update("a/b:v1.0.0", "2222", "cachedir");
    assert_eq!(evict, Some("cachedir/1111.tar.gz".to_string()));
}

#[test]
fn finds_repo_location_by_hash() {
    let mut cache = Cache::new_custom("cachedir");
    cache.update("a/b:dev", "1111", "cachedir");
    cache.update("c/d:main", "2222", "cachedir");
    assert_eq!(cache.get_repo_location("2222"), Some("c/d:main".to_string()));
    assert_eq!(cache.get_repo_location("9999"), None);
}

#[test]
fn archive_paths() {
    assert_eq!(archive_path_for("/home/u/.regit", "cafe"), "/home/u/.regit/cafe.tar.gz");
    let cache = Cache::new_custom("/home/u/.regit");
    assert_eq!(cache.config_path(), "/home/u/.regit/config.json");
}
