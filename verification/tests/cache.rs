use autoenc::cache::{Cache, FileCache};
use autoenc::path::{PathComponent, ScriptPath};

fn path(parts: &[&str]) -> ScriptPath {
    ScriptPath {
        components: parts.iter().map(|p| PathComponent::Normal(p.as_bytes().to_vec())).collect(),
    }
}

#[test]
fn new_cache_is_empty() {
    let cache = Cache::new("autoenc.cache".to_string());
    assert_eq!(cache.version(), 1);
    assert_eq!(cache.cache_path(), "autoenc.cache");
    assert!(cache.entries().is_empty());
    assert_eq!(cache.get_and_check(&path(&["s", "a.lua"]), 1, 2), None);
}

#[test]
fn lookup_after_update_finds_the_record() {
    let mut cache = Cache::new("c".to_string());
    cache.update(path(&["s", "a.lua"]), 100, 20, true);
    assert_eq!(
        cache.get_and_check(&path(&["s", "a.lua"]), 100, 20),
        Some(FileCache { mtime: 100, size: 20, encrypt: true })
    );
}

#[test]
fn changed_file_misses() {
    let mut cache = Cache::new("c".to_string());
    cache.update(path(&["s", "a.lua"]), 100, 20, false);
    assert_eq!(cache.get_and_check(&path(&["s", "a.lua"]), 101, 20), None);
    assert_eq!(cache.get_and_check(&path(&["s", "a.lua"]), 100, 21), None);
}

#[test]
fn update_replaces_and_keeps_others() {
    let mut cache = Cache::new("c".to_string());
    cache.update(path(&["s", "a.lua"]), 1, 1, false);
    cache.update(path(&["s", "b.lua"]), 2, 2, true);
    cache.update(path(&["s", "a.lua"]), 3, 3, true);
    assert_eq!(cache.entries().len(), 2);
    assert_eq!(
        cache.get_and_check(&path(&["s", "a.lua"]), 3, 3),
        Some(FileCache { mtime: 3, size: 3, encrypt: true })
    );
    assert_eq!(
        cache.get_and_check(&path(&["s", "b.lua"]), 2, 2),
        Some(FileCache { mtime: 2, size: 2, encrypt: true })
    );
}

#[test]
fn stored_cache_of_current_version_is_taken() {
    let entries = vec![
        (path(&["a.lua"]), FileCache { mtime: 1, size: 1, encrypt: true }),
        (path(&["b.lua"]), FileCache { mtime: 2, size: 2, encrypt: false }),
        (path(&["a.lua"]), FileCache { mtime: 5, size: 5, encrypt: false }),
    ];
    let cache = Cache::from_file("c".to_string(), Some((1, entries)));
    assert_eq!(cache.version(), 1);
    assert_eq!(cache.entries().len(), 2);
    assert_eq!(
        cache.get_and_check(&path(&["a.lua"]), 5, 5),
        Some(FileCache { mtime: 5, size: 5, encrypt: false })
    );
    assert_eq!(cache.get_and_check(&path(&["a.lua"]), 1, 1), None);
}

#[test]
fn stored_cache_of_other_version_is_dropped() {
    let entries = vec![(path(&["a.lua"]), FileCache { mtime: 1, size: 1, encrypt: true })];
    let cache = Cache::from_file("c".to_string(), Some((2, entries)));
    assert_eq!(cache.version(), 1);
    assert!(cache.entries().is_empty());
    assert_eq!(cache.cache_path(), "c");
}

#[test]
fn unreadable_cache_gives_empty_cache() {
    let cache = Cache::from_file("c".to_string(), None);
    assert!(cache.entries().is_empty());
}

#[test]
fn stored_cache_reads_back_unchanged() {
    let mut cache = Cache::new("store.cache".to_string());
    cache.update(path(&["a.lua"]), 1, 10, true);
    cache.update(path(&["b", "c.lua"]), 2, 20, false);
    cache.update(path(&["a.lua"]), 3, 30, false);
    let stored: Vec<(ScriptPath, FileCache)> =
        cache.entries().iter().map(|(p, e)| (p.copy(), *e)).collect();
    let back = Cache::from_file(cache.cache_path().clone(), Some((cache.version(), stored)));
    assert_eq!(back.version(), 1);
    assert_eq!(back.cache_path(), "store.cache");
    assert_eq!(back.entries().len(), 2);
    assert_eq!(
        back.get_and_check(&path(&["a.lua"]), 3, 30),
        Some(FileCache { mtime: 3, size: 30, encrypt: false })
    );
    assert_eq!(
        back.get_and_check(&path(&["b", "c.lua"]), 2, 20),
        Some(FileCache { mtime: 2, size: 20, encrypt: false })
    );
}
