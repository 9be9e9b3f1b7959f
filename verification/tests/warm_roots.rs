use vitre_app::warm_roots::{evict_one, park, revive, FILES_CACHE_ROOTS};

fn roots(cache: &[(String, u32)]) -> Vec<&str> {
    cache.iter().map(|(k, _)| k.as_str()).collect()
}

#[test]
fn parking_replaces_the_older_entry_for_a_root() {
    let mut cache: Vec<(String, u32)> = Vec::new();
    park(&mut cache, "/a".to_string(), 1);
    park(&mut cache, "/b".to_string(), 2);
    park(&mut cache, "/a".to_string(), 3);
    assert_eq!(roots(&cache), vec!["/b", "/a"]);
    assert_eq!(cache[1].1, 3);
}

#[test]
fn eviction_drops_the_oldest_clean_panel_past_the_limit() {
    let mut cache: Vec<(String, u32)> = Vec::new();
    for (i, root) in ["/a", "/b", "/c", "/d", "/e"].iter().enumerate() {
        park(&mut cache, root.to_string(), i as u32);
    }
    assert_eq!(cache.len(), FILES_CACHE_ROOTS + 1);
    // "/a" has unsaved changes: "/b" goes instead.
    evict_one(&mut cache, &[false, true, true, true, true]);
    assert_eq!(roots(&cache), vec!["/a", "/c", "/d", "/e"]);
    // At the limit nothing is dropped.
    evict_one(&mut cache, &[true, true, true, true]);
    assert_eq!(cache.len(), FILES_CACHE_ROOTS);
}

#[test]
fn eviction_keeps_everything_when_all_panels_are_dirty() {
    let mut cache: Vec<(String, u32)> = Vec::new();
    for (i, root) in ["/a", "/b", "/c", "/d", "/e"].iter().enumerate() {
        park(&mut cache, root.to_string(), i as u32);
    }
    evict_one(&mut cache, &[false; 5]);
    assert_eq!(cache.len(), 5);
}

#[test]
fn reviving_returns_the_parked_panel() {
    let mut cache: Vec<(String, u32)> = Vec::new();
    park(&mut cache, "/a".to_string(), 7);
    park(&mut cache, "/b".to_string(), 8);
    assert_eq!(revive(&mut cache, "/a"), Some(7));
    assert_eq!(roots(&cache), vec!["/b"]);
    assert_eq!(revive(&mut cache, "/z"), None);
    assert_eq!(roots(&cache), vec!["/b"]);
}
