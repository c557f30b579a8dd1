use neodos_toolkit::cache::DocumentCache;
use neodos_toolkit::indexer::ParsedFile;

fn empty() -> ParsedFile {
    ParsedFile { symbols: vec![], references: vec![], neodos_items: vec![] }
}

#[test]
fn test_cache_insert_and_get() {
    let mut cache = DocumentCache::new(10);
    let p = "test.rs".to_string();
    cache.insert(p.clone(), "fn foo() {}".to_string(), 1, empty());
    let src = cache.get_source(&p).expect("should be cached");
    assert_eq!(src, "fn foo() {}");
}

#[test]
fn test_cache_update() {
    let mut cache = DocumentCache::new(10);
    let p = "v.rs".to_string();
    cache.insert(p.clone(), "old".to_string(), 1, empty());
    assert_eq!(cache.get_source(&p), Some("old".to_string()));
    cache.insert(p.clone(), "new".to_string(), 2, empty());
    assert_eq!(cache.get_source(&p), Some("new".to_string()));
}

#[test]
fn full_cache_evicts_oldest_insertion() {
    let mut cache = DocumentCache::new(2);
    cache.insert("a.rs".to_string(), "a".to_string(), 1, empty());
    cache.insert("b.rs".to_string(), "b".to_string(), 1, empty());
    cache.insert("a.rs".to_string(), "a2".to_string(), 2, empty());
    cache.insert("c.rs".to_string(), "c".to_string(), 1, empty());
    assert_eq!(cache.get_source("b.rs"), None);
    assert_eq!(cache.get_source("a.rs"), Some("a2".to_string()));
    assert_eq!(cache.get_source("c.rs"), Some("c".to_string()));
}

#[test]
fn capacity_is_at_least_two() {
    let mut cache = DocumentCache::new(0);
    cache.insert("a.rs".to_string(), "a".to_string(), 1, empty());
    cache.insert("b.rs".to_string(), "b".to_string(), 1, empty());
    assert_eq!(cache.get_source("a.rs"), Some("a".to_string()));
    assert_eq!(cache.get_source("b.rs"), Some("b".to_string()));
}

#[test]
fn removed_document_is_gone() {
    let mut cache = DocumentCache::new(4);
    cache.insert("a.rs".to_string(), "a".to_string(), 1, empty());
    cache.remove("a.rs");
    assert_eq!(cache.get_source("a.rs"), None);
    cache.remove("missing.rs");
}
