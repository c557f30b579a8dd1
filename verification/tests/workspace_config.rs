use neodos_toolkit::config::{EnvOverrides, IndexingStrategy, NeodosConfig};
use neodos_toolkit::workspace::{FileEvent, FileMeta, WorkspaceManager};

fn meta(t: i128, size: u64) -> FileMeta {
    FileMeta { modified: t, size }
}

#[test]
fn poll_after_register_is_quiet_then_sees_modification() {
    let mut wm = WorkspaceManager::new(NeodosConfig::default());
    let files = vec![("test.rs".to_string(), meta(1, 2))];
    wm.register_files(&files);
    let first = wm.poll_for_changes(&vec![Some(meta(1, 2))], &files);
    assert!(first.is_empty());
    let changed = vec![("test.rs".to_string(), meta(5, 2))];
    let events = wm.poll_for_changes(&vec![Some(meta(5, 2))], &changed);
    assert_eq!(events.len(), 1);
    assert!(matches!(events[0].1, FileEvent::Modified(_)));
}

#[test]
fn poll_sees_new_file() {
    let mut wm = WorkspaceManager::new(NeodosConfig::default());
    wm.register_files(&vec![]);
    let found = vec![("new.rs".to_string(), meta(3, 9))];
    let events = wm.poll_for_changes(&vec![], &found);
    assert!(events.iter().any(|(_, e)| matches!(e, FileEvent::Created(_))));
    assert_eq!(wm.known_paths(), vec!["new.rs".to_string()]);
}

#[test]
fn poll_sees_deleted_file_and_unreadable_metadata() {
    let mut wm = WorkspaceManager::new(NeodosConfig::default());
    wm.register_files(&vec![("a.rs".to_string(), meta(1, 1)), ("b.rs".to_string(), meta(1, 1))]);
    let events = wm.poll_for_changes(&vec![None, Some(meta(1, 1))], &vec![("b.rs".to_string(), meta(1, 1))]);
    assert_eq!(events.len(), 1);
    match &events[0].1 {
        FileEvent::Deleted(p) => assert_eq!(p, "a.rs"),
        _ => panic!("expected a deletion"),
    }
    assert_eq!(wm.known_paths(), vec!["b.rs".to_string()]);
}

#[test]
fn rescan_request_is_answered_alone() {
    let mut wm = WorkspaceManager::new(NeodosConfig::default());
    wm.register_files(&vec![("a.rs".to_string(), meta(1, 1))]);
    wm.request_rescan();
    let events = wm.poll_for_changes(&vec![Some(meta(9, 9))], &vec![]);
    assert_eq!(events.len(), 1);
    assert!(matches!(events[0].1, FileEvent::FullRescan));
    let next = wm.poll_for_changes(&vec![Some(meta(1, 1))], &vec![("a.rs".to_string(), meta(1, 1))]);
    assert!(next.is_empty());
}

#[test]
fn default_configuration() {
    let c = NeodosConfig::default();
    assert_eq!(c.workspace.roots, vec![".".to_string()]);
    assert_eq!(c.workspace.max_files, 10000);
    assert_eq!(c.cache.documents, 256);
    assert_eq!(c.indexing.threads, 0);
    assert!(c.workspace.watch_enabled);
    assert_eq!(c.indexing.strategy, IndexingStrategy::Incremental);
    assert_eq!(c.workspace.exclude_patterns.len(), 8);
    assert_eq!(c.workspace.exclude_patterns[0], "target/**");
}

#[test]
fn environment_overrides() {
    let env = EnvOverrides {
        root: Some("/src/neodos".to_string()),
        max_files: Some("50".to_string()),
        cache_size: Some("many".to_string()),
        threads: Some("+4".to_string()),
        watch: Some("TRUE".to_string()),
    };
    let c = NeodosConfig::detection(&env);
    assert_eq!(c.workspace.roots, vec!["/src/neodos".to_string()]);
    assert_eq!(c.workspace.max_files, 50);
    assert_eq!(c.cache.documents, 256);
    assert_eq!(c.indexing.threads, 4);
    assert!(c.workspace.watch_enabled);
    let off = EnvOverrides { root: None, max_files: None, cache_size: None, threads: None, watch: Some("0".to_string()) };
    assert!(!NeodosConfig::detection(&off).workspace.watch_enabled);
}

#[test]
fn registering_a_file_twice_keeps_one_record() {
    let mut wm = WorkspaceManager::new(NeodosConfig::default());
    wm.register_files(&vec![("a.rs".to_string(), meta(1, 1)), ("a.rs".to_string(), meta(2, 2))]);
    assert_eq!(wm.known_paths(), vec!["a.rs".to_string()]);
    let events = wm.poll_for_changes(&vec![Some(meta(2, 2))], &vec![("a.rs".to_string(), meta(2, 2))]);
    assert!(events.is_empty());
}
