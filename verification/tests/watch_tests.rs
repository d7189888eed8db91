use mdterm::models::FileEvent;
use mdterm::watch::{change_event, is_watched_file, ChangeKind};

#[test]
fn test_watch_created() {
    let event = change_event("test.md", "/tmp/x/test.md".to_string(), ChangeKind::Create, 7);
    match event {
        Some(FileEvent::Created { path, mtime }) => {
            assert!(path.contains("test.md"));
            assert_eq!(mtime, 7);
        }
        other => panic!("Expected Created event, got {:?}", other),
    }
}

#[test]
fn test_watch_modified() {
    let event = change_event("test.md", "/tmp/x/test.md".to_string(), ChangeKind::Modify, 9);
    match event {
        Some(FileEvent::Modified { path, .. }) => assert!(path.contains("test.md")),
        other => panic!("Expected Modified event, got {:?}", other),
    }
}

#[test]
fn test_watch_deleted() {
    let event = change_event("test.md", "/tmp/x/test.md".to_string(), ChangeKind::Remove, 0);
    assert_eq!(event, Some(FileEvent::Deleted { path: "/tmp/x/test.md".to_string() }));
}

#[test]
fn test_watch_filters_non_md_files() {
    assert!(change_event("test.txt", "/tmp/x/test.txt".to_string(), ChangeKind::Create, 1).is_none());
    assert!(!is_watched_file("test.txt"));
}

#[test]
fn test_watch_filters_temp_files() {
    assert!(change_event("test.md~", "/tmp/x/test.md~".to_string(), ChangeKind::Create, 1).is_none());
    assert!(change_event(".test.md.swp", "/tmp/x/.test.md.swp".to_string(), ChangeKind::Create, 1).is_none());
    assert!(!is_watched_file("a.swp.md"));
}

#[test]
fn other_change_kinds_are_not_reported() {
    assert!(change_event("a.md", "a.md".to_string(), ChangeKind::Other, 1).is_none());
    assert!(is_watched_file("A.MD"));
}
