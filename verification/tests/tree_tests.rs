use mdterm::listing::{DirEntryInfo, DirListing, EntryKind, EntryMeta, FileService, IoErrorKind, IoFailure};
use mdterm::models::TreeNode;
use mdterm::tree::{EntryRole, TreeProgress};

fn entry(name: &str, rel: &str, kind: EntryKind) -> DirEntryInfo {
    DirEntryInfo {
        name: name.to_string(),
        rel_path: rel.to_string(),
        kind,
        meta: Ok(EntryMeta { size: 3, modified_secs: Some(42), is_dir: kind == EntryKind::Dir }),
    }
}

/// Runs a walk against an in-memory directory listing.
fn walk(
    svc: &FileService,
    root: &str,
    list: &dyn Fn(&str) -> Result<Vec<DirEntryInfo>, IoFailure>,
) -> Result<TreeNode, IoFailure> {
    let read = |p: &str| match list(p) {
        Ok(entries) => DirListing { entries, failure: None },
        Err(f) => DirListing { entries: vec![], failure: Some(f) },
    };
    let mut progress = svc.tree(root.to_string(), read(""));
    loop {
        match progress {
            TreeProgress::Pending(w, path) => progress = w.resume(svc, read(&path)),
            TreeProgress::Done(r) => return r,
        }
    }
}

fn names(n: &TreeNode) -> Vec<String> {
    n.children.as_ref().unwrap().iter().map(|c| c.name.clone()).collect()
}

#[test]
fn test_tree() {
    let svc = FileService::new("/tmp/base".to_string(), None);
    let list = |p: &str| -> Result<Vec<DirEntryInfo>, IoFailure> {
        match p {
            "" => Ok(vec![entry("subdir", "subdir", EntryKind::Dir), entry("root.md", "root.md", EntryKind::File)]),
            "subdir" => Ok(vec![entry("nested.md", "subdir/nested.md", EntryKind::File)]),
            _ => Err(IoFailure { kind: IoErrorKind::NotFound, message: "missing".to_string() }),
        }
    };
    let tree = walk(&svc, "base", &list).unwrap();
    assert_eq!(tree.name, "base");
    assert_eq!(tree.path, "");
    assert!(tree.children.is_some());
    assert_eq!(names(&tree), vec!["root.md", "subdir"]);
    let sub = &tree.children.as_ref().unwrap()[1];
    assert_eq!(sub.path, "subdir");
    assert!(sub.size.is_none());
    let nested = &sub.children.as_ref().unwrap()[0];
    assert_eq!(nested.path, "subdir/nested.md");
    assert_eq!(nested.size, Some(3));
    assert_eq!(nested.mtime, Some(42));
    assert!(nested.children.is_none());
}

#[test]
fn tree_skips_directories_without_markdown_and_failed_listings() {
    let svc = FileService::new("/r".to_string(), Some(vec!["ignored/".to_string()]));
    let list = |p: &str| -> Result<Vec<DirEntryInfo>, IoFailure> {
        match p {
            "" => Ok(vec![
                entry("empty", "empty", EntryKind::Dir),
                entry("broken", "broken", EntryKind::Dir),
                entry("ignored", "ignored", EntryKind::Dir),
                entry(".hidden", ".hidden", EntryKind::Dir),
                entry("b.md", "b.md", EntryKind::File),
                entry("a.txt", "a.txt", EntryKind::File),
                entry("deep", "deep", EntryKind::Dir),
            ]),
            "empty" => Ok(vec![entry("x.txt", "empty/x.txt", EntryKind::File)]),
            "deep" => Ok(vec![entry("a.md", "deep/a.md", EntryKind::File), entry("inner", "deep/inner", EntryKind::Dir)]),
            "deep/inner" => Ok(vec![entry("c.md", "deep/inner/c.md", EntryKind::File)]),
            "ignored" => Ok(vec![entry("i.md", "ignored/i.md", EntryKind::File)]),
            _ => Err(IoFailure { kind: IoErrorKind::Other, message: "unreadable".to_string() }),
        }
    };
    let tree = walk(&svc, "r", &list).unwrap();
    assert_eq!(names(&tree), vec!["b.md", "deep"]);
    let deep = &tree.children.as_ref().unwrap()[1];
    assert_eq!(names(deep), vec!["a.md", "inner"]);
}

#[test]
fn tree_fails_when_root_cannot_be_listed() {
    let svc = FileService::new("/r".to_string(), None);
    let r = svc.tree(
        "r".to_string(),
        DirListing { entries: vec![], failure: Some(IoFailure { kind: IoErrorKind::NotFound, message: "gone".to_string() }) },
    );
    match r {
        TreeProgress::Done(Err(f)) => assert_eq!(f.message, "gone"),
        _ => panic!("expected failure"),
    }
}

#[test]
fn tree_fails_on_markdown_metadata_error() {
    let svc = FileService::new("/r".to_string(), None);
    let bad = DirEntryInfo {
        name: "a.md".to_string(),
        rel_path: "a.md".to_string(),
        kind: EntryKind::File,
        meta: Err(IoFailure { kind: IoErrorKind::Other, message: "stat failed".to_string() }),
    };
    match svc.tree("r".to_string(), DirListing { entries: vec![bad], failure: None }) {
        TreeProgress::Done(Err(f)) => assert_eq!(f.message, "stat failed"),
        _ => panic!("expected failure"),
    }
}

#[test]
fn tree_roles() {
    let svc = FileService::new("/r".to_string(), Some(vec!["*.draft.md".to_string()]));
    assert_eq!(svc.tree_role_of(&entry("a.md", "a.md", EntryKind::File)), EntryRole::FileNode);
    assert_eq!(svc.tree_role_of(&entry("x.draft.md", "x.draft.md", EntryKind::File)), EntryRole::Skip);
    assert_eq!(svc.tree_role_of(&entry("d", "d", EntryKind::Dir)), EntryRole::Descend);
    assert_eq!(svc.tree_role_of(&entry(".d", ".d", EntryKind::Dir)), EntryRole::Skip);
    assert_eq!(svc.tree_role_of(&entry("l.md", "l.md", EntryKind::Other)), EntryRole::Skip);
}

#[test]
fn tree_node_constructors() {
    let f = TreeNode::file("a.md".to_string(), "d/a.md".to_string(), 10, 20);
    assert_eq!(f.size, Some(10));
    assert_eq!(f.mtime, Some(20));
    assert!(f.children.is_none());
    let d = TreeNode::dir("d".to_string(), "d".to_string(), vec![f]);
    assert!(d.size.is_none() && d.mtime.is_none());
    assert_eq!(d.children.unwrap().len(), 1);
}

#[test]
fn tree_entries_also_appear_in_listing() {
    let svc = FileService::new("/r".to_string(), Some(vec!["*.draft.md".to_string(), "old/".to_string()]));
    let make = || {
        vec![
            entry("a.md", "a.md", EntryKind::File),
            entry("x.draft.md", "x.draft.md", EntryKind::File),
            entry("d", "d", EntryKind::Dir),
            entry("old", "old", EntryKind::Dir),
            entry(".h.md", ".h.md", EntryKind::File),
            entry("n.txt", "n.txt", EntryKind::File),
        ]
    };
    let listed: Vec<String> = svc.list_files(DirListing { entries: make(), failure: None }).unwrap().into_iter().map(|f| f.name).collect();
    for e in make() {
        if svc.tree_role_of(&e) != EntryRole::Skip {
            assert!(listed.contains(&e.name), "{} missing from listing", e.name);
        }
    }
    assert_eq!(listed, vec!["a.md", "d"]);
}

/// Runs a walk where each directory is read as a listing that may stop partway.
fn walk_listings(svc: &FileService, root: &str, read: &dyn Fn(&str) -> DirListing) -> Result<TreeNode, IoFailure> {
    let mut progress = svc.tree(root.to_string(), read(""));
    loop {
        match progress {
            TreeProgress::Pending(w, path) => progress = w.resume(svc, read(&path)),
            TreeProgress::Done(r) => return r,
        }
    }
}

#[test]
fn tree_fails_when_markdown_directory_stops_partway() {
    let svc = FileService::new("/r".to_string(), None);
    let read = |p: &str| match p {
        "" => DirListing { entries: vec![entry("a.md", "a.md", EntryKind::File), entry("d", "d", EntryKind::Dir)], failure: None },
        _ => DirListing {
            entries: vec![entry("x.md", "d/x.md", EntryKind::File)],
            failure: Some(IoFailure { kind: IoErrorKind::Other, message: "read stopped".to_string() }),
        },
    };
    let r = walk_listings(&svc, "r", &read);
    assert_eq!(r.unwrap_err().message, "read stopped");
}

#[test]
fn tree_skips_unreadable_directory_without_markdown() {
    let svc = FileService::new("/r".to_string(), None);
    let read = |p: &str| match p {
        "" => DirListing { entries: vec![entry("a.md", "a.md", EntryKind::File), entry("d", "d", EntryKind::Dir)], failure: None },
        _ => DirListing {
            entries: vec![entry("x.txt", "d/x.txt", EntryKind::File)],
            failure: Some(IoFailure { kind: IoErrorKind::PermissionDenied, message: "denied".to_string() }),
        },
    };
    let tree = walk_listings(&svc, "r", &read).unwrap();
    assert_eq!(names(&tree), vec!["a.md"]);
}
