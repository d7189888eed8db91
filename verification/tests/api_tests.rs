use mdterm::api::{
    content_failed, content_request, context_not_found, health_status, listing_failed,
    listing_path, missing_path, terminal_failed, tree_failed,
};
use mdterm::listing::{DirEntryInfo, DirListing, EntryKind, EntryMeta, FileService, IoErrorKind, IoFailure};

fn failure(kind: IoErrorKind) -> IoFailure {
    IoFailure { kind, message: "boom".to_string() }
}

#[test]
fn unknown_context_is_404() {
    let e = context_not_found("docs");
    assert_eq!(e.status, 404);
    assert_eq!(e.code, "CONTEXT_NOT_FOUND");
    assert_eq!(e.message, "Context 'docs' not found");
}

#[test]
fn file_errors_map_to_statuses() {
    assert_eq!(listing_failed(failure(IoErrorKind::NotFound)).status, 404);
    assert_eq!(listing_failed(failure(IoErrorKind::PermissionDenied)).status, 500);
    assert_eq!(tree_failed(failure(IoErrorKind::NotFound)).status, 500);
    assert_eq!(content_failed(failure(IoErrorKind::NotFound)).status, 404);
    assert_eq!(content_failed(failure(IoErrorKind::PermissionDenied)).status, 403);
    let e = content_failed(failure(IoErrorKind::Other));
    assert_eq!(e.status, 500);
    assert_eq!(e.code, "FILE_ERROR");
    assert_eq!(e.message, "boom");
    let t = terminal_failed("no pty".to_string());
    assert_eq!((t.status, t.code.as_str(), t.message.as_str()), (500, "PTY_ERROR", "no pty"));
}

#[test]
fn content_requests_need_a_visible_markdown_path() {
    let svc = FileService::new("/r".to_string(), Some(vec!["private/".to_string(), "secret.md".to_string()]));
    let e = content_request(&svc, None).unwrap_err();
    assert_eq!(e.status, 400);
    assert_eq!(e, missing_path());
    assert_eq!(e.message, "Query parameter 'path' is required");
    assert_eq!(content_request(&svc, Some("docs/a.md".to_string())).unwrap(), "docs/a.md");
    assert_eq!(content_request(&svc, Some("docs/b.txt".to_string())).unwrap_err().status, 403);
    assert_eq!(content_request(&svc, Some("secret.md".to_string())).unwrap_err().status, 403);
    assert_eq!(content_request(&svc, Some("private/x.md".to_string())).unwrap_err().status, 403);
    assert_eq!(content_request(&svc, Some("docs/private/x.md".to_string())).unwrap_err().status, 403);
    assert_eq!(content_request(&svc, Some("privately/x.md".to_string())).unwrap(), "privately/x.md");
    assert_eq!(content_request(&svc, Some("md.dir/file".to_string())).unwrap_err().status, 403);
}

#[test]
fn listing_path_defaults_to_root() {
    assert_eq!(listing_path(None), "");
    assert_eq!(listing_path(Some("docs".to_string())), "docs");
}

#[test]
fn health_is_ok_without_counts() {
    let h = health_status();
    assert_eq!(h.status, "ok");
    assert!(h.active_terminals.is_none() && h.connections.is_none());
}

#[test]
fn listed_markdown_files_are_readable() {
    let svc = FileService::new("/r".to_string(), Some(vec!["skip.md".to_string()]));
    let file = |name: &str| DirEntryInfo {
        name: name.to_string(),
        rel_path: format!("docs/{}", name),
        kind: EntryKind::File,
        meta: Ok(EntryMeta { size: 1, modified_secs: None, is_dir: false }),
    };
    let listed = svc.list_files(DirListing { entries: vec![file("a.md"), file("skip.md"), file("B.MD"), file("c.txt")], failure: None }).unwrap();
    assert_eq!(listed.len(), 2);
    for f in listed {
        assert_eq!(content_request(&svc, Some(f.path.clone())).unwrap(), f.path);
    }
}
