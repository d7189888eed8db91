use mdterm::listing::{
    listing_has_md, mtime_from, DirEntryInfo, DirListing, EntryKind, EntryMeta, FileService,
    IoErrorKind, IoFailure,
};

fn read(entries: Vec<DirEntryInfo>) -> DirListing {
    DirListing { entries, failure: None }
}

fn entry(name: &str, rel: &str, kind: EntryKind, size: u64, secs: Option<u64>) -> DirEntryInfo {
    DirEntryInfo {
        name: name.to_string(),
        rel_path: rel.to_string(),
        kind,
        meta: Ok(EntryMeta { size, modified_secs: secs, is_dir: kind == EntryKind::Dir }),
    }
}

fn file(name: &str) -> DirEntryInfo {
    entry(name, name, EntryKind::File, 7, Some(100))
}

#[test]
fn test_list_files() {
    let service = FileService::new("/base".to_string(), Some(vec!["*.txt".to_string()]));
    let entries = vec![file("test.md"), file("ignore.txt"), file(".gitignore")];
    let files = service.list_files(read(entries)).unwrap();
    assert_eq!(files.len(), 1);
    assert_eq!(files[0].name, "test.md");
    assert_eq!(files[0].path, "test.md");
    assert_eq!(files[0].size, 7);
    assert_eq!(files[0].mtime, 100);
    assert!(!files[0].is_dir);
}

#[test]
fn listing_keeps_directories_and_sorts_by_name() {
    let service = FileService::new("/base".to_string(), None);
    let entries = vec![
        file("zeta.md"),
        entry("guides", "guides", EntryKind::Dir, 4096, Some(5)),
        file("Alpha.md"),
        file("notes.txt"),
        entry(".git", ".git", EntryKind::Dir, 4096, None),
        file("beta.MD"),
    ];
    let files = service.list_files(read(entries)).unwrap();
    let names: Vec<&str> = files.iter().map(|f| f.name.as_str()).collect();
    assert_eq!(names, vec!["Alpha.md", "beta.MD", "guides", "zeta.md"]);
    assert!(files[2].is_dir);
    assert_eq!(files[2].size, 4096);
}

#[test]
fn listing_gitignore_hides_files_and_directories() {
    let service = FileService::new("/base".to_string(), Some(vec!["drafts/".to_string(), "secret.md".to_string()]));
    let entries = vec![
        entry("drafts", "drafts", EntryKind::Dir, 1, None),
        entry("guides", "guides", EntryKind::Dir, 1, None),
        file("secret.md"),
        file("public.md"),
    ];
    let files = service.list_files(read(entries)).unwrap();
    let names: Vec<&str> = files.iter().map(|f| f.name.as_str()).collect();
    assert_eq!(names, vec!["guides", "public.md"]);
}

#[test]
fn listing_hides_ignored_build_directory() {
    let service = FileService::new("/base".to_string(), Some(vec!["build/".to_string()]));
    let entries = vec![file("a.md"), entry("build", "build", EntryKind::Dir, 0, None), file(".gitignore")];
    let files = service.list_files(read(entries)).unwrap();
    let names: Vec<&str> = files.iter().map(|f| f.name.as_str()).collect();
    assert_eq!(names, vec!["a.md"]);
}

#[test]
fn listing_reports_first_metadata_failure_of_visible_entry() {
    let service = FileService::new("/base".to_string(), None);
    let failing = |name: &str, msg: &str| DirEntryInfo {
        name: name.to_string(),
        rel_path: name.to_string(),
        kind: EntryKind::File,
        meta: Err(IoFailure { kind: IoErrorKind::PermissionDenied, message: msg.to_string() }),
    };
    let entries = vec![failing(".hidden.md", "hidden"), file("a.md"), failing("b.txt", "first"), failing("c.md", "second")];
    let err = service.list_files(read(entries)).unwrap_err();
    assert_eq!(err.message, "first");
    assert_eq!(err.kind, IoErrorKind::PermissionDenied);
}

#[test]
fn listing_of_empty_directory_is_empty() {
    let service = FileService::new("/base".to_string(), None);
    assert!(service.list_files(read(Vec::new())).unwrap().is_empty());
}

#[test]
fn gitignore_rules_are_queried_by_relative_path() {
    let service = FileService::new(
        "/base".to_string(),
        Some(vec!["\u{feff}*.tmp.md".to_string(), "# comment".to_string(), "!keep.tmp.md".to_string()]),
    );
    assert!(service.is_excluded("x.tmp.md", false));
    assert!(service.is_excluded("docs/y.tmp.md", false));
    assert!(!service.is_excluded("keep.tmp.md", false));
    assert!(!service.is_excluded("z.md", false));
    let none = FileService::new("/base".to_string(), None);
    assert!(!none.is_excluded("x.tmp.md", false));
}

#[test]
fn md_detection_in_listing() {
    assert!(listing_has_md(&vec![file(".x.md")]));
    assert!(!listing_has_md(&vec![entry("d.md", "d.md", EntryKind::Dir, 0, None), file("a.txt")]));
    assert!(!listing_has_md(&Vec::new()));
}

#[test]
fn mtime_defaults_to_zero() {
    assert_eq!(mtime_from(None), 0);
    assert_eq!(mtime_from(Some(1738555200)), 1738555200);
}

#[test]
fn listing_reports_failure_that_stopped_reading() {
    let service = FileService::new("/base".to_string(), None);
    let stopped = IoFailure { kind: IoErrorKind::Other, message: "stopped".to_string() };
    let err = service.list_files(DirListing { entries: vec![file("a.md")], failure: Some(stopped.clone()) }).unwrap_err();
    assert_eq!(err, stopped);
    let bad = DirEntryInfo {
        name: "b.md".to_string(),
        rel_path: "b.md".to_string(),
        kind: EntryKind::File,
        meta: Err(IoFailure { kind: IoErrorKind::NotFound, message: "stat".to_string() }),
    };
    let err = service.list_files(DirListing { entries: vec![bad], failure: Some(stopped) }).unwrap_err();
    assert_eq!(err.message, "stat");
}
