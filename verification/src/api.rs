//! What the HTTP endpoints answer: the error bodies with their status codes,
//! the access rule for file contents, and the health report.

use vstd::prelude::*;
use vstd::string::*;

use crate::listing::{DirEntryInfo, EntryKind, FileService, IoErrorKind, IoFailure};
use crate::text::{chars_of, has_md_extension, is_md_name};

verus! {

/// An error answer: HTTP status, a machine-readable code and a message.
#[derive(Debug, Clone, PartialEq, Eq)]
pub struct ApiError {
    pub status: u16,
    pub code: String,
    pub message: String,
}

/// The answer when no context has the requested name.
pub fn context_not_found(name: &str) -> (e: ApiError)
    ensures
        e.status == 404,
        e.code@ == "CONTEXT_NOT_FOUND"@,
        e.message@ == "Context '"@ + name@ + "' not found"@,
{
    let message = String::from_str("Context '").concat(name).concat("' not found");
    ApiError { status: 404, code: String::from_str("CONTEXT_NOT_FOUND"), message }
}

/// The answer when the content endpoint is called without a path.
pub fn missing_path() -> (e: ApiError)
    ensures
        e.status == 400,
        e.code@ == "MISSING_PATH"@,
        e.message@ == "Query parameter 'path' is required"@,
{
    ApiError {
        status: 400,
        code: String::from_str("MISSING_PATH"),
        message: String::from_str("Query parameter 'path' is required"),
    }
}

/// A file error answer with the failure's message and the given status.
fn file_error(status: u16, failure: IoFailure) -> (e: ApiError)
    ensures
        e.status == status,
        e.code@ == "FILE_ERROR"@,
        e.message == failure.message,
{
    ApiError { status, code: String::from_str("FILE_ERROR"), message: failure.message }
}

/// The answer when a directory cannot be listed: 404 when it does not exist,
/// 500 otherwise.
pub fn listing_failed(failure: IoFailure) -> (e: ApiError)
    ensures
        e.status == (if failure.kind == IoErrorKind::NotFound { 404u16 } else { 500u16 }),
        e.code@ == "FILE_ERROR"@,
        e.message == failure.message,
{
    let status: u16 = match failure.kind {
        IoErrorKind::NotFound => 404,
        _ => 500,
    };
    file_error(status, failure)
}

/// The answer when the tree cannot be built: always 500.
pub fn tree_failed(failure: IoFailure) -> (e: ApiError)
    ensures
        e.status == 500,
        e.code@ == "FILE_ERROR"@,
        e.message == failure.message,
{
    file_error(500, failure)
}

/// The answer when a file cannot be read: 404 when it does not exist, 403
/// when access is denied, 500 otherwise.
pub fn content_failed(failure: IoFailure) -> (e: ApiError)
    ensures
        e.status == (match failure.kind {
            IoErrorKind::NotFound => 404u16,
            IoErrorKind::PermissionDenied => 403u16,
            _ => 500u16,
        }),
        e.code@ == "FILE_ERROR"@,
        e.message == failure.message,
{
    let status: u16 = match failure.kind {
        IoErrorKind::NotFound => 404,
        IoErrorKind::PermissionDenied => 403,
        _ => 500,
    };
    file_error(status, failure)
}

/// The answer when a terminal cannot be started.
pub fn terminal_failed(message: String) -> (e: ApiError)
    ensures
        e.status == 500,
        e.code@ == "PTY_ERROR"@,
        e.message == message,
{
    ApiError { status: 500, code: String::from_str("PTY_ERROR"), message }
}

/// The directory to list: the requested one, or the context's root.
pub fn listing_path(requested: Option<String>) -> (path: String)
    ensures
        requested matches Some(p) ==> path == p,
        requested is None ==> path@ == Seq::<char>::empty(),
{
    match requested {
        Some(p) => p,
        None => String::new(),
    }
}

/// Index of the last `'/'` among the first `end` characters of `path`, or -1.
pub open spec fn last_slash_before(path: Seq<char>, end: int) -> int
    decreases end,
{
    if end <= 0 {
        -1
    } else if path[end - 1] == '/' {
        end - 1
    } else {
        last_slash_before(path, end - 1)
    }
}

/// The last component of a relative path: what follows its last `'/'`.
pub open spec fn last_component(path: Seq<char>) -> Seq<char> {
    path.subrange(last_slash_before(path, path.len() as int) + 1, path.len() as int)
}

/// The path lies inside a directory that the gitignore rules exclude: one
/// of its leading directories is excluded.
pub open spec fn in_excluded_dir(svc: &FileService, path: Seq<char>) -> bool {
    exists|j: int| 0 < j < path.len() && path[j] == '/' && #[trigger] svc.excluded(path.subrange(0, j), true)
}

/// A file may be read through the content endpoint: it is a Markdown file
/// that the context's gitignore rules do not exclude, neither itself nor
/// through a directory it lies in.
pub open spec fn readable(svc: &FileService, path: Seq<char>) -> bool {
    is_md_name(last_component(path)) && !svc.excluded(path, false) && !in_excluded_dir(svc, path)
}

/// Whether the path lies inside a directory that the gitignore rules
/// exclude.
fn inside_excluded_dir(svc: &FileService, path: &str) -> (r: bool)
    ensures
        r == in_excluded_dir(svc, path@),
{
    let v = chars_of(path);
    let n = v.len();
    let mut j: usize = 1;
    while j < n
        invariant
            1 <= j,
            n == v@.len(),
            v@ == path@,
            forall|k: int| 0 < k < j && k < n && v@[k] == '/' ==> !svc.excluded(v@.subrange(0, k), true),
        decreases n - j,
    {
        if v[j] == '/' {
            let dir = path.substring_char(0, j);
            if svc.is_excluded(dir, true) {
                assert(svc.excluded(path@.subrange(0, j as int), true));
                return true;
            }
        }
        j = j + 1;
    }
    false
}

/// The file requested from the content endpoint: its path when one was
/// given and may be read; 400 when none was given; 403 when it is not a
/// Markdown file or the gitignore rules exclude it.
pub fn content_request(svc: &FileService, requested: Option<String>) -> (r: Result<String, ApiError>)
    ensures
        requested is None ==> (r matches Err(e) && e.status == 400 && e.code@ == "MISSING_PATH"@
            && e.message@ == "Query parameter 'path' is required"@),
        requested matches Some(p) ==> (readable(svc, p@) ==> r == Ok::<String, ApiError>(p)) && (
        !readable(svc, p@) ==> (r matches Err(e) && e.status == 403 && e.code@ == "FILE_ERROR"@
            && e.message@ == "File is not a visible Markdown file"@)),
{
    let path = match requested {
        Some(p) => p,
        None => {
            return Err(missing_path());
        },
    };
    let v = chars_of(path.as_str());
    let n = v.len();
    let mut end: usize = n;
    while end > 0 && v[end - 1] != '/'
        invariant
            end <= n,
            n == v@.len(),
            last_slash_before(v@, n as int) == last_slash_before(v@, end as int),
        decreases end,
    {
        end = end - 1;
    }
    proof {
        if end > 0 {
            assert(last_slash_before(v@, end as int) == end - 1);
        }
    }
    let name = path.as_str().substring_char(end, n);
    if has_md_extension(name) && !svc.is_excluded(path.as_str(), false) && !inside_excluded_dir(
        svc,
        path.as_str(),
    ) {
        Ok(path)
    } else {
        Err(
            ApiError {
                status: 403,
                code: String::from_str("FILE_ERROR"),
                message: String::from_str("File is not a visible Markdown file"),
            },
        )
    }
}

/// A Markdown file that the listing of a directory shows can be read through
/// the content endpoint under its listed path, when that directory does not
/// lie in an excluded one and the path ends with the entry's name, as the
/// paths of directory entries do.
pub proof fn lemma_listed_files_are_readable(svc: &FileService, e: DirEntryInfo)
    requires
        last_component(e.rel_path@) == e.name@,
        !in_excluded_dir(svc, e.rel_path@),
    ensures
        svc.shown_in_listing(e) && e.kind == EntryKind::File ==> readable(svc, e.rel_path@),
{
}

/// The service's health report.
#[derive(Debug, Clone, PartialEq, Eq)]
pub struct HealthStatus {
    pub status: String,
    pub active_terminals: Option<usize>,
    pub connections: Option<usize>,
}

/// The health report: status "ok", no counts.
pub fn health_status() -> (h: HealthStatus)
    ensures
        h.status@ == "ok"@,
        h.active_terminals is None,
        h.connections is None,
{
    HealthStatus { status: String::from_str("ok"), active_terminals: None, connections: None }
}

} // verus!
