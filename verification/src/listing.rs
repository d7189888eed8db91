//! One directory's listing: which entries the service shows, in which order,
//! and what it reports of each.

use vstd::prelude::*;

use crate::ignore_rules::{gitignore_excludes, IgnoreRules};
use crate::models::FileInfo;
use crate::order::{sort_by_name, sorted_by_name};
use crate::text::{has_md_extension, is_hidden, is_hidden_name, is_md_name};

verus! {

/// The kinds of I/O failure the service tells apart.
#[derive(Debug, Clone, Copy, PartialEq, Eq, Structural)]
pub enum IoErrorKind {
    NotFound,
    PermissionDenied,
    WouldBlock,
    Other,
}

/// An I/O failure: its kind and its message.
#[derive(Debug, Clone, PartialEq, Eq)]
pub struct IoFailure {
    pub kind: IoErrorKind,
    pub message: String,
}

/// What a directory entry's own metadata says (links not followed).
#[derive(Debug, Clone, PartialEq, Eq)]
pub struct EntryMeta {
    pub size: u64,
    /// Seconds from the Unix epoch to the modification time, when the
    /// platform reports one that is not before the epoch.
    pub modified_secs: Option<u64>,
    pub is_dir: bool,
}

/// What a directory entry's path is (links followed).
#[derive(Debug, Clone, Copy, PartialEq, Eq, Structural)]
pub enum EntryKind {
    File,
    Dir,
    /// Neither: a dangling link, a special file, or a path that vanished.
    Other,
}

/// One entry read from a directory.
#[derive(Debug, PartialEq, Eq)]
pub struct DirEntryInfo {
    /// The entry's file name.
    pub name: String,
    /// The entry's path relative to the context's root.
    pub rel_path: String,
    /// What the path is.
    pub kind: EntryKind,
    /// The entry's metadata, or the failure to read it.
    pub meta: Result<EntryMeta, IoFailure>,
}

/// What reading a directory gave: the entries read, in order, and the
/// failure that stopped the reading, if any (a directory that cannot be
/// opened gives no entries and that failure).
#[derive(Debug, PartialEq, Eq)]
pub struct DirListing {
    pub entries: Vec<DirEntryInfo>,
    pub failure: Option<IoFailure>,
}

/// The modification time reported for a file: its seconds since the epoch as
/// a signed number, or 0 when unknown.
pub open spec fn mtime_of(secs: Option<u64>) -> i64 {
    match secs {
        Some(s) => s as i64,
        None => 0,
    }
}

/// The modification time reported for a file.
pub fn mtime_from(secs: Option<u64>) -> (t: i64)
    ensures
        t == mtime_of(secs),
{
    match secs {
        Some(s) => s as i64,
        None => 0,
    }
}

/// The listing entry reported for a directory entry whose metadata was read.
pub open spec fn info_of(e: DirEntryInfo, m: EntryMeta) -> FileInfo {
    FileInfo {
        name: e.name,
        path: e.rel_path,
        size: m.size,
        mtime: mtime_of(m.modified_secs),
        is_dir: m.is_dir,
    }
}

/// A listing has a Markdown file in it.
pub open spec fn has_md_file(entries: Seq<DirEntryInfo>) -> bool {
    exists|i: int|
        0 <= i < entries.len() && #[trigger] entries[i].kind == EntryKind::File && is_md_name(
            entries[i].name@,
        )
}

/// A Markdown file anywhere in a listing, whatever comes before or after it,
/// makes the listing one that holds a Markdown file.
pub proof fn lemma_md_file_anywhere(entries: Seq<DirEntryInfo>, i: int)
    requires
        0 <= i < entries.len(),
        entries[i].kind == EntryKind::File,
        is_md_name(entries[i].name@),
    ensures
        has_md_file(entries),
{
}

/// A listing with no Markdown file among its file entries holds none.
pub proof fn lemma_no_md_file(entries: Seq<DirEntryInfo>)
    requires
        forall|i: int|
            0 <= i < entries.len() && entries[i].kind == EntryKind::File ==> !is_md_name(
                #[trigger] entries[i].name@,
            ),
    ensures
        !has_md_file(entries),
{
}

/// Whether a directory's listing holds a Markdown file (hidden ones too).
pub fn listing_has_md(entries: &Vec<DirEntryInfo>) -> (r: bool)
    ensures
        r == has_md_file(entries@),
        r <==> exists|i: int|
            0 <= i < entries@.len() && entries@[i].kind == EntryKind::File && #[trigger] is_md_name(
                entries@[i].name@,
            ),
{
    let mut i: usize = 0;
    while i < entries.len()
        invariant
            i <= entries@.len(),
            forall|j: int|
                0 <= j < i ==> !(#[trigger] entries@[j].kind == EntryKind::File && is_md_name(
                    entries@[j].name@,
                )),
        decreases entries.len() - i,
    {
        if entries[i].kind == EntryKind::File && has_md_extension(entries[i].name.as_str()) {
            return true;
        }
        i = i + 1;
    }
    false
}

/// The files of one context directory as the service presents them.
pub struct FileService {
    /// The context's root directory.
    pub base_path: String,
    /// The rules of the root's `.gitignore`, when it has one.
    pub ignore: Option<IgnoreRules>,
}

impl FileService {
    /// The service for the directory `base_path`, given the lines of its
    /// `.gitignore` file when that file exists.
    pub fn new(base_path: String, gitignore_lines: Option<Vec<String>>) -> (svc: Self)
        ensures
            svc.base_path == base_path,
            gitignore_lines is None ==> svc.ignore is None,
            gitignore_lines matches Some(l) ==> svc.ignore matches Some(r) && r.root_view()
                == base_path@ && r.lines_seq() == crate::ignore_rules::rule_lines(
                crate::ignore_rules::lines_view(l@),
            ),
    {
        let ignore = match gitignore_lines {
            Some(lines) => Some(IgnoreRules::compile(base_path.clone(), lines)),
            None => None,
        };
        FileService { base_path, ignore }
    }

    /// The gitignore rules exclude the relative path `rel`.
    pub open spec fn excluded(&self, rel: Seq<char>, is_dir: bool) -> bool {
        match self.ignore {
            Some(r) => gitignore_excludes(r.root_view(), r.lines_seq(), rel, is_dir),
            None => false,
        }
    }

    /// Whether the gitignore rules exclude the relative path `rel`.
    pub fn is_excluded(&self, rel: &str, is_dir: bool) -> (r: bool)
        ensures
            r == self.excluded(rel@, is_dir),
    {
        match &self.ignore {
            Some(rules) => rules.excludes(rel, is_dir),
            None => false,
        }
    }

    /// The entry appears in a listing: it is not hidden, the gitignore rules
    /// do not exclude it, and a file must be a Markdown file.
    pub open spec fn shown_in_listing(&self, e: DirEntryInfo) -> bool {
        &&& !is_hidden_name(e.name@)
        &&& !self.excluded(e.rel_path@, e.kind == EntryKind::Dir)
        &&& e.kind == EntryKind::File ==> is_md_name(e.name@)
    }

    /// The listing entries of `entries` in the order read, before sorting.
    pub open spec fn listed(&self, entries: Seq<DirEntryInfo>) -> Seq<FileInfo>
        decreases entries.len(),
    {
        if entries.len() == 0 {
            Seq::empty()
        } else {
            let prev = self.listed(entries.drop_last());
            let e = entries.last();
            if self.shown_in_listing(e) && e.meta is Ok {
                prev.push(info_of(e, e.meta->Ok_0))
            } else {
                prev
            }
        }
    }

    /// `f` reports the entry `e` whose metadata `m` was read: its name and
    /// its path relative to the context root are the entry's; its size,
    /// modification time (seconds, 0 when unknown) and kind are the
    /// metadata's.
    pub open spec fn reports(f: FileInfo, e: DirEntryInfo, m: EntryMeta) -> bool {
        &&& f.name == e.name
        &&& f.path == e.rel_path
        &&& f.size == m.size
        &&& f.is_dir == m.is_dir
        &&& match m.modified_secs {
            Some(secs) => f.mtime == secs as i64,
            None => f.mtime == 0,
        }
    }

    /// `f` reports one of the shown entries of `entries` whose metadata was
    /// read.
    pub open spec fn reported_by(&self, entries: Seq<DirEntryInfo>, f: FileInfo) -> bool {
        exists|i: int|
            0 <= i < entries.len() && self.shown_in_listing(entries[i]) && entries[i].meta is Ok
                && Self::reports(f, #[trigger] entries[i], entries[i].meta->Ok_0)
    }

    /// Every entry of a listing reports a shown entry whose metadata was
    /// read.
    pub proof fn lemma_listed_from_entries(&self, entries: Seq<DirEntryInfo>, k: int)
        requires
            0 <= k < self.listed(entries).len(),
        ensures
            exists|i: int|
                0 <= i < entries.len() && self.shown_in_listing(entries[i]) && entries[i].meta is Ok
                    && Self::reports(self.listed(entries)[k], #[trigger] entries[i], entries[i].meta->Ok_0),
        decreases entries.len(),
    {
        let prev = entries.drop_last();
        let e = entries.last();
        if k < self.listed(prev).len() {
            self.lemma_listed_from_entries(prev, k);
            let i = choose|i: int|
                0 <= i < prev.len() && self.shown_in_listing(prev[i]) && prev[i].meta is Ok
                    && Self::reports(self.listed(prev)[k], #[trigger] prev[i], prev[i].meta->Ok_0);
            assert(prev[i] == entries[i]);
        } else {
            assert(entries[entries.len() - 1] == e);
        }
    }

    /// Every shown entry whose metadata was read is reported in the listing.
    pub proof fn lemma_shown_entries_listed(&self, entries: Seq<DirEntryInfo>, i: int)
        requires
            0 <= i < entries.len(),
            self.shown_in_listing(entries[i]),
            entries[i].meta is Ok,
        ensures
            exists|k: int|
                0 <= k < self.listed(entries).len() && Self::reports(
                    #[trigger] self.listed(entries)[k],
                    entries[i],
                    entries[i].meta->Ok_0,
                ),
        decreases entries.len(),
    {
        let prev = entries.drop_last();
        if i < entries.len() - 1 {
            assert(prev[i] == entries[i]);
            self.lemma_shown_entries_listed(prev, i);
            let k = choose|k: int|
                0 <= k < self.listed(prev).len() && Self::reports(
                    #[trigger] self.listed(prev)[k],
                    prev[i],
                    prev[i].meta->Ok_0,
                );
            assert(self.listed(entries)[k] == self.listed(prev)[k]);
        } else {
            let k = self.listed(prev).len() as int;
            assert(self.listed(entries)[k] == info_of(entries[i], entries[i].meta->Ok_0));
        }
    }

    /// Whether reading this entry's metadata fails a listing: the entry is
    /// not hidden and its metadata could not be read.
    pub open spec fn fails_listing(e: DirEntryInfo) -> bool {
        !is_hidden_name(e.name@) && e.meta is Err
    }

    /// The directory listing built from what reading a directory gave: the
    /// first failure to read the metadata of an entry that is not hidden,
    /// else the failure that stopped the reading, else the shown entries in
    /// ascending order of name.
    pub fn list_files(&self, listing: DirListing) -> (r: Result<Vec<FileInfo>, IoFailure>)
        ensures
            ((exists|i: int|
                0 <= i < listing.entries@.len() && Self::fails_listing(
                    #[trigger] listing.entries@[i],
                )) || listing.failure is Some) <==> r is Err,
            r matches Err(f) ==> (exists|i: int|
                0 <= i < listing.entries@.len() && Self::fails_listing(
                    #[trigger] listing.entries@[i],
                ) && listing.entries@[i].meta == Err::<EntryMeta, IoFailure>(f) && forall|j: int|
                    0 <= j < i ==> !Self::fails_listing(#[trigger] listing.entries@[j])) || (
            (forall|i: int|
                0 <= i < listing.entries@.len() ==> !Self::fails_listing(
                    #[trigger] listing.entries@[i],
                )) && listing.failure == Some(f)),
            r matches Ok(v) ==> sorted_by_name(v@) && v@.to_multiset() == self.listed(
                listing.entries@,
            ).to_multiset(),
            r matches Ok(v) ==> forall|k: int|
                0 <= k < v@.len() ==> #[trigger] self.reported_by(listing.entries@, v@[k]),
    {
        let ghost read = listing.entries@;
        let DirListing { entries, failure } = listing;
        assert(entries@ == read);
        let mut items = entries;
        let mut i: usize = 0;
        while i < items.len()
            invariant
                i <= items@.len(),
                items@ == entries@,
                entries@ == read,
                read == listing.entries@,
                forall|j: int| 0 <= j < i ==> !Self::fails_listing(#[trigger] items@[j]),
            decreases items.len() - i,
        {
            if !is_hidden(items[i].name.as_str()) && items[i].meta.is_err() {
                let ghost all = items@;
                let e = items.remove(i);
                assert(e == all[i as int]);
                assert(Self::fails_listing(listing.entries@[i as int]));
                match e.meta {
                    Err(f) => {
                        return Err(f);
                    },
                    Ok(_) => {
                        assert(false);
                        return Err(IoFailure { kind: IoErrorKind::Other, message: String::new() });
                    },
                }
            }
            i = i + 1;
        }
        if let Some(f) = failure {
            return Err(f);
        }
        let mut infos: Vec<FileInfo> = Vec::new();
        let mut k: usize = 0;
        while k < items.len()
            invariant
                k <= items@.len(),
                items@ == entries@,
                infos@ == self.listed(items@.take(k as int)),
            decreases items.len() - k,
        {
            let e = &items[k];
            assert(items@.take(k + 1).drop_last() =~= items@.take(k as int));
            assert(items@.take(k + 1).last() == items@[k as int]);
            let shown = !is_hidden(e.name.as_str()) && !self.is_excluded(
                e.rel_path.as_str(),
                e.kind == EntryKind::Dir,
            ) && (e.kind != EntryKind::File || has_md_extension(e.name.as_str()));
            if shown {
                match &e.meta {
                    Ok(m) => {
                        infos.push(
                            FileInfo {
                                name: e.name.clone(),
                                path: e.rel_path.clone(),
                                size: m.size,
                                mtime: mtime_from(m.modified_secs),
                                is_dir: m.is_dir,
                            },
                        );
                    },
                    Err(_) => {},
                }
            }
            k = k + 1;
        }
        assert(items@.take(items@.len() as int) =~= items@);
        let sorted = sort_by_name(infos);
        proof {
            let all = self.listed(read);
            assert forall|k: int| 0 <= k < sorted@.len() implies #[trigger] self.reported_by(
                read,
                sorted@[k],
            ) by {
                assert(sorted@.contains(sorted@[k]));
                sorted@.to_multiset_ensures();
                all.to_multiset_ensures();
                assert(sorted@.to_multiset().count(sorted@[k]) > 0);
                assert(all.contains(sorted@[k]));
                let j = choose|j: int| 0 <= j < all.len() && all[j] == sorted@[k];
                self.lemma_listed_from_entries(read, j);
            }
        }
        Ok(sorted)
    }
}

} // verus!
