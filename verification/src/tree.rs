//! The directory tree of a context, built one directory listing at a time:
//! the walk asks for the listing of each directory it may descend into, and
//! decides from the listings alone what the tree holds.

use vstd::prelude::*;

use crate::listing::{
    has_md_file, listing_has_md, mtime_from, mtime_of, DirEntryInfo, DirListing, EntryKind,
    EntryMeta, FileService, IoFailure,
};
use crate::models::{FileInfo, TreeNode};
use crate::order::{sort_by_name, sorted_by_name};
use crate::text::{has_md_extension, is_hidden, is_hidden_name, is_md_name};

verus! {

broadcast use vstd::seq_lib::group_to_multiset_ensures, vstd::multiset::group_multiset_axioms;

/// What the tree makes of one directory entry.
#[derive(Debug, Clone, Copy, PartialEq, Eq, Structural)]
pub enum EntryRole {
    /// Left out.
    Skip,
    /// Shown as a file node.
    FileNode,
    /// A directory to look into: shown if its listing holds a Markdown file.
    Descend,
}

impl FileService {
    /// The role of an entry in the tree: hidden entries and entries the
    /// gitignore rules exclude are left out; a Markdown file is a file node;
    /// a directory is looked into; anything else is left out.
    pub open spec fn tree_role(&self, e: DirEntryInfo) -> EntryRole {
        if is_hidden_name(e.name@) || self.excluded(e.rel_path@, e.kind == EntryKind::Dir) {
            EntryRole::Skip
        } else if e.kind == EntryKind::File {
            if is_md_name(e.name@) {
                EntryRole::FileNode
            } else {
                EntryRole::Skip
            }
        } else if e.kind == EntryKind::Dir {
            EntryRole::Descend
        } else {
            EntryRole::Skip
        }
    }

    /// The role of an entry in the tree.
    pub fn tree_role_of(&self, e: &DirEntryInfo) -> (role: EntryRole)
        ensures
            role == self.tree_role(*e),
    {
        if is_hidden(e.name.as_str()) || self.is_excluded(
            e.rel_path.as_str(),
            e.kind == EntryKind::Dir,
        ) {
            EntryRole::Skip
        } else if e.kind == EntryKind::File {
            if has_md_extension(e.name.as_str()) {
                EntryRole::FileNode
            } else {
                EntryRole::Skip
            }
        } else if e.kind == EntryKind::Dir {
            EntryRole::Descend
        } else {
            EntryRole::Skip
        }
    }

    /// The file node the tree makes of a Markdown file entry.
    pub open spec fn file_node_of(e: DirEntryInfo) -> TreeNode {
        TreeNode {
            name: e.name,
            path: e.rel_path,
            size: Some(e.meta->Ok_0.size),
            mtime: Some(mtime_of(e.meta->Ok_0.modified_secs)),
            children: None,
        }
    }

    /// The directory at `path` is looked into: its listing holds a Markdown
    /// file.
    pub open spec fn dir_shown(
        listings: Map<Seq<char>, (Seq<DirEntryInfo>, Option<IoFailure>)>,
        path: Seq<char>,
    ) -> bool {
        listings.contains_key(path) && has_md_file(listings[path].0)
    }

    /// `nodes` are the nodes the tree makes of `entries`, in entry order,
    /// where `listings` gives the listing read for each directory looked
    /// into: a file node for each Markdown file entry; for each directory
    /// looked into, a directory node of its name and path exactly when its
    /// listing was read and holds a Markdown file; nothing for the other
    /// entries.
    #[verifier::opaque]
    pub open spec fn level_match(
        &self,
        listings: Map<Seq<char>, (Seq<DirEntryInfo>, Option<IoFailure>)>,
        entries: Seq<DirEntryInfo>,
        nodes: Seq<TreeNode>,
    ) -> bool
        decreases entries.len(),
    {
        if entries.len() == 0 {
            nodes.len() == 0
        } else {
            let e = entries.last();
            let rest = entries.drop_last();
            match self.tree_role(e) {
                EntryRole::Skip => self.level_match(listings, rest, nodes),
                EntryRole::FileNode => {
                    &&& nodes.len() > 0
                    &&& nodes.last() == Self::file_node_of(e)
                    &&& self.level_match(listings, rest, nodes.drop_last())
                },
                EntryRole::Descend => {
                    &&& listings.contains_key(e.rel_path@)
                    &&& if Self::dir_shown(listings, e.rel_path@) {
                        &&& nodes.len() > 0
                        &&& nodes.last().name == e.name
                        &&& nodes.last().path == e.rel_path
                        &&& nodes.last().children is Some
                        &&& self.level_match(listings, rest, nodes.drop_last())
                    } else {
                        self.level_match(listings, rest, nodes)
                    }
                },
            }
        }
    }

    /// `children` are, in some order, the nodes the tree makes of the
    /// directory listing `entries`.
    pub open spec fn level_built(
        &self,
        listings: Map<Seq<char>, (Seq<DirEntryInfo>, Option<IoFailure>)>,
        entries: Seq<DirEntryInfo>,
        children: Seq<TreeNode>,
    ) -> bool {
        exists|nodes: Seq<TreeNode>|
            self.level_match(listings, entries, nodes) && #[trigger] nodes.to_multiset()
                == children.to_multiset()
    }

    /// A node below the root of a tree as the service builds it from the
    /// listings `listings`: its name is not hidden and the gitignore rules do
    /// not exclude it; a file node is a Markdown file with a size and a
    /// modification time; a directory node's listing holds a Markdown file
    /// and was read to its end, and its children, in ascending order of name,
    /// are such nodes and are what the tree makes of that listing.
    #[verifier::opaque]
    pub open spec fn tree_node_ok(
        &self,
        listings: Map<Seq<char>, (Seq<DirEntryInfo>, Option<IoFailure>)>,
        n: TreeNode,
    ) -> bool
        decreases n,
    {
        &&& !is_hidden_name(n.name@)
        &&& match n.children {
            None => {
                &&& is_md_name(n.name@)
                &&& !self.excluded(n.path@, false)
                &&& n.size is Some
                &&& n.mtime is Some
            },
            Some(cs) => {
                &&& !self.excluded(n.path@, true)
                &&& n.size is None
                &&& n.mtime is None
                &&& sorted_by_name(cs@)
                &&& forall|i: int|
                    0 <= i < cs@.len() ==> self.tree_node_ok(listings, #[trigger] cs@[i])
                &&& Self::dir_shown(listings, n.path@)
                &&& listings[n.path@].1 is None
                &&& self.level_built(listings, listings[n.path@].0, cs@)
            },
        }
    }

    /// The listings of a walk that has read only the root: the root's path
    /// (the empty one) and its listing.
    pub open spec fn root_listings(listing: (Seq<DirEntryInfo>, Option<IoFailure>)) -> Map<
        Seq<char>,
        (Seq<DirEntryInfo>, Option<IoFailure>),
    > {
        Map::empty().insert(Seq::empty(), listing)
    }

    /// The root of a tree as the service builds it from the listings
    /// `listings`: a directory node named `name` with the empty path, whose
    /// children, in ascending order of name, are well-formed nodes and are
    /// what the tree makes of the root's listing, which was read to its end.
    pub open spec fn tree_root_ok(
        &self,
        root: TreeNode,
        name: Seq<char>,
        listings: Map<Seq<char>, (Seq<DirEntryInfo>, Option<IoFailure>)>,
    ) -> bool {
        &&& root.name@ == name
        &&& root.path@ == Seq::<char>::empty()
        &&& root.size is None
        &&& root.mtime is None
        &&& listings.contains_key(Seq::empty())
        &&& listings[Seq::empty()].1 is None
        &&& root.children matches Some(cs) && sorted_by_name(cs@) && self.level_built(
            listings,
            listings[Seq::empty()].0,
            cs@,
        ) && forall|i: int| 0 <= i < cs@.len() ==> self.tree_node_ok(listings, #[trigger] cs@[i])
    }

    /// `f` ended the walk: it is the failure to read the metadata of a
    /// Markdown file entry of one of the listings read, or the failure that
    /// stopped the reading of the root or of a directory looked into.
    pub open spec fn failed_file(
        &self,
        listings: Map<Seq<char>, (Seq<DirEntryInfo>, Option<IoFailure>)>,
        f: IoFailure,
    ) -> bool {
        ||| exists|p: Seq<char>, i: int|
            #![trigger listings[p].0[i]]
            listings.contains_key(p) && 0 <= i < listings[p].0.len() && self.tree_role(
                listings[p].0[i],
            ) == EntryRole::FileNode && listings[p].0[i].meta == Err::<EntryMeta, IoFailure>(f)
        ||| exists|p: Seq<char>|
            #![trigger listings[p]]
            listings.contains_key(p) && listings[p].1 == Some(f) && (p == Seq::<char>::empty()
                || has_md_file(listings[p].0))
    }
}

/// A listing as the walk records it.
pub open spec fn listing_view(d: DirListing) -> (Seq<DirEntryInfo>, Option<IoFailure>) {
    (d.entries@, d.failure)
}

/// The tree shows as a file node exactly the Markdown files that are not
/// hidden and that the gitignore rules do not exclude, and looks into exactly
/// the directories that are not hidden and that the rules do not exclude as
/// directories; it leaves out everything else.
pub proof fn lemma_tree_roles(svc: &FileService, e: DirEntryInfo)
    ensures
        svc.tree_role(e) == EntryRole::FileNode <==> e.kind == EntryKind::File && is_md_name(e.name@)
            && !is_hidden_name(e.name@) && !svc.excluded(e.rel_path@, false),
        svc.tree_role(e) == EntryRole::Descend <==> e.kind == EntryKind::Dir && !is_hidden_name(
            e.name@,
        ) && !svc.excluded(e.rel_path@, true),
{
}

/// The file node of a Markdown file carries the entry's name and path and
/// the size and modification time (seconds, 0 when unknown) of its
/// metadata, and no children.
pub proof fn lemma_file_node_fields(e: DirEntryInfo)
    requires
        e.meta is Ok,
    ensures
        FileService::file_node_of(e).name == e.name,
        FileService::file_node_of(e).path == e.rel_path,
        FileService::file_node_of(e).size == Some(e.meta->Ok_0.size),
        FileService::file_node_of(e).children is None,
        e.meta->Ok_0.modified_secs matches Some(secs) ==> FileService::file_node_of(e).mtime == Some(
            secs as i64,
        ),
        e.meta->Ok_0.modified_secs is None ==> FileService::file_node_of(e).mtime == Some(0i64),
{
}

/// Whatever the tree shows of a directory, or descends into, the listing of
/// that directory shows too.
pub proof fn lemma_tree_entries_are_listed(svc: &FileService, e: DirEntryInfo)
    ensures
        svc.tree_role(e) != EntryRole::Skip ==> svc.shown_in_listing(e),
{
}

/// When no Markdown file entry of the listings read has failing metadata and
/// neither the root's reading nor that of a directory looked into stopped
/// on a failure, no failure ends the walk.
pub proof fn lemma_no_failure_without_cause(
    svc: &FileService,
    listings: Map<Seq<char>, (Seq<DirEntryInfo>, Option<IoFailure>)>,
    f: IoFailure,
)
    requires
        forall|p: Seq<char>, i: int|
            #![trigger listings[p].0[i]]
            listings.contains_key(p) && 0 <= i < listings[p].0.len() && svc.tree_role(
                listings[p].0[i],
            ) == EntryRole::FileNode ==> listings[p].0[i].meta is Ok,
        forall|p: Seq<char>|
            #![trigger listings[p]]
            listings.contains_key(p) && (p == Seq::<char>::empty() || has_md_file(listings[p].0))
                ==> listings[p].1 is None,
    ensures
        !svc.failed_file(listings, f),
{
}

/// The path, relative to the context's root, of the entry named `name` in
/// the directory at `dir`: the name itself at the root, else the directory's
/// path, a slash and the name.
pub open spec fn child_path(dir: Seq<char>, name: Seq<char>) -> Seq<char> {
    if dir.len() == 0 {
        name
    } else {
        dir + seq!['/'] + name
    }
}

/// Each listing recorded gives its entries their paths under its directory.
pub open spec fn listings_pathed(
    listings: Map<Seq<char>, (Seq<DirEntryInfo>, Option<IoFailure>)>,
) -> bool {
    forall|p: Seq<char>, i: int|
        #![trigger listings[p].0[i]]
        listings.contains_key(p) && 0 <= i < listings[p].0.len() ==> listings[p].0[i].rel_path@
            == child_path(p, listings[p].0[i].name@)
}

/// Each node the tree makes of a listing carries the name and path of one of
/// its entries.
proof fn lemma_level_nodes_named(
    svc: &FileService,
    listings: Map<Seq<char>, (Seq<DirEntryInfo>, Option<IoFailure>)>,
    entries: Seq<DirEntryInfo>,
    nodes: Seq<TreeNode>,
    k: int,
)
    requires
        svc.level_match(listings, entries, nodes),
        0 <= k < nodes.len(),
    ensures
        exists|j: int|
            0 <= j < entries.len() && nodes[k].name == #[trigger] entries[j].name && nodes[k].path
                == entries[j].rel_path,
    decreases entries.len(),
{
    reveal(FileService::level_match);
    let last = entries.len() - 1;
    let e = entries.last();
    let rest = entries.drop_last();
    let role = svc.tree_role(e);
    let took = role == EntryRole::FileNode || (role == EntryRole::Descend
        && FileService::dir_shown(listings, e.rel_path@));
    if took && k == nodes.len() - 1 {
        assert(entries[last] == e);
    } else {
        let sub = if took {
            nodes.drop_last()
        } else {
            nodes
        };
        assert(sub[k] == nodes[k]);
        lemma_level_nodes_named(svc, listings, rest, sub, k);
        let j = choose|j: int|
            0 <= j < rest.len() && sub[k].name == #[trigger] rest[j].name && sub[k].path
                == rest[j].rel_path;
        assert(rest[j] == entries[j]);
    }
}

/// A directory node's child, built from the listing of the directory at
/// `dir`, has as its path the path of `dir`, a slash and its own name.
proof fn lemma_built_child_path(
    svc: &FileService,
    listings: Map<Seq<char>, (Seq<DirEntryInfo>, Option<IoFailure>)>,
    dir: Seq<char>,
    cs: Seq<TreeNode>,
    i: int,
)
    requires
        listings_pathed(listings),
        listings.contains_key(dir),
        svc.level_built(listings, listings[dir].0, cs),
        0 <= i < cs.len(),
    ensures
        cs[i].path@ == child_path(dir, cs[i].name@),
{
    let entries = listings[dir].0;
    let nodes = choose|nodes: Seq<TreeNode>|
        svc.level_match(listings, entries, nodes) && #[trigger] nodes.to_multiset()
            == cs.to_multiset();
    assert(cs.contains(cs[i]));
    cs.to_multiset_ensures();
    nodes.to_multiset_ensures();
    assert(cs.to_multiset().count(cs[i]) > 0);
    assert(nodes.contains(cs[i]));
    let k = choose|k: int| 0 <= k < nodes.len() && nodes[k] == cs[i];
    lemma_level_nodes_named(svc, listings, entries, nodes, k);
    let j = choose|j: int|
        0 <= j < entries.len() && nodes[k].name == #[trigger] entries[j].name && nodes[k].path
            == entries[j].rel_path;
    assert(listings[dir].0[j].rel_path@ == child_path(dir, listings[dir].0[j].name@));
}

/// In a tree built from listings whose entries carry their paths under their
/// directories, each child of a directory node has as its path the
/// directory's path, a slash and the child's name.
pub proof fn lemma_child_paths(
    svc: &FileService,
    listings: Map<Seq<char>, (Seq<DirEntryInfo>, Option<IoFailure>)>,
    n: TreeNode,
    i: int,
)
    requires
        listings_pathed(listings),
        svc.tree_node_ok(listings, n),
        n.children is Some,
        0 <= i < n.children->0@.len(),
    ensures
        n.children->0@[i].path@ == child_path(n.path@, n.children->0@[i].name@),
{
    reveal_with_fuel(FileService::tree_node_ok, 1);
    lemma_built_child_path(svc, listings, n.path@, n.children->0@, i);
}

/// The listing of the directory at `dir`, whose entries carry their paths
/// under it, gives each item the directory's path, a slash and the item's
/// name as its path (its name alone at the root).
pub proof fn lemma_listing_paths(
    svc: &FileService,
    dir: Seq<char>,
    entries: Seq<DirEntryInfo>,
    v: Seq<FileInfo>,
    k: int,
)
    requires
        forall|i: int|
            0 <= i < entries.len() ==> (#[trigger] entries[i]).rel_path@ == child_path(
                dir,
                entries[i].name@,
            ),
        forall|j: int| 0 <= j < v.len() ==> #[trigger] svc.reported_by(entries, v[j]),
        0 <= k < v.len(),
    ensures
        v[k].path@ == child_path(dir, v[k].name@),
{
    assert(svc.reported_by(entries, v[k]));
    let i = choose|i: int|
        0 <= i < entries.len() && svc.shown_in_listing(entries[i]) && entries[i].meta is Ok
            && FileService::reports(v[k], #[trigger] entries[i], entries[i].meta->Ok_0);
}

/// In a tree built from listings whose entries carry their paths under their
/// directories, each child of the root has its own name as its path.
pub proof fn lemma_root_child_paths(
    svc: &FileService,
    root: TreeNode,
    name: Seq<char>,
    listings: Map<Seq<char>, (Seq<DirEntryInfo>, Option<IoFailure>)>,
    i: int,
)
    requires
        listings_pathed(listings),
        svc.tree_root_ok(root, name, listings),
        0 <= i < root.children->0@.len(),
    ensures
        root.children->0@[i].path@ == root.children->0@[i].name@,
{
    lemma_built_child_path(svc, listings, Seq::empty(), root.children->0@, i);
}

/// A directory being read: its node's name and path, its entries and the
/// failure that stopped their reading, how many of them are handled, and the
/// nodes made of them so far.
struct TreeFrame {
    name: String,
    path: String,
    entries: Vec<DirEntryInfo>,
    failure: Option<IoFailure>,
    next: usize,
    nodes: Vec<TreeNode>,
}

/// A tree walk waiting for the listing of a directory it descends into,
/// with the listings handed in so far (the first for each path) and whether
/// every listing handed in for a path agreed with the first one.
pub struct TreeWalk {
    frames: Vec<TreeFrame>,
    listings: Ghost<Map<Seq<char>, (Seq<DirEntryInfo>, Option<IoFailure>)>>,
    consistent: Ghost<bool>,
}

/// Where a walk stands after a step.
pub enum TreeProgress {
    /// The walk needs the listing of the directory at this path, relative to
    /// the context's root.
    Pending(TreeWalk, String),
    /// The tree, or the failure that ended the walk.
    Done(Result<TreeNode, IoFailure>),
}

/// Frame `k` of a walk is consistent. It has handled at most its entries; a
/// frame below the top waits on a directory entry; a frame above the root
/// reads, under that entry's name and path, a listing that holds a Markdown
/// file, and the root frame has the empty path. When the listings agree
/// (`ok`), the frame's listing is the one recorded for its path, and its
/// nodes are well-formed and are what the tree makes of the entries handled.
spec fn frame_ok(
    svc: &FileService,
    listings: Map<Seq<char>, (Seq<DirEntryInfo>, Option<IoFailure>)>,
    ok: bool,
    frames: Seq<TreeFrame>,
    k: int,
) -> bool {
    let f = frames[k];
    &&& f.next <= f.entries@.len()
    &&& k < frames.len() - 1 ==> f.next < f.entries@.len() && svc.tree_role(
        f.entries@[f.next as int],
    ) == EntryRole::Descend
    &&& k == 0 ==> f.path@ == Seq::<char>::empty()
    &&& k > 0 ==> {
        &&& f.name == frames[k - 1].entries@[frames[k - 1].next as int].name
        &&& f.path == frames[k - 1].entries@[frames[k - 1].next as int].rel_path
        &&& has_md_file(f.entries@)
    }
    &&& ok ==> {
        &&& listings.contains_key(f.path@)
        &&& listings[f.path@] == (f.entries@, f.failure)
        &&& forall|i: int|
            0 <= i < f.nodes@.len() ==> svc.tree_node_ok(listings, #[trigger] f.nodes@[i])
        &&& svc.level_match(listings, f.entries@.take(f.next as int), f.nodes@)
    }
}

/// Every frame of a walk is consistent.
spec fn frames_ok(
    svc: &FileService,
    listings: Map<Seq<char>, (Seq<DirEntryInfo>, Option<IoFailure>)>,
    ok: bool,
    frames: Seq<TreeFrame>,
) -> bool {
    forall|k: int| 0 <= k < frames.len() ==> #[trigger] frame_ok(svc, listings, ok, frames, k)
}

proof fn lemma_frames_replace_top(
    svc: &FileService,
    listings: Map<Seq<char>, (Seq<DirEntryInfo>, Option<IoFailure>)>,
    ok: bool,
    before: Seq<TreeFrame>,
    after: Seq<TreeFrame>,
)
    requires
        before.len() == after.len(),
        after.len() > 0,
        frames_ok(svc, listings, ok, before),
        forall|k: int| 0 <= k < after.len() - 1 ==> after[k] == before[k],
        frame_ok(svc, listings, ok, after, after.len() - 1),
    ensures
        frames_ok(svc, listings, ok, after),
{
    assert forall|k: int| 0 <= k < after.len() implies #[trigger] frame_ok(svc, listings, ok, after, k) by {
        if k < after.len() - 1 {
            assert(frame_ok(svc, listings, ok, before, k));
            if k > 0 {
                assert(after[k - 1] == before[k - 1]);
            }
        }
    }
}

proof fn lemma_frames_push(
    svc: &FileService,
    listings: Map<Seq<char>, (Seq<DirEntryInfo>, Option<IoFailure>)>,
    ok: bool,
    before: Seq<TreeFrame>,
    child: TreeFrame,
)
    requires
        before.len() > 0,
        frames_ok(svc, listings, ok, before),
        before.last().next < before.last().entries@.len(),
        svc.tree_role(before.last().entries@[before.last().next as int]) == EntryRole::Descend,
        frame_ok(svc, listings, ok, before.push(child), before.len() as int),
    ensures
        frames_ok(svc, listings, ok, before.push(child)),
{
    let after = before.push(child);
    assert forall|k: int| 0 <= k < after.len() implies #[trigger] frame_ok(svc, listings, ok, after, k) by {
        if k < before.len() {
            assert(frame_ok(svc, listings, ok, before, k));
            assert(after[k] == before[k]);
            if k > 0 {
                assert(after[k - 1] == before[k - 1]);
            }
        }
    }
}

proof fn lemma_frames_pop(
    svc: &FileService,
    listings: Map<Seq<char>, (Seq<DirEntryInfo>, Option<IoFailure>)>,
    ok: bool,
    before: Seq<TreeFrame>,
)
    requires
        before.len() > 1,
        frames_ok(svc, listings, ok, before),
    ensures
        frames_ok(svc, listings, ok, before.drop_last()),
{
    let after = before.drop_last();
    assert forall|k: int| 0 <= k < after.len() implies #[trigger] frame_ok(svc, listings, ok, after, k) by {
        assert(frame_ok(svc, listings, ok, before, k));
        if k > 0 {
            assert(after[k - 1] == before[k - 1]);
        }
    }
}

/// `l2` keeps every listing that `l1` records.
spec fn extends(
    l1: Map<Seq<char>, (Seq<DirEntryInfo>, Option<IoFailure>)>,
    l2: Map<Seq<char>, (Seq<DirEntryInfo>, Option<IoFailure>)>,
) -> bool {
    forall|k: Seq<char>| #[trigger] l1.dom().contains(k) ==> l2.dom().contains(k) && l2[k] == l1[k]
}

proof fn lemma_level_mono(
    svc: &FileService,
    l1: Map<Seq<char>, (Seq<DirEntryInfo>, Option<IoFailure>)>,
    l2: Map<Seq<char>, (Seq<DirEntryInfo>, Option<IoFailure>)>,
    entries: Seq<DirEntryInfo>,
    nodes: Seq<TreeNode>,
)
    requires
        extends(l1, l2),
        svc.level_match(l1, entries, nodes),
    ensures
        svc.level_match(l2, entries, nodes),
    decreases entries.len(),
{
    reveal(FileService::level_match);
    if entries.len() > 0 {
        let e = entries.last();
        let rest = entries.drop_last();
        match svc.tree_role(e) {
            EntryRole::Skip => {
                lemma_level_mono(svc, l1, l2, rest, nodes);
            },
            EntryRole::FileNode => {
                lemma_level_mono(svc, l1, l2, rest, nodes.drop_last());
            },
            EntryRole::Descend => {
                assert(l1.dom().contains(e.rel_path@));
                assert(l2[e.rel_path@] == l1[e.rel_path@]);
                if FileService::dir_shown(l1, e.rel_path@) {
                    lemma_level_mono(svc, l1, l2, rest, nodes.drop_last());
                } else {
                    lemma_level_mono(svc, l1, l2, rest, nodes);
                }
            },
        }
    }
}

proof fn lemma_node_mono(
    svc: &FileService,
    l1: Map<Seq<char>, (Seq<DirEntryInfo>, Option<IoFailure>)>,
    l2: Map<Seq<char>, (Seq<DirEntryInfo>, Option<IoFailure>)>,
    n: TreeNode,
)
    requires
        extends(l1, l2),
        svc.tree_node_ok(l1, n),
    ensures
        svc.tree_node_ok(l2, n),
    decreases n,
{
    reveal_with_fuel(FileService::tree_node_ok, 1);
    match n.children {
        None => {},
        Some(cs) => {
            assert forall|i: int| 0 <= i < cs@.len() implies svc.tree_node_ok(
                l2,
                #[trigger] cs@[i],
            ) by {
                lemma_node_mono(svc, l1, l2, cs@[i]);
            }
            let es = l1[n.path@].0;
            assert(l1.dom().contains(n.path@));
            assert(l2[n.path@] == l1[n.path@]);
            let nodes = choose|nodes: Seq<TreeNode>|
                svc.level_match(l1, es, nodes) && #[trigger] nodes.to_multiset()
                    == cs@.to_multiset();
            lemma_level_mono(svc, l1, l2, es, nodes);
            assert(svc.level_built(l2, l2[n.path@].0, cs@));
        },
    }
}

proof fn lemma_frames_mono(
    svc: &FileService,
    l1: Map<Seq<char>, (Seq<DirEntryInfo>, Option<IoFailure>)>,
    l2: Map<Seq<char>, (Seq<DirEntryInfo>, Option<IoFailure>)>,
    frames: Seq<TreeFrame>,
)
    requires
        extends(l1, l2),
        frames_ok(svc, l1, true, frames),
    ensures
        frames_ok(svc, l2, true, frames),
{
    assert forall|k: int| 0 <= k < frames.len() implies #[trigger] frame_ok(svc, l2, true, frames, k) by {
        assert(frame_ok(svc, l1, true, frames, k));
        let f = frames[k];
        assert(l1.dom().contains(f.path@));
        assert(l2[f.path@] == l1[f.path@]);
        assert forall|i: int| 0 <= i < f.nodes@.len() implies svc.tree_node_ok(
            l2,
            #[trigger] f.nodes@[i],
        ) by {
            lemma_node_mono(svc, l1, l2, f.nodes@[i]);
        }
        lemma_level_mono(svc, l1, l2, f.entries@.take(f.next as int), f.nodes@);
    }
}

proof fn lemma_level_pass(
    svc: &FileService,
    listings: Map<Seq<char>, (Seq<DirEntryInfo>, Option<IoFailure>)>,
    entries: Seq<DirEntryInfo>,
    nodes: Seq<TreeNode>,
    i: int,
)
    requires
        0 <= i < entries.len(),
        svc.level_match(listings, entries.take(i), nodes),
        svc.tree_role(entries[i]) == EntryRole::Skip || (svc.tree_role(entries[i])
            == EntryRole::Descend && listings.contains_key(entries[i].rel_path@)
            && !FileService::dir_shown(listings, entries[i].rel_path@)),
    ensures
        svc.level_match(listings, entries.take(i + 1), nodes),
{
    reveal(FileService::level_match);
    assert(entries.take(i + 1).drop_last() =~= entries.take(i));
    assert(entries.take(i + 1).last() == entries[i]);
}

proof fn lemma_level_add(
    svc: &FileService,
    listings: Map<Seq<char>, (Seq<DirEntryInfo>, Option<IoFailure>)>,
    entries: Seq<DirEntryInfo>,
    nodes: Seq<TreeNode>,
    i: int,
    node: TreeNode,
)
    requires
        0 <= i < entries.len(),
        svc.level_match(listings, entries.take(i), nodes),
        (svc.tree_role(entries[i]) == EntryRole::FileNode && node == FileService::file_node_of(
            entries[i],
        )) || (svc.tree_role(entries[i]) == EntryRole::Descend && listings.contains_key(
            entries[i].rel_path@,
        ) && FileService::dir_shown(listings, entries[i].rel_path@) && node.name
            == entries[i].name && node.path == entries[i].rel_path && node.children is Some),
    ensures
        svc.level_match(listings, entries.take(i + 1), nodes.push(node)),
{
    reveal(FileService::level_match);
    assert(entries.take(i + 1).drop_last() =~= entries.take(i));
    assert(entries.take(i + 1).last() == entries[i]);
    assert(nodes.push(node).drop_last() =~= nodes);
}

proof fn lemma_file_node_ok(
    svc: &FileService,
    listings: Map<Seq<char>, (Seq<DirEntryInfo>, Option<IoFailure>)>,
    e: DirEntryInfo,
)
    requires
        svc.tree_role(e) == EntryRole::FileNode,
        e.meta is Ok,
    ensures
        svc.tree_node_ok(listings, FileService::file_node_of(e)),
{
    reveal_with_fuel(FileService::tree_node_ok, 1);
}

proof fn lemma_dir_node_ok(
    svc: &FileService,
    listings: Map<Seq<char>, (Seq<DirEntryInfo>, Option<IoFailure>)>,
    e: DirEntryInfo,
    node: TreeNode,
)
    requires
        svc.tree_role(e) == EntryRole::Descend,
        node.name == e.name,
        node.path == e.rel_path,
        node.size is None,
        node.mtime is None,
        FileService::dir_shown(listings, node.path@),
        listings[node.path@].1 is None,
        node.children matches Some(cs) && sorted_by_name(cs@) && svc.level_built(
            listings,
            listings[node.path@].0,
            cs@,
        ) && forall|i: int| 0 <= i < cs@.len() ==> svc.tree_node_ok(listings, #[trigger] cs@[i]),
    ensures
        svc.tree_node_ok(listings, node),
{
    reveal_with_fuel(FileService::tree_node_ok, 1);
}

/// `a` comes before `b` in the order a walk visits entries, where each is,
/// for every directory being read from the root down, how many of its
/// entries are handled: at the first place they differ `a` has handled
/// fewer, or `a` stops where `b` goes on into a subdirectory.
pub open spec fn visits_before(a: Seq<int>, b: Seq<int>) -> bool {
    exists|k: int|
        0 <= k <= a.len() && k <= b.len() && #[trigger] a.take(k) == b.take(k) && ((k == a.len()
            && k < b.len()) || (k < a.len() && k < b.len() && a[k] < b[k]))
}

/// No position comes before itself: a walk that only moves forward never
/// stands again where it stood, so it never asks twice from one place.
pub proof fn lemma_visits_before_irreflexive(a: Seq<int>)
    ensures
        !visits_before(a, a),
{
}

/// For each frame, from the root down, how many of its entries are handled.
spec fn positions(frames: Seq<TreeFrame>) -> Seq<int> {
    frames.map_values(|f: TreeFrame| f.next as int)
}

/// The visiting order is transitive: a walk that moves forward step by step
/// moves forward over the whole run.
pub proof fn lemma_visits_before_trans(a: Seq<int>, b: Seq<int>, c: Seq<int>)
    requires
        visits_before(a, b),
        visits_before(b, c),
    ensures
        visits_before(a, c),
{
    let k1 = choose|k: int|
        0 <= k <= a.len() && k <= b.len() && #[trigger] a.take(k) == b.take(k) && ((k == a.len()
            && k < b.len()) || (k < a.len() && k < b.len() && a[k] < b[k]));
    let k2 = choose|k: int|
        0 <= k <= b.len() && k <= c.len() && #[trigger] b.take(k) == c.take(k) && ((k == b.len()
            && k < c.len()) || (k < b.len() && k < c.len() && b[k] < c[k]));
    let k = if k1 < k2 {
        k1
    } else {
        k2
    };
    assert forall|j: int| 0 <= j < k implies a[j] == c[j] by {
        assert(a.take(k1)[j] == b.take(k1)[j]);
        assert(b.take(k2)[j] == c.take(k2)[j]);
    }
    assert(a.take(k) =~= c.take(k));
    if k1 < k2 {
        assert(b.take(k2)[k1] == c.take(k2)[k1]);
    } else if k2 < k1 {
        assert(a.take(k1)[k2] == b.take(k1)[k2]);
    }
}

/// Handling one more entry of frame `k`, and dropping the frames above it,
/// moves the walk forward.
proof fn lemma_bump_visits_before(a: Seq<TreeFrame>, b: Seq<TreeFrame>, k: int)
    requires
        0 <= k < a.len(),
        k < b.len(),
        forall|j: int| 0 <= j < k ==> #[trigger] a[j].next == b[j].next,
        a[k].next < b[k].next,
    ensures
        visits_before(positions(a), positions(b)),
{
    assert(positions(a).take(k) =~= positions(b).take(k));
}

/// Going into a subdirectory moves the walk forward.
proof fn lemma_push_visits_before(a: Seq<TreeFrame>, child: TreeFrame)
    ensures
        visits_before(positions(a), positions(a.push(child))),
{
    let k = a.len() as int;
    assert(positions(a).take(k) =~= positions(a.push(child)).take(k));
}

/// A step of the walk that handles one more entry of frame `k` keeps it
/// past where it started.
proof fn lemma_step_forward(start: Seq<int>, before: Seq<TreeFrame>, after: Seq<TreeFrame>, k: int)
    requires
        positions(before) == start || visits_before(start, positions(before)),
        0 <= k < before.len(),
        k < after.len(),
        forall|j: int| 0 <= j < k ==> #[trigger] before[j].next == after[j].next,
        before[k].next < after[k].next,
    ensures
        visits_before(start, positions(after)),
{
    lemma_bump_visits_before(before, after, k);
    if positions(before) != start {
        lemma_visits_before_trans(start, positions(before), positions(after));
    }
}

/// How much of the top frame is left, for termination.
spec fn top_left(frames: Seq<TreeFrame>) -> int {
    if frames.len() > 0 {
        frames.last().entries@.len() - frames.last().next
    } else {
        0
    }
}

impl FileService {
    /// Starts the tree of this context, whose root directory is named
    /// `root_name`, given what reading that directory gave.
    pub fn tree(&self, root_name: String, listing: DirListing) -> (p: TreeProgress)
        ensures
            p matches TreeProgress::Pending(w, path) ==> w.waiting(self) && w.root_name()
                == root_name@ && path@ == w.pending_path() && w.consistent() && w.listings()
                == Self::root_listings(listing_view(listing)),
            p matches TreeProgress::Done(Ok(root)) ==> self.tree_root_ok(
                root,
                root_name@,
                Self::root_listings(listing_view(listing)),
            ),
            p matches TreeProgress::Done(Err(f)) ==> self.failed_file(
                Self::root_listings(listing_view(listing)),
                f,
            ),
    {
        let ghost listings = Self::root_listings(listing_view(listing));
        let DirListing { entries, failure } = listing;
        let mut frames: Vec<TreeFrame> = Vec::new();
        frames.push(
            TreeFrame { name: root_name, path: String::new(), entries, failure, next: 0, nodes: Vec::new() },
        );
        proof {
            reveal(FileService::level_match);
            assert(frames@[0].entries@.take(0) =~= Seq::<DirEntryInfo>::empty());
            assert(frame_ok(self, listings, true, frames@, 0));
        }
        TreeWalk::advance(self, frames, Ghost(listings), Ghost(true))
    }
}

impl TreeWalk {
    /// Where the walk stands: for each directory being read, from the root
    /// down, how many of its entries are handled.
    pub closed spec fn position(&self) -> Seq<int> {
        positions(self.frames@)
    }

    /// The name the tree's root will carry.
    pub closed spec fn root_name(&self) -> Seq<char> {
        self.frames@[0].name@
    }

    /// The listing handed in for each directory path so far (the first one
    /// for each path).
    pub closed spec fn listings(&self) -> Map<Seq<char>, (Seq<DirEntryInfo>, Option<IoFailure>)> {
        self.listings@
    }

    /// Every listing handed in for a path agreed with the first one.
    pub closed spec fn consistent(&self) -> bool {
        self.consistent@
    }

    /// The walk is consistent and waits on a directory it may descend into.
    pub closed spec fn waiting(&self, svc: &FileService) -> bool {
        let frames = self.frames@;
        let top = frames.last();
        &&& frames.len() > 0
        &&& frames_ok(svc, self.listings@, self.consistent@, frames)
        &&& top.next < top.entries@.len()
        &&& svc.tree_role(top.entries@[top.next as int]) == EntryRole::Descend
    }

    /// The path of the directory the walk waits on.
    pub closed spec fn pending_path(&self) -> Seq<char> {
        let top = self.frames@.last();
        top.entries@[top.next as int].rel_path@
    }

    /// The listings once `listing` is handed in for the pending path.
    pub open spec fn listings_after(&self, listing: (Seq<DirEntryInfo>, Option<IoFailure>)) -> Map<
        Seq<char>,
        (Seq<DirEntryInfo>, Option<IoFailure>),
    > {
        if self.listings().contains_key(self.pending_path()) {
            self.listings()
        } else {
            self.listings().insert(self.pending_path(), listing)
        }
    }

    /// Whether the listings still agree once `listing` is handed in for the
    /// pending path.
    pub open spec fn consistent_after(&self, listing: (Seq<DirEntryInfo>, Option<IoFailure>)) -> bool {
        &&& self.consistent()
        &&& self.listings().contains_key(self.pending_path()) ==> self.listings()[self.pending_path()]
            == listing
    }

    /// Continues the walk with what reading the directory it waits on gave.
    /// The directory is shown, and read, exactly when its listing holds a
    /// Markdown file.
    pub fn resume(self, svc: &FileService, listing: DirListing) -> (p: TreeProgress)
        requires
            self.waiting(svc),
        ensures
            p matches TreeProgress::Pending(w, path) ==> w.waiting(svc) && w.root_name()
                == self.root_name() && w.listings() == self.listings_after(listing_view(listing))
                && w.consistent() == self.consistent_after(listing_view(listing)) && path@
                == w.pending_path() && visits_before(self.position(), w.position()),
            p matches TreeProgress::Done(Ok(root)) ==> self.consistent_after(listing_view(listing))
                ==> svc.tree_root_ok(root, self.root_name(), self.listings_after(listing_view(listing))),
            p matches TreeProgress::Done(Err(f)) ==> self.consistent_after(listing_view(listing))
                ==> svc.failed_file(self.listings_after(listing_view(listing)), f),
    {
        let ghost lv = listing_view(listing);
        let ghost pp = self.pending_path();
        let ghost l1 = self.listings@;
        let ghost c1 = self.consistent@;
        let ghost l2 = self.listings_after(lv);
        let ghost c2 = self.consistent_after(lv);
        let mut frames = self.frames;
        let ghost frames0 = frames@;
        let ghost m = frames0.len() - 1;
        proof {
            if c2 {
                assert(extends(l1, l2));
                lemma_frames_mono(svc, l1, l2, frames0);
            }
            assert(l2.contains_key(pp) && l2[pp] == lv || !c2);
        }
        assert(frames_ok(svc, l2, c2, frames0)) by {
            assert forall|k: int| 0 <= k < frames0.len() implies #[trigger] frame_ok(svc, l2, c2, frames0, k) by {
                assert(frame_ok(svc, l1, c1, frames0, k));
            }
        }
        let mut top = frames.pop().unwrap();
        assert(top == frames0.last());
        assert(frames@ == frames0.drop_last());
        assert(frame_ok(svc, l2, c2, frames0, m));
        let descend = listing_has_md(&listing.entries);
        if descend {
            let DirListing { entries: child_entries, failure: child_failure } = listing;
            let child = TreeFrame {
                name: top.entries[top.next].name.clone(),
                path: top.entries[top.next].rel_path.clone(),
                entries: child_entries,
                failure: child_failure,
                next: 0,
                nodes: Vec::new(),
            };
            frames.push(top);
            assert(frames@ == frames0);
            proof {
                reveal(FileService::level_match);
                assert(child.entries@.take(0) =~= Seq::<DirEntryInfo>::empty());
                assert(frames0.push(child)[m] == frames0[m]);
                assert(frame_ok(svc, l2, c2, frames0.push(child), m + 1));
                lemma_frames_push(svc, l2, c2, frames0, child);
                lemma_push_visits_before(frames0, child);
            }
            frames.push(child);
        } else {
            let ghost n = top.entries.len();
            proof {
                if c2 {
                    lemma_level_pass(svc, l2, top.entries@, top.nodes@, top.next as int);
                }
            }
            top.next = top.next + 1;
            frames.push(top);
            proof {
                if m > 0 {
                    assert(frames@[m - 1] == frames0[m - 1]);
                }
                assert(frame_ok(svc, l2, c2, frames@, m));
                lemma_frames_replace_top(svc, l2, c2, frames0, frames@);
                assert forall|j: int| 0 <= j < m implies #[trigger] frames0[j].next == frames@[j].next by {
                    assert(frames@[j] == frames0[j]);
                }
                lemma_bump_visits_before(frames0, frames@, m);
            }
        }
        assert(visits_before(positions(frames0), positions(frames@)));
        let p = Self::advance(svc, frames, Ghost(l2), Ghost(c2));
        proof {
            if p is Pending {
                let w = p->Pending_0;
                if positions(frames@) != w.position() {
                    lemma_visits_before_trans(positions(frames0), positions(frames@), w.position());
                }
            }
        }
        p
    }

    /// Handles entries until the walk needs a listing, fails, or is done.
    fn advance(
        svc: &FileService,
        frames: Vec<TreeFrame>,
        listings: Ghost<Map<Seq<char>, (Seq<DirEntryInfo>, Option<IoFailure>)>>,
        ok: Ghost<bool>,
    ) -> (p: TreeProgress)
        requires
            frames@.len() > 0,
            frames_ok(svc, listings@, ok@, frames@),
        ensures
            p matches TreeProgress::Pending(w, path) ==> w.waiting(svc) && w.root_name()
                == frames@[0].name@ && w.listings() == listings@ && w.consistent() == ok@
                && path@ == w.pending_path() && (w.position() == positions(frames@)
                || visits_before(positions(frames@), w.position())),
            p matches TreeProgress::Done(Ok(root)) ==> ok@ ==> svc.tree_root_ok(
                root,
                frames@[0].name@,
                listings@,
            ),
            p matches TreeProgress::Done(Err(f)) ==> ok@ ==> svc.failed_file(listings@, f),
    {
        let ghost l = listings@;
        let ghost c = ok@;
        let ghost root_name = frames@[0].name@;
        let mut stack = frames;
        loop
            invariant
                stack@.len() > 0,
                stack@[0].name@ == root_name,
                frames_ok(svc, l, c, stack@),
                frames@.len() > 0,
                root_name == frames@[0].name@,
                l == listings@,
                c == ok@,
                positions(stack@) == positions(frames@) || visits_before(
                    positions(frames@),
                    positions(stack@),
                ),
            decreases stack@.len(), top_left(stack@),
        {
            let ghost before = stack@;
            let ghost m = before.len() - 1;
            let mut top = stack.pop().unwrap();
            assert(stack@ == before.drop_last());
            assert(top == before.last());
            assert(frame_ok(svc, l, c, before, m));
            if top.next < top.entries.len() {
                let i = top.next;
                let ghost e = top.entries@[i as int];
                let role = svc.tree_role_of(&top.entries[i]);
                match role {
                    EntryRole::Skip => {
                        proof {
                            if c {
                                lemma_level_pass(svc, l, top.entries@, top.nodes@, i as int);
                            }
                        }
                        top.next = i + 1;
                        stack.push(top);
                        proof {
                            if m > 0 {
                                assert(stack@[m - 1] == before[m - 1]);
                            }
                            assert(frame_ok(svc, l, c, stack@, m));
                            lemma_frames_replace_top(svc, l, c, before, stack@);
                            assert forall|j: int| 0 <= j < m implies #[trigger] before[j].next
                                == stack@[j].next by {
                                assert(stack@[j] == before[j]);
                            }
                            lemma_step_forward(positions(frames@), before, stack@, m);
                        }
                    },
                    EntryRole::FileNode => {
                        if top.entries[i].meta.is_err() {
                            let ghost path = top.path@;
                            let ghost listed = top.entries@;
                            let bad = top.entries.remove(i);
                            assert(bad == e);
                            match bad.meta {
                                Err(f) => {
                                    proof {
                                        if c {
                                            assert(l[path].0[i as int] == e);
                                            assert(svc.failed_file(l, f));
                                        }
                                    }
                                    return TreeProgress::Done(Err(f));
                                },
                                Ok(_) => {
                                    assert(false);
                                    return TreeProgress::Done(
                                        Err(
                                            IoFailure {
                                                kind: crate::listing::IoErrorKind::Other,
                                                message: String::new(),
                                            },
                                        ),
                                    );
                                },
                            }
                        }
                        let (size, secs) = match &top.entries[i].meta {
                            Ok(meta) => (meta.size, meta.modified_secs),
                            Err(_) => (0, None),
                        };
                        let node = TreeNode::file(
                            top.entries[i].name.clone(),
                            top.entries[i].rel_path.clone(),
                            size,
                            mtime_from(secs),
                        );
                        let ghost nodes0 = top.nodes@;
                        proof {
                            assert(node == FileService::file_node_of(e));
                            lemma_file_node_ok(svc, l, e);
                            if c {
                                lemma_level_add(svc, l, top.entries@, nodes0, i as int, node);
                            }
                        }
                        top.nodes.push(node);
                        top.next = i + 1;
                        stack.push(top);
                        proof {
                            if m > 0 {
                                assert(stack@[m - 1] == before[m - 1]);
                            }
                            let t = stack@[m];
                            if c {
                                assert forall|j: int| 0 <= j < t.nodes@.len() implies svc.tree_node_ok(
                                    l,
                                    #[trigger] t.nodes@[j],
                                ) by {
                                    if j < nodes0.len() {
                                        assert(t.nodes@[j] == nodes0[j]);
                                    }
                                }
                            }
                            assert(frame_ok(svc, l, c, stack@, m));
                            lemma_frames_replace_top(svc, l, c, before, stack@);
                            assert forall|j: int| 0 <= j < m implies #[trigger] before[j].next
                                == stack@[j].next by {
                                assert(stack@[j] == before[j]);
                            }
                            lemma_step_forward(positions(frames@), before, stack@, m);
                        }
                    },
                    EntryRole::Descend => {
                        let path = top.entries[i].rel_path.clone();
                        stack.push(top);
                        assert(stack@ == before);
                        let w = TreeWalk { frames: stack, listings: Ghost(l), consistent: Ghost(c) };
                        return TreeProgress::Pending(w, path);
                    },
                }
            } else {
                if top.failure.is_some() {
                    let ghost path = top.path@;
                    match top.failure {
                        Some(f) => {
                            proof {
                                if c {
                                    assert(l.contains_key(path) && l[path].1 == Some(f));
                                    assert(m == 0 || has_md_file(l[path].0));
                                    assert(svc.failed_file(l, f));
                                }
                            }
                            return TreeProgress::Done(Err(f));
                        },
                        None => {
                            assert(false);
                            return TreeProgress::Done(
                                Err(
                                    IoFailure {
                                        kind: crate::listing::IoErrorKind::Other,
                                        message: String::new(),
                                    },
                                ),
                            );
                        },
                    }
                }
                let ghost unsorted = top.nodes@;
                let ghost listing = top.entries@;
                let ghost dir_path = top.path@;
                assert(listing.take(top.next as int) =~= listing);
                let children = sort_by_name(top.nodes);
                proof {
                    if c {
                        assert forall|j: int| 0 <= j < children@.len() implies svc.tree_node_ok(
                            l,
                            #[trigger] children@[j],
                        ) by {
                            assert(children@.to_multiset().count(children@[j]) > 0);
                            assert(unsorted.contains(children@[j]));
                        }
                        assert(svc.level_match(l, listing, unsorted));
                        assert(unsorted.to_multiset() == children@.to_multiset());
                        assert(svc.level_built(l, listing, children@));
                    }
                }
                let node = TreeNode::dir(top.name, top.path, children);
                if stack.len() == 0 {
                    return TreeProgress::Done(Ok(node));
                }
                let ghost pm = m - 1;
                let ghost pe = before[pm].entries@[before[pm].next as int];
                proof {
                    assert(frame_ok(svc, l, c, before, pm));
                    if c {
                        lemma_dir_node_ok(svc, l, pe, node);
                    }
                    lemma_frames_pop(svc, l, c, before);
                }
                let ghost mid = stack@;
                assert(mid == before.drop_last());
                let mut parent = stack.pop().unwrap();
                assert(parent == before[pm]);
                let ghost nodes0 = parent.nodes@;
                let ghost n = parent.entries.len();
                proof {
                    if c {
                        lemma_level_add(svc, l, parent.entries@, nodes0, parent.next as int, node);
                    }
                }
                parent.nodes.push(node);
                parent.next = parent.next + 1;
                stack.push(parent);
                proof {
                    if pm > 0 {
                        assert(stack@[pm - 1] == mid[pm - 1]);
                    }
                    let t = stack@[pm];
                    if c {
                        assert forall|j: int| 0 <= j < t.nodes@.len() implies svc.tree_node_ok(
                            l,
                            #[trigger] t.nodes@[j],
                        ) by {
                            if j < nodes0.len() {
                                assert(t.nodes@[j] == nodes0[j]);
                            }
                        }
                    }
                    assert(frame_ok(svc, l, c, mid, pm));
                    assert(frame_ok(svc, l, c, stack@, pm));
                    lemma_frames_replace_top(svc, l, c, mid, stack@);
                    assert forall|j: int| 0 <= j < pm implies #[trigger] before[j].next
                        == stack@[j].next by {
                        assert(stack@[j] == mid[j]);
                        assert(mid[j] == before[j]);
                    }
                    lemma_step_forward(positions(frames@), before, stack@, pm);
                }
            }
        }
    }
}

} // verus!
