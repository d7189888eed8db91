//! Directory listing entries and directory tree nodes.

use vstd::prelude::*;

use crate::order::Named;

verus! {

/// One entry of a directory listing.
#[derive(Debug, Clone, PartialEq, Eq)]
pub struct FileInfo {
    pub name: String,
    /// Path relative to the context's root.
    pub path: String,
    pub size: u64,
    /// Modification time in seconds since the Unix epoch, 0 when unknown.
    pub mtime: i64,
    pub is_dir: bool,
}

/// A node of the directory tree: a file carries its size and modification
/// time, a directory carries its children.
#[derive(Debug, PartialEq, Eq)]
pub struct TreeNode {
    pub name: String,
    /// Path relative to the context's root.
    pub path: String,
    pub size: Option<u64>,
    pub mtime: Option<i64>,
    pub children: Option<Vec<TreeNode>>,
}

impl TreeNode {
    /// A file node.
    pub fn file(name: String, path: String, size: u64, mtime: i64) -> (node: Self)
        ensures
            node.name == name,
            node.path == path,
            node.size == Some(size),
            node.mtime == Some(mtime),
            node.children is None,
    {
        TreeNode { name, path, size: Some(size), mtime: Some(mtime), children: None }
    }

    /// A directory node with the given children.
    pub fn dir(name: String, path: String, children: Vec<TreeNode>) -> (node: Self)
        ensures
            node.name == name,
            node.path == path,
            node.size is None,
            node.mtime is None,
            node.children == Some(children),
    {
        TreeNode { name, path, size: None, mtime: None, children: Some(children) }
    }
}

impl Named for FileInfo {
    open spec fn name_view(&self) -> Seq<char> {
        self.name@
    }

    fn name_text(&self) -> (s: &str) {
        self.name.as_str()
    }
}

impl Named for TreeNode {
    open spec fn name_view(&self) -> Seq<char> {
        self.name@
    }

    fn name_text(&self) -> (s: &str) {
        self.name.as_str()
    }
}

/// Files and tree nodes are ordered by their names.
pub proof fn lemma_ordered_by_name(f: FileInfo, n: TreeNode)
    ensures
        f.name_view() == f.name@,
        n.name_view() == n.name@,
{
}

} // verus!
