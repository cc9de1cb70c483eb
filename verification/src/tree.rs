//! The node model: metadata, files, directories, and the inode resolver.
//!
//! A `Directory` owns its children outright, so the structure is a strict
//! tree walked root-to-leaf. Every node carries a `Metadata` record whose
//! `ino` is the handle the resolver works from.

use vstd::prelude::*;

verus! {

/// A point in time, as seconds and nanoseconds since the Unix epoch.
#[derive(Clone, Copy, PartialEq, Eq, Structural, Debug)]
pub struct Timestamp {
    pub secs: u64,
    pub nanos: u32,
}

/// The two node kinds this tree holds.
#[derive(Clone, Copy, PartialEq, Eq, Structural, Debug)]
pub enum FileKind {
    RegularFile,
    Directory,
}

/// The attribute record shared by every node; pure value data.
#[derive(Clone, Copy, PartialEq, Eq, Structural, Debug)]
pub struct Metadata {
    pub ino: u64,
    pub size: u64,
    pub blocks: u64,
    pub atime: Timestamp,
    pub mtime: Timestamp,
    pub ctime: Timestamp,
    pub crtime: Timestamp,
    pub kind: FileKind,
    pub perm: u16,
    pub nlink: u32,
    pub uid: u32,
    pub gid: u32,
    pub rdev: u32,
    pub flags: u32,
    pub blksize: u32,
}

/// A regular file: a name, its byte content, and its attributes.
#[derive(Debug)]
pub struct File {
    pub name: String,
    pub data: Vec<u8>,
    pub meta: Metadata,
}

/// A directory: a name, its child directories and files, and its attributes.
#[derive(Debug)]
pub struct Directory {
    pub name: String,
    pub directories: Vec<Directory>,
    pub files: Vec<File>,
    pub meta: Metadata,
}

/// The whole tree: exactly one owned root directory, expected to carry
/// ino 1, the reserved root handle.
pub struct Vault {
    pub root: Directory,
}

/// What the resolver hands back: a node of either kind, by value.
/// Used in specifications to state which node a query reached.
pub enum Node {
    File(File),
    Dir(Directory),
}

/// A borrowed node of either kind, as the executable resolver returns it.
pub enum FileOrDir<'a> {
    File(&'a File),
    Directory(&'a Directory),
}

/// The attribute record of a resolved node, whichever kind it is.
pub open spec fn node_meta(n: Node) -> Metadata {
    match n {
        Node::File(f) => f.meta,
        Node::Dir(d) => d.meta,
    }
}

/// The borrowed resolver result, as the by-value node it points at.
pub open spec fn node_of(r: Option<FileOrDir>) -> Option<Node> {
    match r {
        Some(FileOrDir::File(f)) => Some(Node::File(*f)),
        Some(FileOrDir::Directory(d)) => Some(Node::Dir(*d)),
        None => None,
    }
}

/// The first file at or after position `i` whose ino is `ino`, scanning in
/// stored order.
pub open spec fn scan_files_ino(files: Seq<File>, ino: u64, i: int) -> Option<File>
    decreases files.len() - i,
{
    if i < 0 || i >= files.len() {
        None
    } else if files[i].meta.ino == ino {
        Some(files[i])
    } else {
        scan_files_ino(files, ino, i + 1)
    }
}

/// The first file at or after position `i` whose name is `name`, scanning in
/// stored order; comparison is exact.
pub open spec fn scan_files_name(files: Seq<File>, name: Seq<char>, i: int) -> Option<File>
    decreases files.len() - i,
{
    if i < 0 || i >= files.len() {
        None
    } else if files[i].name@ == name {
        Some(files[i])
    } else {
        scan_files_name(files, name, i + 1)
    }
}

/// Resolve `ino` inside a directory: the directory itself, then its files in
/// stored order, then the scan over its child directories.
pub open spec fn resolve(d: Directory, ino: u64) -> Option<Node>
    decreases d, 1int, 0int,
{
    if d.meta.ino == ino {
        Some(Node::Dir(d))
    } else {
        match scan_files_ino(d.files@, ino, 0) {
            Some(f) => Some(Node::File(f)),
            None => resolve_in_dirs(d.directories@, ino, 0),
        }
    }
}

/// The child-directory scan, from position `i`: a child whose ino matches is
/// returned; a child whose ino exceeds the target ends the scan and the
/// search descends into the previous sibling, on the premise that a target
/// present anywhere lies in that sibling's contiguous ino range (the
/// resolution-order invariant, `resolution_ordered`). When the first child
/// already exceeds the target there is no earlier sibling and the scan
/// reports not-found.
pub open spec fn resolve_in_dirs(dirs: Seq<Directory>, ino: u64, i: int) -> Option<Node>
    decreases dirs, 0int, dirs.len() - i,
{
    if i < 0 || i >= dirs.len() {
        None
    } else if dirs[i].meta.ino == ino {
        Some(Node::Dir(dirs[i]))
    } else if dirs[i].meta.ino > ino {
        if i == 0 {
            None
        } else {
            resolve(dirs[i - 1], ino)
        }
    } else {
        resolve_in_dirs(dirs, ino, i + 1)
    }
}

/// The directory listing a readdir reply is synthesized from: one
/// (ino, kind, name) triple per child, all files first in stored order,
/// then all child directories in stored order.
pub open spec fn spec_list_items(d: Directory) -> Seq<(u64, FileKind, Seq<char>)> {
    d.files@.map_values(|f: File| (f.meta.ino, FileKind::RegularFile, f.name@))
        + d.directories@.map_values(|c: Directory| (c.meta.ino, FileKind::Directory, c.name@))
}

/// Every ino in the subtree under `d`, in resolver scan order: the directory
/// itself, its files in stored order, then each child subtree in turn.
pub open spec fn ino_seq(d: Directory) -> Seq<u64>
    decreases d, 1int, 0int,
{
    seq![d.meta.ino] + d.files@.map_values(|f: File| f.meta.ino) + dirs_ino_seq(d.directories@, 0)
}

/// The inos of the subtrees rooted at `dirs[i..]`, concatenated in order.
pub open spec fn dirs_ino_seq(dirs: Seq<Directory>, i: int) -> Seq<u64>
    decreases dirs, 0int, dirs.len() - i,
{
    if i < 0 || i >= dirs.len() {
        Seq::empty()
    } else {
        ino_seq(dirs[i]) + dirs_ino_seq(dirs, i + 1)
    }
}

/// Whether `n` is a node of the subtree rooted at `d`: the directory itself,
/// one of its files, or a node of one of its child subtrees.
pub open spec fn in_tree(d: Directory, n: Node) -> bool
    decreases d,
{
    ||| n == Node::Dir(d)
    ||| (exists|i: int| 0 <= i < d.files@.len() && n == Node::File(d.files@[i]))
    ||| (exists|i: int| 0 <= i < d.directories@.len() && in_tree(d.directories@[i], n))
}

/// The nodes the scan-and-descend strategy can reach inside `d`: the
/// directory itself, its files, each child directory by its own ino, and —
/// only through a child that has a later sibling — the reachable nodes of
/// that child's subtree. Proper descendants of a last sibling are outside
/// this set: the scan ends there before the descend step can fire.
pub open spec fn findable(d: Directory, n: Node) -> bool
    decreases d,
{
    ||| n == Node::Dir(d)
    ||| (exists|i: int| 0 <= i < d.files@.len() && n == Node::File(d.files@[i]))
    ||| (exists|k: int| 0 <= k < d.directories@.len() && n == Node::Dir(d.directories@[k]))
    ||| (exists|k: int| 0 <= k && k + 1 < d.directories@.len() && findable(d.directories@[k], n))
}

/// Each value of the sequence is strictly below every later one.
pub open spec fn strictly_ascending(s: Seq<u64>) -> bool {
    forall|i: int, j: int| 0 <= i < j < s.len() ==> s[i] < s[j]
}

/// The resolution-order invariant the resolver's descend step relies on:
/// walking the tree in resolver scan order meets strictly ascending ino
/// values, so each subtree's inos sit between its root's ino and the next
/// sibling's. Builders of a tree must uphold this; it is not enforced by
/// construction.
pub open spec fn resolution_ordered(d: Directory) -> bool {
    strictly_ascending(ino_seq(d))
}

impl Directory {
    /// Locate the node owning `ino` anywhere under this directory, by the
    /// scan-and-descend strategy of `resolve`.
    pub fn find_ino(&self, ino: u64) -> (r: Option<FileOrDir<'_>>)
        ensures
            node_of(r) == resolve(*self, ino),
        decreases *self,
    {
        if self.meta.ino == ino {
            return Some(FileOrDir::Directory(self));
        }
        let mut i: usize = 0;
        while i < self.files.len()
            invariant
                i <= self.files.len(),
                self.meta.ino != ino,
                scan_files_ino(self.files@, ino, 0) == scan_files_ino(self.files@, ino, i as int),
            decreases self.files.len() - i,
        {
            if self.files[i].meta.ino == ino {
                return Some(FileOrDir::File(&self.files[i]));
            }
            i = i + 1;
        }
        let mut j: usize = 0;
        while j < self.directories.len()
            invariant
                j <= self.directories.len(),
                self.meta.ino != ino,
                scan_files_ino(self.files@, ino, 0) is None,
                resolve_in_dirs(self.directories@, ino, 0)
                    == resolve_in_dirs(self.directories@, ino, j as int),
            decreases self.directories.len() - j,
        {
            if self.directories[j].meta.ino == ino {
                return Some(FileOrDir::Directory(&self.directories[j]));
            }
            if self.directories[j].meta.ino > ino {
                if j == 0 {
                    return None;
                }
                proof {
                    assert(decreases_to!(*self => self.directories@[j - 1]));
                }
                return self.directories[j - 1].find_ino(ino);
            }
            j = j + 1;
        }
        None
    }

    /// Return the first file of this directory whose name is exactly `name`,
    /// scanning the files in stored order.
    pub fn find_file(&self, name: String) -> (r: Option<&File>)
        ensures
            match r {
                Some(f) => scan_files_name(self.files@, name@, 0) == Some(*f),
                None => scan_files_name(self.files@, name@, 0) is None,
            },
    {
        let mut i: usize = 0;
        while i < self.files.len()
            invariant
                i <= self.files.len(),
                scan_files_name(self.files@, name@, 0)
                    == scan_files_name(self.files@, name@, i as int),
            decreases self.files.len() - i,
        {
            if self.files[i].name == name {
                return Some(&self.files[i]);
            }
            i = i + 1;
        }
        None
    }

    /// Materialize the (ino, kind, name) listing of this directory's
    /// children: files first in stored order, then child directories.
    pub fn list_items(&self) -> (r: Vec<(u64, FileKind, String)>)
        ensures
            r@.len() == spec_list_items(*self).len(),
            forall|k: int|
                0 <= k < r@.len() ==> (r@[k].0, r@[k].1, r@[k].2@) == spec_list_items(*self)[k],
    {
        let ghost items = spec_list_items(*self);
        let mut r: Vec<(u64, FileKind, String)> = Vec::new();
        let mut i: usize = 0;
        while i < self.files.len()
            invariant
                i <= self.files.len(),
                items == spec_list_items(*self),
                r@.len() == i,
                forall|k: int| 0 <= k < i as int ==> (r@[k].0, r@[k].1, r@[k].2@) == items[k],
            decreases self.files.len() - i,
        {
            let f = &self.files[i];
            r.push((f.meta.ino, FileKind::RegularFile, f.name.clone()));
            i = i + 1;
        }
        let mut j: usize = 0;
        while j < self.directories.len()
            invariant
                j <= self.directories.len(),
                items == spec_list_items(*self),
                r@.len() == self.files@.len() + j,
                forall|k: int|
                    0 <= k < r@.len() ==> (r@[k].0, r@[k].1, r@[k].2@) == items[k],
            decreases self.directories.len() - j,
        {
            let c = &self.directories[j];
            r.push((c.meta.ino, FileKind::Directory, c.name.clone()));
            j = j + 1;
        }
        r
    }
}

} // verus!
