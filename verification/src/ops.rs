//! The protocol operations: lookup, getattr and readdir, each a stateless
//! read of the tree that either fully resolves into a reply or fails with
//! the single not-found error.

use vstd::prelude::*;
use vstd::string::StrSliceExecFns;
use vstd::string::StringSliceAdditionalSpecFns;

use crate::tree::Directory;
use crate::tree::File;
use crate::tree::FileKind;
use crate::tree::FileOrDir;
use crate::tree::Metadata;
use crate::tree::Node;
use crate::tree::Timestamp;
use crate::tree::Vault;
use crate::tree::node_meta;
use crate::tree::resolve;
use crate::tree::scan_files_name;
use crate::tree::spec_list_items;

verus! {

/// How many seconds a lookup or getattr reply stays valid on the caller's
/// side.
pub const TTL_SECS: u64 = 1;

/// The generation number every lookup reply carries.
pub const GENERATION: u64 = 0;

/// The one error the protocol surface knows: not-found, covering unknown
/// inos, unknown names, parents that are not directories, and readdir
/// pagination past the first page.
#[derive(Clone, Copy, PartialEq, Eq, Structural, Debug)]
pub enum FsError {
    NotFound,
}

/// A getattr reply: the resolved node's attributes and their validity span.
#[derive(Clone, Copy, PartialEq, Eq, Structural, Debug)]
pub struct AttrReply {
    pub attr: Metadata,
    pub ttl_secs: u64,
}

/// A lookup reply: the found file's attributes, their validity span, and a
/// generation number.
#[derive(Clone, Copy, PartialEq, Eq, Structural, Debug)]
pub struct EntryReply {
    pub attr: Metadata,
    pub ttl_secs: u64,
    pub generation: u64,
}

/// One line of a readdir reply.
#[derive(PartialEq, Eq, Debug)]
pub struct DirEntry {
    pub ino: u64,
    pub kind: FileKind,
    pub name: String,
}

/// A readdir reply as plain values: each entry reduced to its
/// (ino, kind, name) triple.
pub open spec fn entries_view(es: Seq<DirEntry>) -> Seq<(u64, FileKind, Seq<char>)> {
    es.map_values(|e: DirEntry| (e.ino, e.kind, e.name@))
}

/// What getattr replies: the attributes of whichever node owns `ino`, or
/// not-found.
pub open spec fn spec_getattr(v: Vault, ino: u64) -> Result<AttrReply, FsError> {
    match resolve(v.root, ino) {
        Some(n) => Ok(AttrReply { attr: node_meta(n), ttl_secs: TTL_SECS }),
        None => Err(FsError::NotFound),
    }
}

/// What lookup replies: the attributes of the file named `name` inside the
/// directory owning `parent`, or not-found when the parent does not resolve,
/// is not a directory, or holds no file of that name.
pub open spec fn spec_lookup(v: Vault, parent: u64, name: Seq<char>) -> Result<
    EntryReply,
    FsError,
> {
    match resolve(v.root, parent) {
        Some(Node::Dir(d)) => match scan_files_name(d.files@, name, 0) {
            Some(f) => Ok(EntryReply { attr: f.meta, ttl_secs: TTL_SECS, generation: GENERATION }),
            None => Err(FsError::NotFound),
        },
        _ => Err(FsError::NotFound),
    }
}

/// What readdir replies: for offset at most zero and an ino owned by a
/// directory, the full listing — "." for the directory itself, ".." with the
/// root's fixed ino 1, then the directory's children — and otherwise
/// not-found. Pagination past the first page is unsupported, so every
/// positive offset fails.
pub open spec fn spec_readdir(v: Vault, ino: u64, offset: i64) -> Result<
    Seq<(u64, FileKind, Seq<char>)>,
    FsError,
> {
    if offset > 0 {
        Err(FsError::NotFound)
    } else {
        match resolve(v.root, ino) {
            Some(Node::Dir(d)) => Ok(
                seq![
                    (d.meta.ino, FileKind::Directory, "."@),
                    (1u64, FileKind::Directory, ".."@),
                ] + spec_list_items(d),
            ),
            _ => Err(FsError::NotFound),
        }
    }
}

impl Vault {
    /// Attributes of the node owning `ino`, mirrored unchanged from its
    /// metadata; not-found when no node owns it.
    pub fn getattr(&self, ino: u64) -> (r: Result<AttrReply, FsError>)
        ensures
            r == spec_getattr(*self, ino),
    {
        match self.root.find_ino(ino) {
            None => Err(FsError::NotFound),
            Some(FileOrDir::File(f)) => Ok(AttrReply { attr: f.meta, ttl_secs: TTL_SECS }),
            Some(FileOrDir::Directory(d)) => Ok(AttrReply { attr: d.meta, ttl_secs: TTL_SECS }),
        }
    }

    /// Attributes of the file named `name` inside the directory owning
    /// `parent`; not-found when the parent is missing, is a file, or holds
    /// no such name.
    pub fn lookup(&self, parent: u64, name: String) -> (r: Result<EntryReply, FsError>)
        ensures
            r == spec_lookup(*self, parent, name@),
    {
        match self.root.find_ino(parent) {
            Some(FileOrDir::Directory(dir)) => match dir.find_file(name) {
                Some(f) => Ok(
                    EntryReply { attr: f.meta, ttl_secs: TTL_SECS, generation: GENERATION },
                ),
                None => Err(FsError::NotFound),
            },
            _ => Err(FsError::NotFound),
        }
    }

    /// The listing of the directory owning `ino`: ".", "..", then its
    /// children in listing order. Not-found for a positive offset, an
    /// unknown ino, or an ino owned by a file.
    pub fn readdir(&self, ino: u64, offset: i64) -> (r: Result<Vec<DirEntry>, FsError>)
        ensures
            match r {
                Ok(es) => spec_readdir(*self, ino, offset) == Ok::<
                    Seq<(u64, FileKind, Seq<char>)>,
                    FsError,
                >(entries_view(es@)),
                Err(e) => spec_readdir(*self, ino, offset) == Err::<
                    Seq<(u64, FileKind, Seq<char>)>,
                    FsError,
                >(e),
            },
    {
        if offset > 0 {
            return Err(FsError::NotFound);
        }
        match self.root.find_ino(ino) {
            Some(FileOrDir::Directory(dir)) => {
                let ghost listed = spec_list_items(*dir);
                let mut entries: Vec<DirEntry> = Vec::new();
                entries.push(
                    DirEntry { ino: dir.meta.ino, kind: FileKind::Directory, name: ".".to_owned() },
                );
                entries.push(DirEntry { ino: 1, kind: FileKind::Directory, name: "..".to_owned() });
                let items = dir.list_items();
                let mut k: usize = 0;
                while k < items.len()
                    invariant
                        k <= items.len(),
                        listed == spec_list_items(*dir),
                        items@.len() == listed.len(),
                        forall|t: int|
                            0 <= t < items@.len() ==> (items@[t].0, items@[t].1, items@[t].2@)
                                == listed[t],
                        entries@.len() == 2 + k,
                        (entries@[0].ino, entries@[0].kind, entries@[0].name@) == (
                            dir.meta.ino,
                            FileKind::Directory,
                            "."@,
                        ),
                        (entries@[1].ino, entries@[1].kind, entries@[1].name@) == (
                            1u64,
                            FileKind::Directory,
                            ".."@,
                        ),
                        forall|t: int|
                            0 <= t < k as int ==> (
                                entries@[2 + t].ino,
                                entries@[2 + t].kind,
                                entries@[2 + t].name@,
                            ) == listed[t],
                    decreases items@.len() - k,
                {
                    let item = &items[k];
                    entries.push(DirEntry { ino: item.0, kind: item.1, name: item.2.clone() });
                    k = k + 1;
                }
                proof {
                    assert(entries_view(entries@) =~= seq![
                        (dir.meta.ino, FileKind::Directory, "."@),
                        (1u64, FileKind::Directory, ".."@),
                    ] + listed);
                }
                Ok(entries)
            },
            _ => Err(FsError::NotFound),
        }
    }

    /// Build the fixed startup tree: a root directory with ino 1 and
    /// permission bits 0o755, holding one file with ino 2, name "test.txt",
    /// fixed byte content, permission bits 0o644, and a size field of 4096
    /// set independently of the content length. The caller supplies the
    /// timestamps to stamp the file and the root with.
    pub fn seeded(file_time: Timestamp, root_time: Timestamp) -> (v: Vault)
        ensures
            is_seeded(v, file_time, root_time),
    {
        let file = File {
            name: "test.txt".to_owned(),
            data: "lorem ipsum dolor sit amet".as_bytes_vec(),
            meta: Metadata {
                ino: 2,
                size: 4096,
                blocks: 1,
                atime: file_time,
                mtime: file_time,
                ctime: file_time,
                crtime: file_time,
                kind: FileKind::RegularFile,
                perm: 0o644,
                nlink: 1,
                uid: 0,
                gid: 0,
                rdev: 0,
                flags: 0,
                blksize: 512,
            },
        };
        let mut files: Vec<File> = Vec::new();
        files.push(file);
        let root = Directory {
            name: "".to_owned(),
            directories: Vec::new(),
            files,
            meta: Metadata {
                ino: 1,
                size: 4096,
                blocks: 1,
                atime: root_time,
                mtime: root_time,
                ctime: root_time,
                crtime: root_time,
                kind: FileKind::Directory,
                perm: 0o755,
                nlink: 1,
                uid: 0,
                gid: 0,
                rdev: 0,
                flags: 0,
                blksize: 512,
            },
        };
        Vault { root }
    }
}

/// The seeded file: ino 2, named "test.txt", the fixed content, size field
/// 4096, permission bits 0o644, stamped with `t` throughout.
pub open spec fn is_seeded_file(f: File, t: Timestamp) -> bool {
    &&& f.name@ == "test.txt"@
    &&& f.data@ == "lorem ipsum dolor sit amet".spec_bytes()
    &&& f.meta == (Metadata {
        ino: 2,
        size: 4096,
        blocks: 1,
        atime: t,
        mtime: t,
        ctime: t,
        crtime: t,
        kind: FileKind::RegularFile,
        perm: 0o644,
        nlink: 1,
        uid: 0,
        gid: 0,
        rdev: 0,
        flags: 0,
        blksize: 512,
    })
}

/// The seeded tree: a root with ino 1, an empty name, no child directories,
/// and exactly the seeded file.
pub open spec fn is_seeded(v: Vault, file_time: Timestamp, root_time: Timestamp) -> bool {
    &&& v.root.name@ == ""@
    &&& v.root.directories@.len() == 0
    &&& v.root.files@.len() == 1
    &&& is_seeded_file(v.root.files@[0], file_time)
    &&& v.root.meta == (Metadata {
        ino: 1,
        size: 4096,
        blocks: 1,
        atime: root_time,
        mtime: root_time,
        ctime: root_time,
        crtime: root_time,
        kind: FileKind::Directory,
        perm: 0o755,
        nlink: 1,
        uid: 0,
        gid: 0,
        rdev: 0,
        flags: 0,
        blksize: 512,
    })
}

} // verus!
