//! Laws of the resolver and the protocol operations, stated over the same
//! spec functions the executable contracts use.

use vstd::prelude::*;

use crate::ops::AttrReply;
use crate::ops::EntryReply;
use crate::ops::FsError;
use crate::ops::is_seeded;
use crate::ops::spec_getattr;
use crate::ops::spec_lookup;
use crate::ops::spec_readdir;
use crate::tree::Directory;
use crate::tree::File;
use crate::tree::FileKind;
use crate::tree::Node;
use crate::tree::Timestamp;
use crate::tree::Vault;
use crate::tree::dirs_ino_seq;
use crate::tree::findable;
use crate::tree::in_tree;
use crate::tree::ino_seq;
use crate::tree::node_meta;
use crate::tree::resolution_ordered;
use crate::tree::resolve;
use crate::tree::resolve_in_dirs;
use crate::tree::scan_files_ino;

verus! {

/// Resolving a directory's own ino returns that directory itself. This holds
/// of every tree — in particular of every tree satisfying the
/// resolution-order invariant — since it is the resolver's first step.
pub proof fn lemma_resolve_self(d: Directory)
    ensures
        resolve(d, d.meta.ino) == Some(Node::Dir(d)),
{
}

/// In a tree satisfying the resolution-order invariant, no two nodes share
/// an ino: distinct positions of the tree's ino listing hold distinct
/// values.
pub proof fn lemma_ino_unique(d: Directory, i: int, j: int)
    requires
        resolution_ordered(d),
        0 <= i < ino_seq(d).len(),
        0 <= j < ino_seq(d).len(),
        i != j,
    ensures
        ino_seq(d)[i] != ino_seq(d)[j],
{
    if i < j {
        assert(ino_seq(d)[i] < ino_seq(d)[j]);
    } else {
        assert(ino_seq(d)[j] < ino_seq(d)[i]);
    }
}

/// Whatever node the resolver returns owns exactly the requested ino.
pub proof fn lemma_resolve_ino_matches(d: Directory, ino: u64)
    ensures
        resolve(d, ino) is Some ==> node_meta(resolve(d, ino)->Some_0).ino == ino,
    decreases d, 1int, 0int,
{
    if d.meta.ino != ino {
        lemma_scan_files_ino_matches(d.files@, ino, 0);
        if scan_files_ino(d.files@, ino, 0) is None {
            lemma_resolve_in_dirs_matches(d.directories@, ino, 0);
        }
    }
}

proof fn lemma_scan_files_ino_matches(files: Seq<File>, ino: u64, i: int)
    ensures
        scan_files_ino(files, ino, i) is Some ==> scan_files_ino(
            files,
            ino,
            i,
        )->Some_0.meta.ino == ino,
    decreases files.len() - i,
{
    if 0 <= i < files.len() && files[i].meta.ino != ino {
        lemma_scan_files_ino_matches(files, ino, i + 1);
    }
}

proof fn lemma_resolve_in_dirs_matches(dirs: Seq<Directory>, ino: u64, i: int)
    ensures
        resolve_in_dirs(dirs, ino, i) is Some ==> node_meta(
            resolve_in_dirs(dirs, ino, i)->Some_0,
        ).ino == ino,
    decreases dirs, 0int, dirs.len() - i,
{
    if 0 <= i < dirs.len() && dirs[i].meta.ino != ino {
        if dirs[i].meta.ino > ino {
            if i != 0 {
                lemma_resolve_ino_matches(dirs[i - 1], ino);
            }
        } else {
            lemma_resolve_in_dirs_matches(dirs, ino, i + 1);
        }
    }
}

/// The resolver never invents a node: whatever it returns is a node of the
/// tree it was asked to search.
pub proof fn lemma_resolve_in_tree(d: Directory, ino: u64)
    ensures
        resolve(d, ino) is Some ==> in_tree(d, resolve(d, ino)->Some_0),
    decreases d, 1int, 0int,
{
    if d.meta.ino != ino {
        lemma_scan_files_ino_position(d.files@, ino, 0);
        if scan_files_ino(d.files@, ino, 0) is None {
            lemma_resolve_in_dirs_in_tree(d.directories@, ino, 0);
        }
    }
}

proof fn lemma_scan_files_ino_position(files: Seq<File>, ino: u64, i: int)
    ensures
        scan_files_ino(files, ino, i) is Some ==> exists|k: int|
            0 <= k < files.len() && scan_files_ino(files, ino, i) == Some(files[k]),
    decreases files.len() - i,
{
    if 0 <= i < files.len() && files[i].meta.ino != ino {
        lemma_scan_files_ino_position(files, ino, i + 1);
    }
}

proof fn lemma_resolve_in_dirs_in_tree(dirs: Seq<Directory>, ino: u64, i: int)
    ensures
        resolve_in_dirs(dirs, ino, i) is Some ==> exists|k: int|
            0 <= k < dirs.len() && in_tree(dirs[k], resolve_in_dirs(dirs, ino, i)->Some_0),
    decreases dirs, 0int, dirs.len() - i,
{
    if 0 <= i < dirs.len() {
        if dirs[i].meta.ino == ino {
            assert(in_tree(dirs[i], Node::Dir(dirs[i])));
        } else if dirs[i].meta.ino > ino {
            if i != 0 {
                lemma_resolve_in_tree(dirs[i - 1], ino);
            }
        } else {
            lemma_resolve_in_dirs_in_tree(dirs, ino, i + 1);
        }
    }
}

/// Every node of the tree has its ino listed in the tree's ino listing, so
/// `lemma_ino_unique` speaks for all of them.
pub proof fn lemma_in_tree_ino_listed(d: Directory, n: Node)
    requires
        in_tree(d, n),
    ensures
        ino_seq(d).contains(node_meta(n).ino),
{
    let pos = lemma_node_position(d, n);
    assert(ino_seq(d)[pos] == node_meta(n).ino);
}

/// How far into `dirs_ino_seq(dirs, j)` the segment of subtree `k` begins:
/// the summed ino-listing lengths of the subtrees before it.
spec fn seg_start(dirs: Seq<Directory>, j: int, k: int) -> int
    decreases k - j,
{
    if j >= k {
        0
    } else {
        ino_seq(dirs[j]).len() as int + seg_start(dirs, j + 1, k)
    }
}

proof fn lemma_seg_start_nonneg(dirs: Seq<Directory>, j: int, k: int)
    ensures
        seg_start(dirs, j, k) >= 0,
    decreases k - j,
{
    if j < k {
        lemma_seg_start_nonneg(dirs, j + 1, k);
    }
}

proof fn lemma_seg_start_mono(dirs: Seq<Directory>, j: int, k1: int, k2: int)
    requires
        0 <= j <= k1 < k2 < dirs.len(),
    ensures
        seg_start(dirs, j, k1) + ino_seq(dirs[k1]).len() <= seg_start(dirs, j, k2),
    decreases k1 - j,
{
    if j == k1 {
        lemma_seg_start_nonneg(dirs, j + 1, k2);
    } else {
        lemma_seg_start_mono(dirs, j + 1, k1, k2);
    }
}

proof fn lemma_dirs_seg_index(dirs: Seq<Directory>, j: int, k: int, p: int)
    requires
        0 <= j <= k < dirs.len(),
        0 <= p < ino_seq(dirs[k]).len(),
    ensures
        seg_start(dirs, j, k) + p < dirs_ino_seq(dirs, j).len(),
        dirs_ino_seq(dirs, j)[seg_start(dirs, j, k) + p] == ino_seq(dirs[k])[p],
    decreases k - j,
{
    if j < k {
        lemma_dirs_seg_index(dirs, j + 1, k, p);
        lemma_seg_start_nonneg(dirs, j + 1, k);
    }
}

/// The length of the fixed prefix of `ino_seq(d)`: the directory's own ino
/// and one ino per file.
spec fn head_len(d: Directory) -> int {
    1 + d.files@.len() as int
}

proof fn lemma_subtree_index(d: Directory, k: int, p: int)
    requires
        0 <= k < d.directories@.len(),
        0 <= p < ino_seq(d.directories@[k]).len(),
    ensures
        head_len(d) + seg_start(d.directories@, 0, k) + p < ino_seq(d).len(),
        ino_seq(d)[head_len(d) + seg_start(d.directories@, 0, k) + p] == ino_seq(
            d.directories@[k],
        )[p],
{
    lemma_dirs_seg_index(d.directories@, 0, k, p);
    lemma_seg_start_nonneg(d.directories@, 0, k);
}

/// The resolution-order invariant passes down to every child subtree.
pub proof fn lemma_subtree_ordered(d: Directory, k: int)
    requires
        resolution_ordered(d),
        0 <= k < d.directories@.len(),
    ensures
        resolution_ordered(d.directories@[k]),
{
    let sub = ino_seq(d.directories@[k]);
    assert forall|p: int, q: int| 0 <= p < q < sub.len() implies sub[p] < sub[q] by {
        let s0 = head_len(d) + seg_start(d.directories@, 0, k);
        lemma_seg_start_nonneg(d.directories@, 0, k);
        lemma_subtree_index(d, k, p);
        lemma_subtree_index(d, k, q);
        assert(ino_seq(d)[s0 + p] < ino_seq(d)[s0 + q]);
    }
}

/// In a tree satisfying the resolution-order invariant no two nodes share an
/// ino: any two in-tree nodes carrying the same ino are the same node. A
/// tree violating the invariant is out of contract and gets no such
/// guarantee.
pub proof fn lemma_node_ino_unique(d: Directory, n1: Node, n2: Node)
    requires
        resolution_ordered(d),
        in_tree(d, n1),
        in_tree(d, n2),
        node_meta(n1).ino == node_meta(n2).ino,
    ensures
        n1 == n2,
    decreases d,
{
    let pos1 = lemma_node_position(d, n1);
    let pos2 = lemma_node_position(d, n2);
    if pos1 != pos2 {
        assert(ino_seq(d)[pos1] != ino_seq(d)[pos2]);
    }
    if n1 == Node::Dir(d) || n2 == Node::Dir(d) {
        // both positions are 0, which only the directory itself occupies
    } else if (exists|i: int| 0 <= i < d.files@.len() && n1 == Node::File(d.files@[i])) || (
    exists|i: int| 0 <= i < d.files@.len() && n2 == Node::File(d.files@[i])) {
        // both are files at the same listing position, hence the same file
    } else {
        let k1 = choose|i: int| 0 <= i < d.directories@.len() && in_tree(d.directories@[i], n1);
        let k2 = choose|i: int| 0 <= i < d.directories@.len() && in_tree(d.directories@[i], n2);
        if k1 != k2 {
            if k1 < k2 {
                lemma_seg_start_mono(d.directories@, 0, k1, k2);
            } else {
                lemma_seg_start_mono(d.directories@, 0, k2, k1);
            }
            assert(false);
        }
        lemma_subtree_ordered(d, k1);
        lemma_node_ino_unique(d.directories@[k1], n1, n2);
    }
}

/// A position of the tree's ino listing where the in-tree node `n` has its
/// ino: position 0 for the directory itself, position 1 + i for its file at
/// i, and a position inside subtree k's segment for a node of subtree k.
proof fn lemma_node_position(d: Directory, n: Node) -> (pos: int)
    requires
        in_tree(d, n),
    ensures
        0 <= pos < ino_seq(d).len(),
        ino_seq(d)[pos] == node_meta(n).ino,
        n == Node::Dir(d) ==> pos == 0,
        n != Node::Dir(d) ==> pos >= 1,
        (exists|i: int| 0 <= i < d.files@.len() && n == Node::File(d.files@[i])) ==> pos == 1 + (
        choose|i: int| 0 <= i < d.files@.len() && n == Node::File(d.files@[i])),
        n != Node::Dir(d) && !(exists|i: int|
            0 <= i < d.files@.len() && n == Node::File(d.files@[i])) ==> pos >= head_len(d),
        n != Node::Dir(d) && !(exists|i: int|
            0 <= i < d.files@.len() && n == Node::File(d.files@[i])) ==> ({
            let k = choose|i: int| 0 <= i < d.directories@.len() && in_tree(d.directories@[i], n);
            head_len(d) + seg_start(d.directories@, 0, k) <= pos < head_len(d) + seg_start(
                d.directories@,
                0,
                k,
            ) + ino_seq(d.directories@[k]).len()
        }),
    decreases d,
{
    if n == Node::Dir(d) {
        assert(ino_seq(d)[0] == d.meta.ino);
        0
    } else if exists|i: int| 0 <= i < d.files@.len() && n == Node::File(d.files@[i]) {
        let i = choose|i: int| 0 <= i < d.files@.len() && n == Node::File(d.files@[i]);
        assert(ino_seq(d)[1 + i] == d.files@.map_values(|f: File| f.meta.ino)[i]);
        1 + i
    } else {
        let k = choose|i: int| 0 <= i < d.directories@.len() && in_tree(d.directories@[i], n);
        let p = lemma_node_position(d.directories@[k], n);
        lemma_subtree_index(d, k, p);
        lemma_seg_start_nonneg(d.directories@, 0, k);
        head_len(d) + seg_start(d.directories@, 0, k) + p
    }
}

proof fn lemma_child_root_position(d: Directory, k: int)
    requires
        0 <= k < d.directories@.len(),
    ensures
        head_len(d) <= head_len(d) + seg_start(d.directories@, 0, k) < ino_seq(d).len(),
        ino_seq(d)[head_len(d) + seg_start(d.directories@, 0, k)] == d.directories@[k].meta.ino,
{
    assert(ino_seq(d.directories@[k])[0] == d.directories@[k].meta.ino);
    lemma_subtree_index(d, k, 0);
    lemma_seg_start_nonneg(d.directories@, 0, k);
}

/// Under the resolution-order invariant every file of a directory resolves
/// by its ino, to itself.
pub proof fn lemma_resolve_direct_file(d: Directory, i: int)
    requires
        resolution_ordered(d),
        0 <= i < d.files@.len(),
    ensures
        resolve(d, d.files@[i].meta.ino) == Some(Node::File(d.files@[i])),
{
    assert(ino_seq(d)[0] == d.meta.ino);
    assert(ino_seq(d)[1 + i] == d.files@.map_values(|f: File| f.meta.ino)[i]);
    assert(d.meta.ino < d.files@[i].meta.ino);
    lemma_scan_files_first_hit(d, i, 0);
}

proof fn lemma_scan_files_first_hit(d: Directory, i: int, s: int)
    requires
        resolution_ordered(d),
        0 <= s <= i < d.files@.len(),
    ensures
        scan_files_ino(d.files@, d.files@[i].meta.ino, s) == Some(d.files@[i]),
    decreases i - s,
{
    if s < i {
        assert(ino_seq(d)[1 + s] == d.files@.map_values(|f: File| f.meta.ino)[s]);
        assert(ino_seq(d)[1 + i] == d.files@.map_values(|f: File| f.meta.ino)[i]);
        assert(d.files@[s].meta.ino < d.files@[i].meta.ino);
        lemma_scan_files_first_hit(d, i, s + 1);
    }
}

/// Under the resolution-order invariant every child directory resolves by
/// its own ino, to itself. Only descendants deeper inside the subtrees
/// depend on the descend step.
pub proof fn lemma_resolve_direct_dir(d: Directory, k: int)
    requires
        resolution_ordered(d),
        0 <= k < d.directories@.len(),
    ensures
        resolve(d, d.directories@[k].meta.ino) == Some(Node::Dir(d.directories@[k])),
{
    lemma_child_root_position(d, k);
    assert(ino_seq(d)[0] == d.meta.ino);
    assert(d.meta.ino < d.directories@[k].meta.ino);
    lemma_scan_files_miss_above(d, head_len(d) + seg_start(d.directories@, 0, k), 0);
    lemma_dirs_scan_hits(d, k, 0);
}

proof fn lemma_scan_files_miss_above(d: Directory, pos: int, s: int)
    requires
        resolution_ordered(d),
        head_len(d) <= pos < ino_seq(d).len(),
        0 <= s <= d.files@.len(),
    ensures
        scan_files_ino(d.files@, ino_seq(d)[pos], s) is None,
    decreases d.files@.len() - s,
{
    if s < d.files@.len() {
        assert(ino_seq(d)[1 + s] == d.files@.map_values(|f: File| f.meta.ino)[s]);
        assert(d.files@[s].meta.ino < ino_seq(d)[pos]);
        lemma_scan_files_miss_above(d, pos, s + 1);
    }
}

proof fn lemma_dirs_scan_hits(d: Directory, k: int, m: int)
    requires
        resolution_ordered(d),
        0 <= m <= k < d.directories@.len(),
    ensures
        resolve_in_dirs(d.directories@, d.directories@[k].meta.ino, m) == Some(
            Node::Dir(d.directories@[k]),
        ),
    decreases k - m,
{
    if m < k {
        lemma_child_root_position(d, m);
        lemma_child_root_position(d, k);
        lemma_seg_start_mono(d.directories@, 0, m, k);
        assert(ino_seq(d.directories@[m]).len() >= 1);
        assert(d.directories@[m].meta.ino < d.directories@[k].meta.ino);
        lemma_dirs_scan_hits(d, k, m + 1);
    }
}

/// Every node the scan-and-descend strategy can reach is a node of the tree.
pub proof fn lemma_findable_in_tree(d: Directory, n: Node)
    requires
        findable(d, n),
    ensures
        in_tree(d, n),
    decreases d,
{
    if n == Node::Dir(d) {
    } else if exists|i: int| 0 <= i < d.files@.len() && n == Node::File(d.files@[i]) {
    } else if exists|k: int| 0 <= k < d.directories@.len() && n == Node::Dir(d.directories@[k]) {
        let k = choose|k: int|
            0 <= k < d.directories@.len() && n == Node::Dir(d.directories@[k]);
        assert(in_tree(d.directories@[k], n));
    } else {
        let k = choose|k: int|
            0 <= k && k + 1 < d.directories@.len() && findable(d.directories@[k], n);
        lemma_findable_in_tree(d.directories@[k], n);
    }
}

proof fn lemma_dirs_scan_descends(d: Directory, k: int, p: int, m: int)
    requires
        resolution_ordered(d),
        0 <= m <= k + 1,
        k + 1 < d.directories@.len(),
        0 <= k,
        1 <= p < ino_seq(d.directories@[k]).len(),
    ensures
        resolve_in_dirs(d.directories@, ino_seq(d.directories@[k])[p], m) == resolve(
            d.directories@[k],
            ino_seq(d.directories@[k])[p],
        ),
    decreases k + 1 - m,
{
    let x = ino_seq(d.directories@[k])[p];
    lemma_subtree_index(d, k, p);
    lemma_child_root_position(d, m);
    lemma_child_root_position(d, k);
    lemma_child_root_position(d, k + 1);
    lemma_seg_start_mono(d.directories@, 0, k, k + 1);
    if m <= k {
        if m < k {
            lemma_seg_start_mono(d.directories@, 0, m, k);
            assert(ino_seq(d.directories@[m]).len() >= 1);
        }
        assert(d.directories@[m].meta.ino < x);
        lemma_dirs_scan_descends(d, k, p, m + 1);
    } else {
        assert(d.directories@[m].meta.ino > x);
    }
}

/// Under the resolution-order invariant the resolver finds every node the
/// scan-and-descend strategy can reach: resolving such a node's ino returns
/// exactly that node. Together with the definition of `findable` this pins
/// the strategy's one blind spot — proper descendants of a last sibling.
pub proof fn lemma_resolve_findable(d: Directory, n: Node)
    requires
        resolution_ordered(d),
        findable(d, n),
    ensures
        resolve(d, node_meta(n).ino) == Some(n),
    decreases d,
{
    if n == Node::Dir(d) {
    } else if exists|i: int| 0 <= i < d.files@.len() && n == Node::File(d.files@[i]) {
        let i = choose|i: int| 0 <= i < d.files@.len() && n == Node::File(d.files@[i]);
        lemma_resolve_direct_file(d, i);
    } else if exists|k: int| 0 <= k < d.directories@.len() && n == Node::Dir(d.directories@[k]) {
        let k = choose|k: int|
            0 <= k < d.directories@.len() && n == Node::Dir(d.directories@[k]);
        lemma_resolve_direct_dir(d, k);
    } else {
        let k = choose|k: int|
            0 <= k && k + 1 < d.directories@.len() && findable(d.directories@[k], n);
        let x = node_meta(n).ino;
        lemma_subtree_ordered(d, k);
        lemma_findable_in_tree(d.directories@[k], n);
        let p = lemma_node_position(d.directories@[k], n);
        assert(x == ino_seq(d.directories@[k])[p]);
        lemma_subtree_index(d, k, p);
        lemma_seg_start_nonneg(d.directories@, 0, k);
        assert(ino_seq(d)[0] == d.meta.ino);
        assert(d.meta.ino < x);
        lemma_scan_files_miss_above(d, head_len(d) + seg_start(d.directories@, 0, k) + p, 0);
        lemma_dirs_scan_descends(d, k, p, 0);
        lemma_resolve_findable(d.directories@[k], n);
    }
}

/// Under the resolution-order invariant the resolver never matches more
/// than one node: whatever it returns is the one node of the tree owning
/// the requested ino.
pub proof fn lemma_resolve_canonical(d: Directory, ino: u64, m: Node)
    requires
        resolution_ordered(d),
        resolve(d, ino) is Some,
        in_tree(d, m),
        node_meta(m).ino == ino,
    ensures
        resolve(d, ino) == Some(m),
{
    lemma_resolve_in_tree(d, ino);
    lemma_resolve_ino_matches(d, ino);
    lemma_node_ino_unique(d, resolve(d, ino)->Some_0, m);
}

/// On the seeded tree, ino 1 resolves to the root, ino 2 to its one file,
/// and every other ino to not-found.
pub proof fn lemma_seeded_resolution(
    v: Vault,
    file_time: Timestamp,
    root_time: Timestamp,
    ino: u64,
)
    requires
        is_seeded(v, file_time, root_time),
    ensures
        resolve(v.root, 1) == Some(Node::Dir(v.root)),
        resolve(v.root, 2) == Some(Node::File(v.root.files@[0])),
        ino != 1 && ino != 2 ==> resolve(v.root, ino) is None,
{
    assert(scan_files_ino(v.root.files@, 2, 0) == Some(v.root.files@[0]));
    if ino != 1 && ino != 2 {
        assert(scan_files_ino(v.root.files@, ino, 1) is None);
        assert(scan_files_ino(v.root.files@, ino, 0) is None);
        assert(resolve_in_dirs(v.root.directories@, ino, 0) is None);
    }
}

/// The seeded tree satisfies the resolution-order invariant: its ino listing
/// is exactly [1, 2].
pub proof fn lemma_seeded_ordered(v: Vault, file_time: Timestamp, root_time: Timestamp)
    requires
        is_seeded(v, file_time, root_time),
    ensures
        resolution_ordered(v.root),
        ino_seq(v.root) =~= seq![1u64, 2u64],
{
    assert(dirs_ino_seq(v.root.directories@, 0) == Seq::<u64>::empty());
    assert(v.root.files@.map_values(|f: File| f.meta.ino) =~= seq![2u64]);
}

/// Getattr is idempotent: any two replies that meet its contract for the
/// same tree and the same ino are identical.
pub proof fn lemma_getattr_idempotent(
    v: Vault,
    ino: u64,
    r1: Result<AttrReply, FsError>,
    r2: Result<AttrReply, FsError>,
)
    requires
        r1 == spec_getattr(v, ino),
        r2 == spec_getattr(v, ino),
    ensures
        r1 == r2,
{
}

/// Lookup is idempotent: any two replies that meet its contract for the
/// same tree, parent ino and name are identical.
pub proof fn lemma_lookup_idempotent(
    v: Vault,
    parent: u64,
    name: Seq<char>,
    r1: Result<EntryReply, FsError>,
    r2: Result<EntryReply, FsError>,
)
    requires
        r1 == spec_lookup(v, parent, name),
        r2 == spec_lookup(v, parent, name),
    ensures
        r1 == r2,
{
}

/// Readdir is idempotent: any two listings that meet its contract for the
/// same tree, ino and offset are identical.
pub proof fn lemma_readdir_idempotent(
    v: Vault,
    ino: u64,
    offset: i64,
    r1: Result<Seq<(u64, FileKind, Seq<char>)>, FsError>,
    r2: Result<Seq<(u64, FileKind, Seq<char>)>, FsError>,
)
    requires
        r1 == spec_readdir(v, ino, offset),
        r2 == spec_readdir(v, ino, offset),
    ensures
        r1 == r2,
{
}

} // verus!
