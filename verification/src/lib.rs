//! An in-memory, tree-structured virtual filesystem core: a hierarchy of
//! directories and files addressed by inode number, with the three query
//! operations (lookup, getattr, readdir) that a kernel-facing bridge needs.
//!
//! The tree itself and the resolution logic live here; mounting and the
//! request transport are left to the surrounding program.

pub mod laws;
pub mod ops;
pub mod tree;

pub use ops::AttrReply;
pub use ops::DirEntry;
pub use ops::EntryReply;
pub use ops::FsError;
pub use tree::Directory;
pub use tree::File;
pub use tree::FileKind;
pub use tree::FileOrDir;
pub use tree::Metadata;
pub use tree::Node;
pub use tree::Timestamp;
pub use tree::Vault;
