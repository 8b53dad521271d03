//! What the filesystem projection keeps about each inode.

use crate::digests::B3Digest;
use crate::nar::Node;
use vstd::prelude::*;

verus! {

/// The file-type bits of a regular file.
pub open spec fn mode_reg() -> u32 {
    0o100000
}

/// The file-type bits of a symbolic link.
pub open spec fn mode_lnk() -> u32 {
    0o120000
}

/// The file-type bits of a directory.
pub open spec fn mode_dir() -> u32 {
    0o040000
}

/// Relies on libc::S_IFREG, the file-type bits of a regular file.
#[verifier::external_body]
fn s_ifreg() -> (r: u32)
    ensures
        r == mode_reg(),
{
    libc::S_IFREG
}

/// Relies on libc::S_IFLNK, the file-type bits of a symbolic link.
#[verifier::external_body]
fn s_iflnk() -> (r: u32)
    ensures
        r == mode_lnk(),
{
    libc::S_IFLNK
}

/// Relies on libc::S_IFDIR, the file-type bits of a directory.
#[verifier::external_body]
fn s_ifdir() -> (r: u32)
    ensures
        r == mode_dir(),
{
    libc::S_IFDIR
}

/// The data of an inode.
pub enum InodeData {
    /// digest, size, executable
    Regular(B3Digest, u64, bool),
    /// target
    Symlink(Vec<u8>),
    Directory(DirectoryInodeData),
}

/// The two states of a directory inode: only its node has been seen (`Sparse`),
/// or its listing has been fetched (`Populated`, with each child's inode number).
pub enum DirectoryInodeData {
    /// digest, size
    Sparse(B3Digest, u64),
    /// digest, children
    Populated(B3Digest, Vec<(u64, Node)>),
}

impl InodeData {
    /// Makes the inode data of `node`, splitting off its name.
    pub fn from_node(node: Node) -> (r: (InodeData, Vec<u8>))
        ensures
            r.1@ == node.name_spec(),
            match node {
                Node::Directory(n) => r.0 matches InodeData::Directory(DirectoryInodeData::Sparse(
                    d,
                    size,
                )) && d == n.digest && size == n.size,
                Node::File(n) => r.0 matches InodeData::Regular(d, size, exec) && d == n.digest
                    && size == n.size && exec == n.executable,
                Node::Symlink(n) => r.0 matches InodeData::Symlink(t) && t == n.target,
            },
    {
        match node {
            Node::Directory(n) => (
                InodeData::Directory(DirectoryInodeData::Sparse(n.digest, n.size)),
                n.name,
            ),
            Node::File(n) => (InodeData::Regular(n.digest, n.size, n.executable), n.name),
            Node::Symlink(n) => (InodeData::Symlink(n.target), n.name),
        }
    }

    /// The size the filesystem reports: the file's size, the length of the link's
    /// target, the directory's size or number of children.
    pub fn fuse_size(&self) -> (r: u64)
        ensures
            r == match self {
                InodeData::Regular(_, size, _) => *size,
                InodeData::Symlink(target) => target@.len() as u64,
                InodeData::Directory(DirectoryInodeData::Sparse(_, size)) => *size,
                InodeData::Directory(DirectoryInodeData::Populated(_, children)) => children@.len() as u64,
            },
    {
        match self {
            InodeData::Regular(_, size, _) => *size,
            InodeData::Symlink(target) => target.len() as u64,
            InodeData::Directory(DirectoryInodeData::Sparse(_, size)) => *size,
            InodeData::Directory(DirectoryInodeData::Populated(_, children)) => children.len() as u64,
        }
    }

    /// The mode the filesystem reports: read-only for everyone, executable where
    /// the file is and for directories.
    pub fn fuse_mode(&self) -> (r: u32)
        ensures
            r == match self {
                InodeData::Regular(_, _, false) => mode_reg() | 0o444,
                InodeData::Regular(_, _, true) => mode_reg() | 0o555,
                InodeData::Symlink(_) => mode_lnk() | 0o444,
                InodeData::Directory(_) => mode_dir() | 0o555,
            },
    {
        match self {
            InodeData::Regular(_, _, false) => s_ifreg() | 0o444,
            InodeData::Regular(_, _, true) => s_ifreg() | 0o555,
            InodeData::Symlink(_) => s_iflnk() | 0o444,
            InodeData::Directory(_) => s_ifdir() | 0o555,
        }
    }

    /// The file-type bits of the inode.
    pub fn as_fuse_type(&self) -> (r: u32)
        ensures
            r == match self {
                InodeData::Regular(_, _, _) => mode_reg(),
                InodeData::Symlink(_) => mode_lnk(),
                InodeData::Directory(_) => mode_dir(),
            },
    {
        match self {
            InodeData::Regular(_, _, _) => s_ifreg(),
            InodeData::Symlink(_) => s_iflnk(),
            InodeData::Directory(_) => s_ifdir(),
        }
    }
}

} // verus!
