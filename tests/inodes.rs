use tvix_wire::digests::B3Digest;
use tvix_wire::inodes::{DirectoryInodeData, InodeData};
use tvix_wire::nar::{DirectoryNode, FileNode, Node, SymlinkNode};

#[test]
fn from_node_splits_off_name() {
    let (data, name) = InodeData::from_node(Node::File(FileNode {
        name: b"f".to_vec(),
        digest: B3Digest::from_array(&[1; 32]),
        size: 12,
        executable: true,
    }));
    assert_eq!(name, b"f".to_vec());
    assert!(matches!(data, InodeData::Regular(_, 12, true)));
    assert_eq!(data.fuse_size(), 12);
    assert_eq!(data.fuse_mode(), 0o100555);
    assert_eq!(data.as_fuse_type(), 0o100000);
}

#[test]
fn symlink_and_directory_attrs() {
    let (link, name) = InodeData::from_node(Node::Symlink(SymlinkNode {
        name: b"l".to_vec(),
        target: b"/nix/store/x".to_vec(),
    }));
    assert_eq!(name, b"l".to_vec());
    assert_eq!(link.fuse_size(), 12);
    assert_eq!(link.fuse_mode(), 0o120444);
    assert_eq!(link.as_fuse_type(), 0o120000);

    let (dir, _) = InodeData::from_node(Node::Directory(DirectoryNode {
        name: b"d".to_vec(),
        digest: B3Digest::from_array(&[2; 32]),
        size: 3,
    }));
    assert!(matches!(dir, InodeData::Directory(DirectoryInodeData::Sparse(_, 3))));
    assert_eq!(dir.fuse_size(), 3);
    assert_eq!(dir.fuse_mode(), 0o040555);
    assert_eq!(dir.as_fuse_type(), 0o040000);

    let plain = InodeData::Regular(B3Digest::from_array(&[3; 32]), 0, false);
    assert_eq!(plain.fuse_mode(), 0o100444);
}
