//! The Nix archive (NAR) format: a tree of filesystem nodes written as a stream of
//! bytes packets. File contents and directories are referenced by digest and
//! looked up in the services the renderer is given.

use crate::digests::{bytes_eq, B3Digest};
use crate::wire::{frame_of, write_bytes};
use vstd::prelude::*;

verus! {

/// The fixed words of the format.
#[derive(Debug, PartialEq, Eq, Clone, Copy)]
pub enum Keyword {
    Magic,
    Open,
    Close,
    Type,
    Symlink,
    Target,
    Regular,
    Executable,
    Contents,
    Directory,
    Entry,
    Name,
    Node,
}

/// The bytes of a keyword.
pub open spec fn keyword_bytes(k: Keyword) -> Seq<u8> {
    match k {
        // "nix-archive-1"
        Keyword::Magic => seq![110u8, 105, 120, 45, 97, 114, 99, 104, 105, 118, 101, 45, 49],
        // "("
        Keyword::Open => seq![40u8],
        // ")"
        Keyword::Close => seq![41u8],
        // "type"
        Keyword::Type => seq![116u8, 121, 112, 101],
        // "symlink"
        Keyword::Symlink => seq![115u8, 121, 109, 108, 105, 110, 107],
        // "target"
        Keyword::Target => seq![116u8, 97, 114, 103, 101, 116],
        // "regular"
        Keyword::Regular => seq![114u8, 101, 103, 117, 108, 97, 114],
        // "executable"
        Keyword::Executable => seq![101u8, 120, 101, 99, 117, 116, 97, 98, 108, 101],
        // "contents"
        Keyword::Contents => seq![99u8, 111, 110, 116, 101, 110, 116, 115],
        // "directory"
        Keyword::Directory => seq![100u8, 105, 114, 101, 99, 116, 111, 114, 121],
        // "entry"
        Keyword::Entry => seq![101u8, 110, 116, 114, 121],
        // "name"
        Keyword::Name => seq![110u8, 97, 109, 101],
        // "node"
        Keyword::Node => seq![110u8, 111, 100, 101],
    }
}

/// The packet of a keyword.
#[verifier::opaque]
pub open spec fn kw(k: Keyword) -> Seq<u8> {
    frame_of(keyword_bytes(k))
}

/// Appends the packet of keyword `k` to `out`.
pub fn write_keyword(out: &mut Vec<u8>, k: Keyword)
    ensures
        final(out)@ == old(out)@ + kw(k),
{
    reveal(kw);
    match k {
        Keyword::Magic => {
            let b: [u8; 13] = [110, 105, 120, 45, 97, 114, 99, 104, 105, 118, 101, 45, 49];
            assert(b@ =~= keyword_bytes(k));
            write_bytes(out, b.as_slice());
        },
        Keyword::Open => {
            let b: [u8; 1] = [40];
            assert(b@ =~= keyword_bytes(k));
            write_bytes(out, b.as_slice());
        },
        Keyword::Close => {
            let b: [u8; 1] = [41];
            assert(b@ =~= keyword_bytes(k));
            write_bytes(out, b.as_slice());
        },
        Keyword::Type => {
            let b: [u8; 4] = [116, 121, 112, 101];
            assert(b@ =~= keyword_bytes(k));
            write_bytes(out, b.as_slice());
        },
        Keyword::Symlink => {
            let b: [u8; 7] = [115, 121, 109, 108, 105, 110, 107];
            assert(b@ =~= keyword_bytes(k));
            write_bytes(out, b.as_slice());
        },
        Keyword::Target => {
            let b: [u8; 6] = [116, 97, 114, 103, 101, 116];
            assert(b@ =~= keyword_bytes(k));
            write_bytes(out, b.as_slice());
        },
        Keyword::Regular => {
            let b: [u8; 7] = [114, 101, 103, 117, 108, 97, 114];
            assert(b@ =~= keyword_bytes(k));
            write_bytes(out, b.as_slice());
        },
        Keyword::Executable => {
            let b: [u8; 10] = [101, 120, 101, 99, 117, 116, 97, 98, 108, 101];
            assert(b@ =~= keyword_bytes(k));
            write_bytes(out, b.as_slice());
        },
        Keyword::Contents => {
            let b: [u8; 8] = [99, 111, 110, 116, 101, 110, 116, 115];
            assert(b@ =~= keyword_bytes(k));
            write_bytes(out, b.as_slice());
        },
        Keyword::Directory => {
            let b: [u8; 9] = [100, 105, 114, 101, 99, 116, 111, 114, 121];
            assert(b@ =~= keyword_bytes(k));
            write_bytes(out, b.as_slice());
        },
        Keyword::Entry => {
            let b: [u8; 5] = [101, 110, 116, 114, 121];
            assert(b@ =~= keyword_bytes(k));
            write_bytes(out, b.as_slice());
        },
        Keyword::Name => {
            let b: [u8; 4] = [110, 97, 109, 101];
            assert(b@ =~= keyword_bytes(k));
            write_bytes(out, b.as_slice());
        },
        Keyword::Node => {
            let b: [u8; 4] = [110, 111, 100, 101];
            assert(b@ =~= keyword_bytes(k));
            write_bytes(out, b.as_slice());
        },
    }
}

/// Strict lexicographic order of byte strings.
pub open spec fn lex_lt(a: Seq<u8>, b: Seq<u8>) -> bool
    decreases a.len(),
{
    if a.len() == 0 {
        b.len() > 0
    } else if b.len() == 0 {
        false
    } else if a[0] != b[0] {
        a[0] < b[0]
    } else {
        lex_lt(a.drop_first(), b.drop_first())
    }
}

/// Whether `a` comes strictly before `b` in lexicographic byte order.
pub fn name_lt(a: &[u8], b: &[u8]) -> (r: bool)
    ensures
        r == lex_lt(a@, b@),
{
    let mut i: usize = 0;
    assert(a@.skip(0) =~= a@);
    assert(b@.skip(0) =~= b@);
    while i < a.len() && i < b.len()
        invariant
            i <= a@.len(),
            i <= b@.len(),
            lex_lt(a@, b@) == lex_lt(a@.skip(i as int), b@.skip(i as int)),
        decreases a@.len() - i,
    {
        if a[i] != b[i] {
            return a[i] < b[i];
        }
        assert(a@.skip(i as int).drop_first() =~= a@.skip(i + 1));
        assert(b@.skip(i as int).drop_first() =~= b@.skip(i + 1));
        i = i + 1;
    }
    i < b.len()
}

/// A symbolic link.
pub struct SymlinkNode {
    pub name: Vec<u8>,
    pub target: Vec<u8>,
}

/// A regular file, whose contents are the blob with this digest.
pub struct FileNode {
    pub name: Vec<u8>,
    pub digest: B3Digest,
    pub size: u64,
    pub executable: bool,
}

/// A directory, whose listing is the directory with this digest.
pub struct DirectoryNode {
    pub name: Vec<u8>,
    pub digest: B3Digest,
    pub size: u64,
}

/// One node of a filesystem tree.
pub enum Node {
    Directory(DirectoryNode),
    File(FileNode),
    Symlink(SymlinkNode),
}

impl Node {
    pub open spec fn name_spec(&self) -> Seq<u8> {
        match self {
            Node::Directory(n) => n.name@,
            Node::File(n) => n.name@,
            Node::Symlink(n) => n.name@,
        }
    }

    pub fn name(&self) -> (r: &Vec<u8>)
        ensures
            r@ == self.name_spec(),
    {
        match self {
            Node::Directory(n) => &n.name,
            Node::File(n) => &n.name,
            Node::Symlink(n) => &n.name,
        }
    }
}

/// The listing of a directory: its children, in lexicographic order of their
/// names.
pub struct Directory {
    pub entries: Vec<Node>,
}

/// Why an archive could not be rendered.
#[derive(Debug)]
pub enum RenderError {
    /// No blob with this digest is known.
    BlobNotFound(B3Digest),
    /// The blob with this digest has another length than the node declares:
    /// digest, declared size, actual size.
    SizeMismatch(B3Digest, u64, u64),
    /// No directory with this digest is known.
    DirectoryNotFound(B3Digest),
    /// Directories nest deeper than there are directories: they refer to each
    /// other in a cycle. Carries the digest at which the walk stopped.
    DirectoryCycle(B3Digest),
    /// Two children of a directory have this name.
    DuplicateEntry(Vec<u8>),
    /// A child of a directory, with this name, comes after a child whose name
    /// sorts after it.
    UnsortedEntry(Vec<u8>),
}

/// A `RenderError` in the terms of the contracts.
pub enum RenderFault {
    BlobNotFound(Seq<u8>),
    SizeMismatch(Seq<u8>, u64, u64),
    DirectoryNotFound(Seq<u8>),
    DirectoryCycle(Seq<u8>),
    DuplicateEntry(Seq<u8>),
    UnsortedEntry(Seq<u8>),
}

impl View for RenderError {
    type V = RenderFault;

    open spec fn view(&self) -> RenderFault {
        match self {
            RenderError::BlobNotFound(d) => RenderFault::BlobNotFound(d@),
            RenderError::SizeMismatch(d, declared, actual) => RenderFault::SizeMismatch(
                d@,
                *declared,
                *actual,
            ),
            RenderError::DirectoryNotFound(d) => RenderFault::DirectoryNotFound(d@),
            RenderError::DirectoryCycle(d) => RenderFault::DirectoryCycle(d@),
            RenderError::DuplicateEntry(n) => RenderFault::DuplicateEntry(n@),
            RenderError::UnsortedEntry(n) => RenderFault::UnsortedEntry(n@),
        }
    }
}

/// The index of the last key equal to `d`.
pub open spec fn find_key(keys: Seq<B3Digest>, d: Seq<u8>) -> Option<int>
    decreases keys.len(),
{
    if keys.len() == 0 {
        None
    } else if keys.last()@ == d {
        Some(keys.len() - 1)
    } else {
        find_key(keys.drop_last(), d)
    }
}

proof fn lemma_find_key_in_range(keys: Seq<B3Digest>, d: Seq<u8>)
    ensures
        find_key(keys, d) matches Some(i) ==> 0 <= i < keys.len() && keys[i]@ == d,
    decreases keys.len(),
{
    if keys.len() > 0 && keys.last()@ != d {
        lemma_find_key_in_range(keys.drop_last(), d);
    }
}

/// Looks up `d` among `keys`, as `find_key` says.
fn find_key_exec(keys: &Vec<B3Digest>, d: &B3Digest) -> (r: Option<usize>)
    ensures
        r matches Some(i) ==> find_key(keys@, d@) == Some(i as int),
        r is None ==> find_key(keys@, d@) is None,
{
    let mut i: usize = keys.len();
    assert(keys@.take(i as int) =~= keys@);
    while i > 0
        invariant
            i <= keys@.len(),
            find_key(keys@, d@) == find_key(keys@.take(i as int), d@),
        decreases i,
    {
        assert(keys@.take(i as int).drop_last() =~= keys@.take(i - 1));
        if keys[i - 1] == *d {
            return Some(i - 1);
        }
        i = i - 1;
    }
    None
}

/// Blobs, by digest.
pub struct BlobService {
    digests: Vec<B3Digest>,
    contents: Vec<Vec<u8>>,
}

impl BlobService {
    pub closed spec fn wf(&self) -> bool {
        self.digests@.len() == self.contents@.len()
    }

    /// The blob stored under `d`.
    pub closed spec fn lookup(&self, d: Seq<u8>) -> Option<Seq<u8>> {
        match find_key(self.digests@, d) {
            Some(i) => Some(self.contents@[i]@),
            None => None,
        }
    }

    pub fn new() -> (r: BlobService)
        ensures
            r.wf(),
            forall|d: Seq<u8>| #[trigger] r.lookup(d) is None,
    {
        BlobService { digests: Vec::new(), contents: Vec::new() }
    }

    /// Stores `contents` under `digest`, replacing what was stored there.
    pub fn put(&mut self, digest: B3Digest, contents: Vec<u8>)
        requires
            old(self).wf(),
        ensures
            final(self).wf(),
            final(self).lookup(digest@) == Some(contents@),
            forall|d: Seq<u8>| d != digest@ ==> #[trigger] final(self).lookup(d) == old(self).lookup(d),
    {
        self.digests.push(digest);
        self.contents.push(contents);
        assert(self.digests@.drop_last() =~= old(self).digests@);
        assert forall|d: Seq<u8>| d != digest@ implies #[trigger] self.lookup(d) == old(self).lookup(
            d,
        ) by {
            lemma_find_key_in_range(old(self).digests@, d);
        }
    }

    /// The blob stored under `digest`.
    pub fn get(&self, digest: &B3Digest) -> (r: Option<&Vec<u8>>)
        requires
            self.wf(),
        ensures
            r matches Some(c) ==> self.lookup(digest@) == Some(c@),
            r is None ==> self.lookup(digest@) is None,
    {
        proof {
            lemma_find_key_in_range(self.digests@, digest@);
        }
        match find_key_exec(&self.digests, digest) {
            Some(i) => Some(&self.contents[i]),
            None => None,
        }
    }
}

/// Directory listings, by digest.
pub struct DirectoryService {
    digests: Vec<B3Digest>,
    directories: Vec<Directory>,
}

impl DirectoryService {
    pub closed spec fn wf(&self) -> bool {
        self.digests@.len() == self.directories@.len()
    }

    /// The number of listings stored, which bounds how deep directories nest.
    pub closed spec fn count(&self) -> nat {
        self.digests@.len()
    }

    /// The listing stored under `d`.
    pub closed spec fn lookup(&self, d: Seq<u8>) -> Option<Directory> {
        match find_key(self.digests@, d) {
            Some(i) => Some(self.directories@[i]),
            None => None,
        }
    }

    pub fn new() -> (r: DirectoryService)
        ensures
            r.wf(),
            r.count() == 0,
            forall|d: Seq<u8>| #[trigger] r.lookup(d) is None,
    {
        DirectoryService { digests: Vec::new(), directories: Vec::new() }
    }

    /// Stores `directory` under `digest`, replacing what was stored there.
    pub fn put(&mut self, digest: B3Digest, directory: Directory)
        requires
            old(self).wf(),
        ensures
            final(self).wf(),
            final(self).count() == old(self).count() + 1,
            final(self).lookup(digest@) == Some(directory),
            forall|d: Seq<u8>| d != digest@ ==> #[trigger] final(self).lookup(d) == old(self).lookup(d),
    {
        self.digests.push(digest);
        self.directories.push(directory);
        assert(self.digests@.drop_last() =~= old(self).digests@);
        assert forall|d: Seq<u8>| d != digest@ implies #[trigger] self.lookup(d) == old(self).lookup(
            d,
        ) by {
            lemma_find_key_in_range(old(self).digests@, d);
        }
    }

    /// The number of listings stored.
    pub fn get_count(&self) -> (r: usize)
        ensures
            r == self.count(),
    {
        self.digests.len()
    }

    /// The listing stored under `digest`.
    pub fn get(&self, digest: &B3Digest) -> (r: Option<&Directory>)
        requires
            self.wf(),
        ensures
            r matches Some(c) ==> self.lookup(digest@) == Some(*c),
            r is None ==> self.lookup(digest@) is None,
    {
        proof {
            lemma_find_key_in_range(self.digests@, digest@);
        }
        match find_key_exec(&self.digests, digest) {
            Some(i) => Some(&self.directories[i]),
            None => None,
        }
    }
}

/// `acc` followed by what `rest` gives, or the error of `rest`.
pub open spec fn prepend(acc: Seq<u8>, rest: Result<Seq<u8>, RenderFault>) -> Result<
    Seq<u8>,
    RenderFault,
> {
    match rest {
        Ok(s) => Ok(acc + s),
        Err(f) => Err(f),
    }
}

/// The packets of a symbolic link to `target`.
pub open spec fn symlink_packets(target: Seq<u8>) -> Seq<u8> {
    kw(Keyword::Open) + kw(Keyword::Type) + kw(Keyword::Symlink) + kw(Keyword::Target) + frame_of(
        target,
    ) + kw(Keyword::Close)
}

/// The packets of a regular file.
pub open spec fn file_packets(executable: bool, contents: Seq<u8>) -> Seq<u8> {
    kw(Keyword::Open) + kw(Keyword::Type) + kw(Keyword::Regular) + (if executable {
        kw(Keyword::Executable) + frame_of(Seq::<u8>::empty())
    } else {
        Seq::<u8>::empty()
    }) + kw(Keyword::Contents) + frame_of(contents) + kw(Keyword::Close)
}

/// The packets that open a directory.
pub open spec fn directory_head() -> Seq<u8> {
    kw(Keyword::Open) + kw(Keyword::Type) + kw(Keyword::Directory)
}

/// The packets that open a directory entry named `name`.
pub open spec fn entry_head(name: Seq<u8>) -> Seq<u8> {
    kw(Keyword::Entry) + kw(Keyword::Open) + kw(Keyword::Name) + frame_of(name) + kw(Keyword::Node)
}

/// The packets of one directory entry whose node renders as `node`.
pub open spec fn entry_packets(name: Seq<u8>, node: Seq<u8>) -> Seq<u8> {
    entry_head(name) + node + kw(Keyword::Close)
}

proof fn lemma_assoc(a: Seq<u8>, b: Seq<u8>, c: Seq<u8>)
    ensures
        (a + b) + c == a + (b + c),
{
    assert((a + b) + c =~= a + (b + c));
}

/// Appends the packets of a symbolic link to `target`.
fn write_symlink_packets(out: &mut Vec<u8>, target: &[u8])
    ensures
        final(out)@ == old(out)@ + symlink_packets(target@),
{
    let ghost start = out@;
    write_keyword(out, Keyword::Open);
    write_keyword(out, Keyword::Type);
    proof { lemma_assoc(start, kw(Keyword::Open), kw(Keyword::Type)); }
    let ghost acc = kw(Keyword::Open) + kw(Keyword::Type);
    write_keyword(out, Keyword::Symlink);
    proof { lemma_assoc(start, acc, kw(Keyword::Symlink)); }
    let ghost acc = acc + kw(Keyword::Symlink);
    write_keyword(out, Keyword::Target);
    proof { lemma_assoc(start, acc, kw(Keyword::Target)); }
    let ghost acc = acc + kw(Keyword::Target);
    write_bytes(out, target);
    proof { lemma_assoc(start, acc, frame_of(target@)); }
    let ghost acc = acc + frame_of(target@);
    write_keyword(out, Keyword::Close);
    proof { lemma_assoc(start, acc, kw(Keyword::Close)); }
}

/// Appends the packets of a regular file.
fn write_file_packets(out: &mut Vec<u8>, executable: bool, contents: &[u8])
    ensures
        final(out)@ == old(out)@ + file_packets(executable, contents@),
{
    let ghost start = out@;
    write_keyword(out, Keyword::Open);
    write_keyword(out, Keyword::Type);
    proof { lemma_assoc(start, kw(Keyword::Open), kw(Keyword::Type)); }
    let ghost acc = kw(Keyword::Open) + kw(Keyword::Type);
    write_keyword(out, Keyword::Regular);
    proof { lemma_assoc(start, acc, kw(Keyword::Regular)); }
    let ghost acc = acc + kw(Keyword::Regular);
    let ghost flag = if executable {
        kw(Keyword::Executable) + frame_of(Seq::<u8>::empty())
    } else {
        Seq::<u8>::empty()
    };
    if executable {
        write_keyword(out, Keyword::Executable);
        let empty: Vec<u8> = Vec::new();
        write_bytes(out, empty.as_slice());
        proof { lemma_assoc(start + acc, kw(Keyword::Executable), frame_of(Seq::<u8>::empty())); }
    } else {
        assert(out@ =~= out@ + flag);
    }
    proof { lemma_assoc(start, acc, flag); }
    let ghost acc = acc + flag;
    write_keyword(out, Keyword::Contents);
    proof { lemma_assoc(start, acc, kw(Keyword::Contents)); }
    let ghost acc = acc + kw(Keyword::Contents);
    write_bytes(out, contents);
    proof { lemma_assoc(start, acc, frame_of(contents@)); }
    let ghost acc = acc + frame_of(contents@);
    write_keyword(out, Keyword::Close);
    proof { lemma_assoc(start, acc, kw(Keyword::Close)); }
}

/// Appends the packets that open a directory.
fn write_directory_head(out: &mut Vec<u8>)
    ensures
        final(out)@ == old(out)@ + directory_head(),
{
    let ghost start = out@;
    write_keyword(out, Keyword::Open);
    write_keyword(out, Keyword::Type);
    proof { lemma_assoc(start, kw(Keyword::Open), kw(Keyword::Type)); }
    let ghost acc = kw(Keyword::Open) + kw(Keyword::Type);
    write_keyword(out, Keyword::Directory);
    proof { lemma_assoc(start, acc, kw(Keyword::Directory)); }
}

/// Appends the packets that open a directory entry named `name`.
fn write_entry_head(out: &mut Vec<u8>, name: &[u8])
    ensures
        final(out)@ == old(out)@ + entry_head(name@),
{
    let ghost start = out@;
    write_keyword(out, Keyword::Entry);
    write_keyword(out, Keyword::Open);
    proof { lemma_assoc(start, kw(Keyword::Entry), kw(Keyword::Open)); }
    let ghost acc = kw(Keyword::Entry) + kw(Keyword::Open);
    write_keyword(out, Keyword::Name);
    proof { lemma_assoc(start, acc, kw(Keyword::Name)); }
    let ghost acc = acc + kw(Keyword::Name);
    write_bytes(out, name);
    proof { lemma_assoc(start, acc, frame_of(name@)); }
    let ghost acc = acc + frame_of(name@);
    write_keyword(out, Keyword::Node);
    proof { lemma_assoc(start, acc, kw(Keyword::Node)); }
}

/// Renders nodes as NAR, looking up blobs and directories in the services.
pub struct NARRenderer {
    pub blob_service: BlobService,
    pub directory_service: DirectoryService,
}

impl NARRenderer {
    pub open spec fn wf(&self) -> bool {
        self.blob_service.wf() && self.directory_service.wf()
    }

    /// What `node` renders as, where directories may nest `depth` levels below it.
    pub open spec fn node_nar(&self, node: Node, depth: nat) -> Result<Seq<u8>, RenderFault>
        decreases depth, 0nat, 0nat,
    {
        match node {
            Node::Symlink(n) => Ok(symlink_packets(n.target@)),
            Node::File(n) => match self.blob_service.lookup(n.digest@) {
                None => Err(RenderFault::BlobNotFound(n.digest@)),
                Some(c) => if c.len() != n.size {
                    Err(RenderFault::SizeMismatch(n.digest@, n.size, c.len() as u64))
                } else {
                    Ok(file_packets(n.executable, c))
                },
            },
            Node::Directory(n) => match self.directory_service.lookup(n.digest@) {
                None => Err(RenderFault::DirectoryNotFound(n.digest@)),
                Some(dir) => if depth == 0 {
                    Err(RenderFault::DirectoryCycle(n.digest@))
                } else {
                    prepend(
                        directory_head(),
                        prepend_to_close(self.entries_nar(dir.entries@, (depth - 1) as nat, 0)),
                    )
                },
            },
        }
    }

    /// What the entries from index `k` on render as, where directories may nest
    /// `depth` levels below them.
    pub open spec fn entries_nar(&self, entries: Seq<Node>, depth: nat, k: int) -> Result<
        Seq<u8>,
        RenderFault,
    >
        decreases depth, 1nat, entries.len() - k,
    {
        if k < 0 || k >= entries.len() {
            Ok(Seq::<u8>::empty())
        } else if k > 0 && entries[k - 1].name_spec() == entries[k].name_spec() {
            Err(RenderFault::DuplicateEntry(entries[k].name_spec()))
        } else if k > 0 && !lex_lt(entries[k - 1].name_spec(), entries[k].name_spec()) {
            Err(RenderFault::UnsortedEntry(entries[k].name_spec()))
        } else {
            match self.node_nar(entries[k], depth) {
                Err(f) => Err(f),
                Ok(body) => prepend(
                    entry_packets(entries[k].name_spec(), body),
                    self.entries_nar(entries, depth, k + 1),
                ),
            }
        }
    }

    /// The whole archive of `node`.
    pub open spec fn nar(&self, node: Node) -> Result<Seq<u8>, RenderFault> {
        prepend(kw(Keyword::Magic), self.node_nar(node, self.directory_service.count()))
    }
}

proof fn lemma_prepend_assoc(a: Seq<u8>, b: Seq<u8>, r: Result<Seq<u8>, RenderFault>)
    ensures
        prepend(a, prepend(b, r)) == prepend(a + b, r),
{
    if let Ok(s) = r {
        assert((a + b) + s =~= a + (b + s));
    }
}

impl NARRenderer {
    pub fn new(blob_service: BlobService, directory_service: DirectoryService) -> (r: Self)
        ensures
            r.blob_service == blob_service,
            r.directory_service == directory_service,
    {
        NARRenderer { blob_service, directory_service }
    }

    /// Appends the archive of `node` to `out`, packet by packet. On an error the
    /// packets before it have been appended.
    pub fn write_nar(&self, out: &mut Vec<u8>, node: &Node) -> (r: Result<(), RenderError>)
        requires
            self.wf(),
        ensures
            self.nar(*node) matches Ok(b) ==> r is Ok && final(out)@ == old(out)@ + b,
            self.nar(*node) matches Err(f) ==> (r matches Err(e) && e@ == f),
    {
        let ghost start = out@;
        write_keyword(out, Keyword::Magic);
        let depth = self.directory_service.get_count();
        let ghost mid = out@;
        let r = self.emit_node(out, node, depth);
        proof {
            if let Ok(b) = self.node_nar(*node, depth as nat) {
                assert(out@ =~= start + (kw(Keyword::Magic) + b));
            }
        }
        r
    }

    /// Appends what `node` renders as to `out`.
    fn emit_node(&self, out: &mut Vec<u8>, node: &Node, depth: usize) -> (r: Result<(), RenderError>)
        requires
            self.wf(),
        ensures
            self.node_nar(*node, depth as nat) matches Ok(b) ==> r is Ok && final(out)@ == old(out)@ + b,
            self.node_nar(*node, depth as nat) matches Err(f) ==> (r matches Err(e) && e@ == f),
        decreases depth, 0nat, 0nat,
    {
        let ghost start = out@;
        match node {
            Node::Symlink(n) => {
                write_symlink_packets(out, n.target.as_slice());
                Ok(())
            },
            Node::File(n) => {
                let contents = match self.blob_service.get(&n.digest) {
                    Some(c) => c,
                    None => return Err(RenderError::BlobNotFound(n.digest.clone())),
                };
                if contents.len() as u64 != n.size {
                    return Err(
                        RenderError::SizeMismatch(n.digest.clone(), n.size, contents.len() as u64),
                    );
                }
                write_file_packets(out, n.executable, contents.as_slice());
                Ok(())
            },
            Node::Directory(n) => {
                let dir = match self.directory_service.get(&n.digest) {
                    Some(d) => d,
                    None => return Err(RenderError::DirectoryNotFound(n.digest.clone())),
                };
                if depth == 0 {
                    return Err(RenderError::DirectoryCycle(n.digest.clone()));
                }
                write_directory_head(out);
                let r = self.emit_entries(out, &dir.entries, depth - 1);
                if let Err(e) = r {
                    return Err(e);
                }
                let ghost b = self.entries_nar(dir.entries@, (depth - 1) as nat, 0)->Ok_0;
                write_keyword(out, Keyword::Close);
                proof {
                    lemma_assoc(start, directory_head(), b);
                    lemma_assoc(start, directory_head() + b, kw(Keyword::Close));
                    lemma_assoc(directory_head(), b, kw(Keyword::Close));
                }
                Ok(())
            },
        }
    }

    /// Appends what `entries` render as to `out`, checking their order on the way.
    fn emit_entries(&self, out: &mut Vec<u8>, entries: &Vec<Node>, depth: usize) -> (r: Result<
        (),
        RenderError,
    >)
        requires
            self.wf(),
        ensures
            self.entries_nar(entries@, depth as nat, 0) matches Ok(b) ==> r is Ok && final(out)@ == old(
                out,
            )@ + b,
            self.entries_nar(entries@, depth as nat, 0) matches Err(f) ==> (r matches Err(e) && e@
                == f),
        decreases depth, 1nat, 0nat,
    {
        let ghost start = out@;
        let ghost mut acc = Seq::<u8>::empty();
        let mut k: usize = 0;
        proof {
            assert(prepend(acc, self.entries_nar(entries@, depth as nat, 0)) == self.entries_nar(
                entries@,
                depth as nat,
                0,
            )) by {
                if let Ok(s) = self.entries_nar(entries@, depth as nat, 0) {
                    assert(acc + s =~= s);
                }
            }
        }
        while k < entries.len()
            invariant
                self.wf(),
                k <= entries@.len(),
                out@ == start + acc,
                self.entries_nar(entries@, depth as nat, 0) == prepend(
                    acc,
                    self.entries_nar(entries@, depth as nat, k as int),
                ),
            decreases entries@.len() - k,
        {
            let name = entries[k].name();
            if k > 0 {
                let prev = entries[k - 1].name();
                if bytes_eq(prev.as_slice(), name.as_slice()) {
                    return Err(RenderError::DuplicateEntry(name.clone()));
                }
                if !name_lt(prev.as_slice(), name.as_slice()) {
                    return Err(RenderError::UnsortedEntry(name.clone()));
                }
            }
            let ghost before = out@;
            write_entry_head(out, name.as_slice());
            let r = self.emit_node(out, &entries[k], depth);
            if let Err(e) = r {
                return Err(e);
            }
            let ghost b = self.node_nar(entries@[k as int], depth as nat)->Ok_0;
            write_keyword(out, Keyword::Close);
            proof {
                let head = entry_head(name@);
                lemma_assoc(before, head, b);
                lemma_assoc(before, head + b, kw(Keyword::Close));
                let piece = entry_packets(name@, b);
                lemma_assoc(start, acc, piece);
                lemma_prepend_assoc(acc, piece, self.entries_nar(entries@, depth as nat, k + 1));
                acc = acc + piece;
            }
            k = k + 1;
        }
        proof {
            assert(acc + Seq::<u8>::empty() =~= acc);
        }
        Ok(())
    }
}

/// What `r` gives, followed by the closing packet.
pub open spec fn prepend_to_close(r: Result<Seq<u8>, RenderFault>) -> Result<Seq<u8>, RenderFault> {
    match r {
        Ok(s) => Ok(s + kw(Keyword::Close)),
        Err(f) => Err(f),
    }
}

} // verus!
