//! The virtual filesystem boundary: a single `open` capability returning a
//! handle plus metadata, modelled as a map from sanitized path segments to
//! filesystem nodes; and the in-memory backend, a pure lookup.
//!
//! A blocking or asynchronous backend lives outside this crate and
//! implements the same `FileOpener` capability.

use vstd::prelude::*;
use vstd::string::StringSliceAdditionalSpecFns;

verus! {

/// A file modification time: seconds and nanoseconds since the Unix epoch.
#[derive(Clone, Copy, Debug, PartialEq, Eq, Structural)]
pub struct Timespec {
    /// Whole seconds since the epoch.
    pub secs: u64,
    /// Sub-second part, in nanoseconds.
    pub nanos: u32,
}

/// Why an `open` failed. `NotFound` and `PermissionDenied` are ordinary
/// outcomes of resolution; `Other` is a fatal error for the one request.
#[derive(Clone, Copy, Debug, PartialEq, Eq, Structural)]
pub enum VfsError {
    /// The path names no node.
    NotFound,
    /// The node exists but refuses access.
    PermissionDenied,
    /// An unexpected failure, to be answered with a generic server error.
    Other,
}

/// An open file handle together with the metadata resolution needs.
pub struct FileWithMetadata<F> {
    /// Open file handle.
    pub handle: F,
    /// Size in bytes.
    pub size: u64,
    /// Last modification time, if the backend knows one.
    pub modified: Option<Timespec>,
    /// Whether this node is a directory.
    pub is_dir: bool,
}

/// Ghost description of one filesystem node that can be opened.
pub ghost struct FsEntry {
    /// The bytes a handle for this node reads.
    pub content: Seq<u8>,
    /// Last modification time.
    pub modified: Option<Timespec>,
    /// Whether the node is a directory.
    pub is_dir: bool,
}

/// Ghost description of what a path names.
pub ghost enum FsNode {
    /// A node that exists but refuses access.
    Denied,
    /// An openable node.
    Node(FsEntry),
}

/// The capability resolution needs from a filesystem: open a sanitized path
/// and report the handle with its metadata.
///
/// The filesystem is modelled by the `fs` map. `open` answers exactly from
/// that map; a backend with transient failures (`infallible` is false) may
/// also fail with `VfsError::Other` on any path.
pub trait FileOpener: Sized {
    /// The handle type `open` yields.
    type File;

    /// The filesystem, keyed by sanitized path segments. A backend over
    /// real, changing storage leaves this abstract.
    open spec fn fs(&self) -> Map<Seq<Seq<u8>>, FsNode> {
        vstd::pervasive::arbitrary()
    }

    /// True when `open` never fails with `VfsError::Other`; a backend with
    /// transient failures leaves the default.
    open spec fn infallible(&self) -> bool {
        false
    }

    /// The bytes a handle reads.
    open spec fn handle_content(h: &Self::File) -> Seq<u8> {
        vstd::pervasive::arbitrary()
    }

    /// Open a path, returning the handle and metadata for the node the
    /// filesystem holds there.
    fn open(&self, path: &Vec<Vec<u8>>) -> (r: Result<FileWithMetadata<Self::File>, VfsError>)
        ensures
            (match r {
                Ok(f) => self.fs().dom().contains(path.deep_view()) && (match self.fs()[
                    path.deep_view()
                ] {
                    FsNode::Node(e) => f.size == e.content.len() && f.modified == e.modified
                        && f.is_dir == e.is_dir && Self::handle_content(&f.handle) == e.content,
                    FsNode::Denied => false,
                }),
                Err(VfsError::NotFound) => !self.fs().dom().contains(path.deep_view()),
                Err(VfsError::PermissionDenied) => self.fs().dom().contains(path.deep_view())
                    && self.fs()[path.deep_view()] is Denied,
                Err(VfsError::Other) => !self.infallible(),
            }),
    ;
}

/// An in-memory file handle: the content bytes and a read position.
pub struct MemoryFile {
    /// The file's bytes.
    pub data: Vec<u8>,
    /// The current read offset; may point past the end.
    pub pos: u64,
}

impl MemoryFile {
    /// Move the read position; seeking past the end is allowed and reads
    /// nothing there.
    pub fn seek_to(&mut self, offset: u64)
        ensures
            final(self).data == old(self).data,
            final(self).pos == offset,
    {
        self.pos = offset;
    }

    /// Read at most `len` bytes from the current position, advancing it.
    /// An empty result means end of file.
    pub fn read_at(&mut self, len: usize) -> (r: Vec<u8>)
        ensures
            final(self).data == old(self).data,
            old(self).pos as int > old(self).data@.len() ==> r@ == Seq::<u8>::empty()
                && final(self).pos == old(self).pos,
            old(self).pos as int <= old(self).data@.len() ==> {
                let amt = vstd::math::min(old(self).data@.len() - old(self).pos, len as int);
                r@ == old(self).data@.subrange(old(self).pos as int, old(self).pos + amt)
                    && final(self).pos == old(self).pos + amt
            },
    {
        let data_len = self.data.len();
        if self.pos > data_len as u64 {
            let empty: Vec<u8> = Vec::new();
            return empty;
        }
        let start = self.pos as usize;
        let avail = data_len - start;
        let amt = if avail < len {
            avail
        } else {
            len
        };
        let r = crate::util::copy_range(&self.data, start, start + amt);
        self.pos = self.pos + amt as u64;
        r
    }
}

/// One entry of the in-memory filesystem.
struct MemoryNode {
    path: Vec<Vec<u8>>,
    data: Vec<u8>,
    modified: Option<Timespec>,
    is_dir: bool,
}

impl MemoryNode {
    spec fn node(&self) -> FsNode {
        FsNode::Node(
            FsEntry { content: self.data@, modified: self.modified, is_dir: self.is_dir },
        )
    }
}

/// The map an entry list denotes; a later entry for the same path wins.
spec fn entries_map(s: Seq<MemoryNode>) -> Map<Seq<Seq<u8>>, FsNode>
    decreases s.len(),
{
    if s.len() == 0 {
        Map::empty()
    } else {
        entries_map(s.drop_last()).insert(s.last().path.deep_view(), s.last().node())
    }
}

proof fn lemma_entries_map_found(s: Seq<MemoryNode>, i: int)
    requires
        0 <= i < s.len(),
        forall|j: int| i < j < s.len() ==> s[j].path.deep_view() != s[i].path.deep_view(),
    ensures
        entries_map(s).dom().contains(s[i].path.deep_view()),
        entries_map(s)[s[i].path.deep_view()] == s[i].node(),
    decreases s.len(),
{
    if i == s.len() - 1 {
    } else {
        lemma_entries_map_found(s.drop_last(), i);
        assert(s.drop_last()[i] == s[i]);
        assert(s.last().path.deep_view() != s[i].path.deep_view());
    }
}

proof fn lemma_entries_map_absent(s: Seq<MemoryNode>, k: Seq<Seq<u8>>)
    requires
        forall|j: int| 0 <= j < s.len() ==> s[j].path.deep_view() != k,
    ensures
        !entries_map(s).dom().contains(k),
    decreases s.len(),
{
    if s.len() > 0 {
        lemma_entries_map_absent(s.drop_last(), k);
    }
}

/// An in-memory virtual filesystem: a path-to-entry map built ahead of
/// time, whose `open` is a pure lookup.
pub struct MemoryFs {
    entries: Vec<MemoryNode>,
}

/// The ghost node for a synthesized directory entry.
pub open spec fn dir_node() -> FsNode {
    FsNode::Node(FsEntry { content: Seq::empty(), modified: None, is_dir: true })
}

/// The ghost node for a file with the given bytes and modification time.
pub open spec fn file_node(content: Seq<u8>, modified: Option<Timespec>) -> FsNode {
    FsNode::Node(FsEntry { content, modified, is_dir: false })
}

impl MemoryFs {
    /// The filesystem map this instance answers from.
    pub closed spec fn fs_map(&self) -> Map<Seq<Seq<u8>>, FsNode> {
        entries_map(self.entries@)
    }

    /// An empty filesystem holding only the root directory entry.
    pub fn new() -> (r: MemoryFs)
        ensures
            r.fs_map() == Map::<Seq<Seq<u8>>, FsNode>::empty().insert(
                Seq::<Seq<u8>>::empty(),
                dir_node(),
            ),
    {
        let mut entries: Vec<MemoryNode> = Vec::new();
        let root: Vec<Vec<u8>> = Vec::new();
        entries.push(
            MemoryNode { path: root, data: Vec::new(), modified: None, is_dir: true },
        );
        let r = MemoryFs { entries };
        proof {
            assert(r.entries@.drop_last() =~= Seq::<MemoryNode>::empty());
            assert(r.entries@.last().path.deep_view() =~~= Seq::<Seq<u8>>::empty());
            assert(r.entries@.last().node() == dir_node()) by {
                assert(r.entries@.last().data@ =~= Seq::<u8>::empty());
            }
            assert(entries_map(Seq::<MemoryNode>::empty()) == Map::<Seq<Seq<u8>>, FsNode>::empty());
            assert(r.fs_map() =~= Map::<Seq<Seq<u8>>, FsNode>::empty().insert(
                Seq::<Seq<u8>>::empty(),
                dir_node(),
            ));
        }
        r
    }
}

/// Directory entries for every proper ancestor of `segs` up to length `k`.
pub open spec fn insert_dirs_spec(
    fs: Map<Seq<Seq<u8>>, FsNode>,
    segs: Seq<Seq<u8>>,
    k: int,
) -> Map<Seq<Seq<u8>>, FsNode>
    decreases k,
{
    if k <= 0 {
        fs
    } else {
        insert_dirs_spec(fs, segs, k - 1).insert(segs.take(k), dir_node())
    }
}

/// What `add` does to a filesystem: synthesize a directory entry for every
/// proper ancestor of the path, then store the file entry itself,
/// overwriting anything already there.
pub open spec fn add_spec(
    fs: Map<Seq<Seq<u8>>, FsNode>,
    segs: Seq<Seq<u8>>,
    content: Seq<u8>,
    modified: Option<Timespec>,
) -> Map<Seq<Seq<u8>>, FsNode> {
    insert_dirs_spec(fs, segs, segs.len() - 1).insert(segs, file_node(content, modified))
}

fn copy_prefix(segs: &Vec<Vec<u8>>, k: usize) -> (r: Vec<Vec<u8>>)
    requires
        k <= segs@.len(),
    ensures
        r.deep_view() == segs.deep_view().take(k as int),
{
    let mut out: Vec<Vec<u8>> = Vec::new();
    let mut i: usize = 0;
    while i < k
        invariant
            0 <= i <= k <= segs@.len(),
            out.deep_view() == segs.deep_view().take(i as int),
        decreases k - i,
    {
        let ghost prev = out.deep_view();
        out.push(segs[i].clone());
        proof {
            assert(out.deep_view() =~~= prev.push(segs.deep_view()[i as int]));
            assert(prev.push(segs.deep_view()[i as int]) =~~= segs.deep_view().take(i + 1));
        }
        i += 1;
    }
    out
}

impl MemoryFs {
    fn push_node(&mut self, node: MemoryNode)
        ensures
            final(self).fs_map() == old(self).fs_map().insert(
                node.path.deep_view(),
                node.node(),
            ),
    {
        self.entries.push(node);
        proof {
            assert(self.entries@.drop_last() =~= old(self).entries@);
        }
    }

    /// Add a file under `path` (interpreted as `/`-separated segments,
    /// normalized the same way request paths are), synthesizing directory
    /// entries for its ancestors. Existing entries are overwritten.
    #[verifier::loop_isolation(false)]
    pub fn add(&mut self, path: &str, data: Vec<u8>, modified: Option<Timespec>)
        ensures
            final(self).fs_map() == add_spec(
                old(self).fs_map(),
                crate::requested_path::normalize_segments(
                    crate::util::split_on(path.spec_bytes(), 0x2f),
                ),
                data@,
                modified,
            ),
    {
        let raw = vstd::slice::slice_to_vec(path.as_bytes());
        let segs = crate::requested_path::normalize_path(&raw);
        let ghost segsv = segs.deep_view();
        let ghost fs0 = self.fs_map();
        let n = segs.len();
        let mut k: usize = 1;
        while k < n
            invariant
                1 <= k,
                n == segs@.len(),
                k <= n || k == 1,
                self.fs_map() == insert_dirs_spec(fs0, segsv, k - 1),
            decreases n - k,
        {
            let prefix = copy_prefix(&segs, k);
            let node = MemoryNode { path: prefix, data: Vec::new(), modified: None, is_dir: true };
            proof {
                assert(node.node() == dir_node()) by {
                    assert(node.data@ =~= Seq::<u8>::empty());
                }
                assert(node.path.deep_view() == segsv.take(k as int));
            }
            self.push_node(node);
            k += 1;
        }
        proof {
            if n == 0 {
                assert(insert_dirs_spec(fs0, segsv, n - 1) == fs0);
            }
        }
        let ghost dataview = data@;
        let node = MemoryNode { path: segs, data, modified, is_dir: false };
        proof {
            assert(node.node() == file_node(dataview, modified));
            assert(node.path.deep_view() == segsv);
        }
        self.push_node(node);
    }
}

impl Default for MemoryFs {
    /// The empty filesystem: only the root directory entry.
    fn default() -> (r: MemoryFs)
        ensures
            r.fs_map() == Map::<Seq<Seq<u8>>, FsNode>::empty().insert(
                Seq::<Seq<u8>>::empty(),
                dir_node(),
            ),
    {
        MemoryFs::new()
    }
}

impl FileOpener for MemoryFs {
    type File = MemoryFile;

    open spec fn fs(&self) -> Map<Seq<Seq<u8>>, FsNode> {
        self.fs_map()
    }

    open spec fn infallible(&self) -> bool {
        true
    }

    open spec fn handle_content(h: &MemoryFile) -> Seq<u8> {
        h.data@
    }

    /// A pure lookup: the newest entry for the path, or `NotFound`.
    fn open(&self, path: &Vec<Vec<u8>>) -> (r: Result<FileWithMetadata<MemoryFile>, VfsError>) {
        let n = self.entries.len();
        let mut i: usize = n;
        while i > 0
            invariant
                0 <= i <= self.entries@.len(),
                forall|j: int|
                    i <= j < self.entries@.len() ==> self.entries@[j].path.deep_view()
                        != path.deep_view(),
            decreases i,
        {
            i -= 1;
            let node = &self.entries[i];
            if eq_segments(&node.path, path) {
                proof {
                    lemma_entries_map_found(self.entries@, i as int);
                }
                let data = node.data.clone();
                let size = data.len() as u64;
                return Ok(
                    FileWithMetadata {
                        handle: MemoryFile { data, pos: 0 },
                        size,
                        modified: node.modified,
                        is_dir: node.is_dir,
                    },
                );
            }
        }
        proof {
            lemma_entries_map_absent(self.entries@, path.deep_view());
        }
        Err(VfsError::NotFound)
    }
}

/// Clone a segment list.
pub fn clone_segments(segs: &Vec<Vec<u8>>) -> (r: Vec<Vec<u8>>)
    ensures
        r.deep_view() == segs.deep_view(),
{
    let mut out: Vec<Vec<u8>> = Vec::new();
    let mut i: usize = 0;
    while i < segs.len()
        invariant
            0 <= i <= segs@.len(),
            out.deep_view() == segs.deep_view().take(i as int),
        decreases segs@.len() - i,
    {
        let ghost prev = out.deep_view();
        out.push(segs[i].clone());
        proof {
            assert(out.deep_view() =~~= prev.push(segs.deep_view()[i as int]));
            assert(prev.push(segs.deep_view()[i as int]) =~~= segs.deep_view().take(i + 1));
        }
        i += 1;
    }
    proof {
        assert(segs.deep_view().take(segs@.len() as int) =~= segs.deep_view());
    }
    out
}

/// Compare two byte vectors.
pub fn eq_bytes(a: &Vec<u8>, b: &Vec<u8>) -> (r: bool)
    ensures
        r == (a@ == b@),
{
    if a.len() != b.len() {
        proof {
            assert(a@.len() != b@.len());
        }
        return false;
    }
    let mut i: usize = 0;
    while i < a.len()
        invariant
            0 <= i <= a@.len(),
            a@.len() == b@.len(),
            forall|j: int| 0 <= j < i ==> a@[j] == b@[j],
        decreases a@.len() - i,
    {
        if a[i] != b[i] {
            return false;
        }
        i += 1;
    }
    proof {
        assert(a@ =~= b@);
    }
    true
}

/// Compare two segment lists.
pub fn eq_segments(a: &Vec<Vec<u8>>, b: &Vec<Vec<u8>>) -> (r: bool)
    ensures
        r == (a.deep_view() == b.deep_view()),
{
    if a.len() != b.len() {
        proof {
            assert(a.deep_view().len() != b.deep_view().len());
        }
        return false;
    }
    let mut i: usize = 0;
    while i < a.len()
        invariant
            0 <= i <= a@.len(),
            a@.len() == b@.len(),
            forall|j: int| 0 <= j < i ==> a.deep_view()[j] == b.deep_view()[j],
        decreases a@.len() - i,
    {
        if !eq_bytes(&a[i], &b[i]) {
            proof {
                assert(a.deep_view()[i as int] =~= a@[i as int]@);
                assert(b.deep_view()[i as int] =~= b@[i as int]@);
            }
            return false;
        }
        proof {
            assert(a.deep_view()[i as int] =~= a@[i as int]@);
            assert(b.deep_view()[i as int] =~= b@[i as int]@);
        }
        i += 1;
    }
    proof {
        assert(a.deep_view() =~= b.deep_view());
    }
    true
}

} // verus!
