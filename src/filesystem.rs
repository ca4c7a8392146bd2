use vstd::prelude::*;

use crate::path::{
    compare_names, is_name, lemma_lt_irreflexive, lemma_lt_transitive,
    name_lt, segments, split_path, NameOrder,
};

verus! {

/// Descriptor slots in the open-file table.
pub const MAX_OPEN_FILES: usize = 1024;

/// Largest size of a file's data, in bytes.
pub const MAX_FILE_SIZE: usize = 1048576;

/// Slots in the inode table.
pub const MAX_INODES: usize = 1024;

#[derive(Debug, Clone, Copy, PartialEq, Eq, Structural)]
pub enum FileType {
    Regular,
    Directory,
    Device,
}

#[derive(Debug, Clone, Copy, PartialEq, Eq, Structural)]
pub struct FileMode {
    pub read: bool,
    pub write: bool,
    pub execute: bool,
}

impl FileMode {
    /// Reads the owner's bits of a Unix mode: 0o400 read, 0o200 write,
    /// 0o100 execute.
    pub fn from_bits(mode: u32) -> (r: Self)
        ensures
            r.read == (mode & 0o400 != 0),
            r.write == (mode & 0o200 != 0),
            r.execute == (mode & 0o100 != 0),
    {
        Self { read: (mode & 0o400) != 0, write: (mode & 0o200) != 0, execute: (mode & 0o100) != 0 }
    }
}

/// The mode every seeded directory and the root get.
pub open spec fn rwx() -> FileMode {
    FileMode { read: true, write: true, execute: true }
}

/// Errors of the filesystem.
#[derive(Debug, Clone, Copy, PartialEq, Eq, Structural)]
pub enum FsError {
    InvalidPath,
    AlreadyExists,
    OutOfInodes,
    NotADirectory,
    PathNotFound,
    InvalidInode,
    TooManyOpenFiles,
    InvalidDescriptor,
    NotOpen,
    PermissionDenied,
    FileTooLarge,
    NotInitialized,
}

impl FsError {
    /// A short description of the error.
    pub fn message(&self) -> &'static str {
        match self {
            FsError::InvalidPath => "Invalid path",
            FsError::AlreadyExists => "File already exists",
            FsError::OutOfInodes => "Out of inodes",
            FsError::NotADirectory => "Not a directory",
            FsError::PathNotFound => "Path not found",
            FsError::InvalidInode => "Invalid inode",
            FsError::TooManyOpenFiles => "Too many open files",
            FsError::InvalidDescriptor => "Invalid file descriptor",
            FsError::NotOpen => "File not open",
            FsError::PermissionDenied => "Permission denied",
            FsError::FileTooLarge => "File too large",
            FsError::NotInitialized => "Filesystem not initialized",
        }
    }
}

/// One entry of a directory: a name and the inode it names.
pub struct DirEntry {
    pub name: String,
    pub inode: usize,
}

/// The inode that the first entry named `name` at or after position `i`
/// points to.
pub open spec fn lookup_from(c: Seq<DirEntry>, name: Seq<char>, i: int) -> Option<usize>
    decreases c.len() - i,
{
    if i < 0 || i >= c.len() {
        None
    } else if c[i].name@ == name {
        Some(c[i].inode)
    } else {
        lookup_from(c, name, i + 1)
    }
}

/// The inode a directory maps `name` to, if any.
pub open spec fn lookup(c: Seq<DirEntry>, name: Seq<char>) -> Option<usize> {
    lookup_from(c, name, 0)
}

/// Entries are sorted by name (so names are unique), are valid names, and
/// point below `bound`.
pub open spec fn entries_wf(c: Seq<DirEntry>, bound: nat) -> bool {
    &&& forall|i: int, j: int| 0 <= i < j < c.len() ==> name_lt(#[trigger] c[i].name@, #[trigger] c[j].name@)
    &&& forall|i: int| 0 <= i < c.len() ==> is_name(#[trigger] c[i].name@)
    &&& forall|i: int| 0 <= i < c.len() ==> (#[trigger] c[i]).inode < bound
}

/// The names of a directory, in order.
pub open spec fn names_of(c: Seq<DirEntry>) -> Seq<Seq<char>> {
    c.map_values(|e: DirEntry| e.name@)
}

proof fn lemma_lookup_from_at(c: Seq<DirEntry>, bound: nat, k: int, i: int)
    requires
        entries_wf(c, bound),
        0 <= i <= k < c.len(),
    ensures
        lookup_from(c, c[k].name@, i) == Some(c[k].inode),
    decreases k - i,
{
    if i < k {
        assert(name_lt(c[i].name@, c[k].name@));
        lemma_lt_irreflexive(c[k].name@, 0);
        lemma_lookup_from_at(c, bound, k, i + 1);
    }
}

proof fn lemma_lookup_at(c: Seq<DirEntry>, bound: nat, k: int)
    requires
        entries_wf(c, bound),
        0 <= k < c.len(),
    ensures
        lookup(c, c[k].name@) == Some(c[k].inode),
{
    lemma_lookup_from_at(c, bound, k, 0);
}

proof fn lemma_lookup_absent(c: Seq<DirEntry>, name: Seq<char>, i: int)
    requires
        0 <= i,
        forall|j: int| i <= j < c.len() ==> (#[trigger] c[j]).name@ != name,
    ensures
        lookup_from(c, name, i) is None,
    decreases c.len() - i,
{
    if i < c.len() {
        lemma_lookup_absent(c, name, i + 1);
    }
}

/// A name that the directory maps is held by one of its entries.
proof fn lemma_lookup_some(c: Seq<DirEntry>, name: Seq<char>, i: int)
    requires
        0 <= i,
        lookup_from(c, name, i) is Some,
    ensures
        exists|j: int| i <= j < c.len() && (#[trigger] c[j]).name@ == name && lookup_from(c, name, i) == Some(c[j].inode),
    decreases c.len() - i,
{
    if c[i].name@ != name {
        lemma_lookup_some(c, name, i + 1);
    }
}

proof fn lemma_lookup_iff(c: Seq<DirEntry>, bound: nat, n: Seq<char>)
    requires
        entries_wf(c, bound),
    ensures
        lookup(c, n) is Some <==> exists|i: int| 0 <= i < c.len() && (#[trigger] c[i]).name@ == n,
{
    if lookup(c, n) is Some {
        lemma_lookup_some(c, n, 0);
    } else {
        if exists|i: int| 0 <= i < c.len() && (#[trigger] c[i]).name@ == n {
            let i = choose|i: int| 0 <= i < c.len() && (#[trigger] c[i]).name@ == n;
            lemma_lookup_at(c, bound, i);
        }
    }
}

/// Two directories that hold the same names list them in the same order:
/// the listing does not depend on the order in which entries were added.
pub proof fn lemma_same_names_same_listing(a: Seq<DirEntry>, b: Seq<DirEntry>, bound: nat)
    requires
        entries_wf(a, bound),
        entries_wf(b, bound),
        forall|n: Seq<char>| (#[trigger] lookup(a, n) is Some) <==> lookup(b, n) is Some,
    ensures
        names_of(a) == names_of(b),
    decreases a.len() + b.len(),
{
    if a.len() == 0 || b.len() == 0 {
        if a.len() > 0 {
            lemma_lookup_at(a, bound, 0);
            lemma_lookup_iff(b, bound, a[0].name@);
        }
        if b.len() > 0 {
            lemma_lookup_at(b, bound, 0);
            lemma_lookup_iff(a, bound, b[0].name@);
        }
        assert(names_of(a) == names_of(b));
    } else {
        let x = a[0].name@;
        let y = b[0].name@;
        lemma_lookup_at(a, bound, 0);
        lemma_lookup_at(b, bound, 0);
        lemma_lookup_iff(a, bound, y);
        lemma_lookup_iff(b, bound, x);
        let i = choose|i: int| 0 <= i < a.len() && (#[trigger] a[i]).name@ == y;
        let j = choose|j: int| 0 <= j < b.len() && (#[trigger] b[j]).name@ == x;
        if x != y {
            assert(i > 0 && j > 0);
            assert(name_lt(x, y));
            assert(name_lt(y, x));
            lemma_lt_transitive(x, y, x, 0);
            lemma_lt_irreflexive(x, 0);
        }
        let a1 = a.drop_first();
        let b1 = b.drop_first();
        assert forall|n: Seq<char>| (#[trigger] lookup(a1, n) is Some) <==> lookup(b1, n) is Some by {
            lemma_lookup_iff(a, bound, n);
            lemma_lookup_iff(b, bound, n);
            lemma_lookup_iff(a1, bound, n);
            lemma_lookup_iff(b1, bound, n);
            if n == x {
                assert forall|k: int| 0 <= k < a1.len() implies (#[trigger] a1[k]).name@ != n by {
                    assert(name_lt(a[0].name@, a[k + 1].name@));
                    lemma_lt_irreflexive(x, 0);
                }
                assert forall|k: int| 0 <= k < b1.len() implies (#[trigger] b1[k]).name@ != n by {
                    assert(name_lt(b[0].name@, b[k + 1].name@));
                    lemma_lt_irreflexive(x, 0);
                }
            } else {
                if exists|k: int| 0 <= k < a.len() && (#[trigger] a[k]).name@ == n {
                    let k = choose|k: int| 0 <= k < a.len() && (#[trigger] a[k]).name@ == n;
                    assert(a1[k - 1] == a[k]);
                }
                if exists|k: int| 0 <= k < b.len() && (#[trigger] b[k]).name@ == n {
                    let k = choose|k: int| 0 <= k < b.len() && (#[trigger] b[k]).name@ == n;
                    assert(b1[k - 1] == b[k]);
                }
                if exists|k: int| 0 <= k < a1.len() && (#[trigger] a1[k]).name@ == n {
                    let k = choose|k: int| 0 <= k < a1.len() && (#[trigger] a1[k]).name@ == n;
                    assert(a[k + 1] == a1[k]);
                }
                if exists|k: int| 0 <= k < b1.len() && (#[trigger] b1[k]).name@ == n {
                    let k = choose|k: int| 0 <= k < b1.len() && (#[trigger] b1[k]).name@ == n;
                    assert(b[k + 1] == b1[k]);
                }
            }
        }
        lemma_same_names_same_listing(a1, b1, bound);
        assert(names_of(a) == seq![x] + names_of(a1));
        assert(names_of(b) == seq![y] + names_of(b1));
    }
}

/// Finds the entry with the given name.
fn find_entry(c: &Vec<DirEntry>, name: &String) -> (r: Option<usize>)
    requires
        entries_wf(c@, MAX_INODES as nat),
    ensures
        r == lookup(c@, name@),
{
    let mut i: usize = 0;
    while i < c.len()
        invariant
            entries_wf(c@, MAX_INODES as nat),
            i <= c@.len(),
            forall|k: int| 0 <= k < i ==> (#[trigger] c@[k]).name@ != name@,
        decreases c.len() - i,
    {
        if c[i].name == *name {
            proof {
                lemma_lookup_at(c@, MAX_INODES as nat, i as int);
            }
            return Some(c[i].inode);
        }
        i = i + 1;
    }
    proof {
        lemma_lookup_absent(c@, name@, 0);
    }
    None
}

/// The first position whose entry does not come before `name`.
fn insert_position(c: &Vec<DirEntry>, name: &String) -> (p: usize)
    ensures
        p <= c@.len(),
        forall|k: int| 0 <= k < p ==> name_lt(#[trigger] c@[k].name@, name@),
        p < c@.len() ==> c@[p as int].name@ == name@ || name_lt(name@, c@[p as int].name@),
{
    let mut p: usize = 0;
    while p < c.len()
        invariant
            p <= c@.len(),
            forall|k: int| 0 <= k < p ==> name_lt(#[trigger] c@[k].name@, name@),
        decreases c.len() - p,
    {
        match compare_names(c[p].name.as_str(), name.as_str()) {
            NameOrder::Less => {},
            _ => {
                return p;
            },
        }
        p = p + 1;
    }
    p
}

/// Inserts a new entry at its place in name order.
fn insert_entry(c: &mut Vec<DirEntry>, name: String, inode: usize, Ghost(bound): Ghost<nat>)
    requires
        entries_wf(old(c)@, bound),
        lookup(old(c)@, name@) is None,
        is_name(name@),
        inode < bound,
    ensures
        entries_wf(final(c)@, bound),
        final(c)@.len() == old(c)@.len() + 1,
        forall|n: Seq<char>| #[trigger] lookup(final(c)@, n) == if n == name@ {
            Some(inode)
        } else {
            lookup(old(c)@, n)
        },
{
    let ghost nm = name@;
    let p = insert_position(c, &name);
    proof {
        if p < c@.len() && c@[p as int].name@ == nm {
            lemma_lookup_at(c@, bound, p as int);
        }
    }
    let ghost old_c = c@;
    c.insert(p, DirEntry { name, inode });
    proof {
        let new_c = c@;
        assert forall|i: int, j: int| 0 <= i < j < new_c.len() implies name_lt(
            #[trigger] new_c[i].name@,
            #[trigger] new_c[j].name@,
        ) by {
            if j < p {
            } else if j == p {
            } else if i < p {
                assert(name_lt(old_c[i].name@, nm));
                assert(name_lt(nm, old_c[p as int].name@));
                if j - 1 > p {
                    assert(name_lt(old_c[p as int].name@, old_c[j - 1].name@));
                    lemma_lt_transitive(nm, old_c[p as int].name@, old_c[j - 1].name@, 0);
                }
                lemma_lt_transitive(old_c[i].name@, nm, old_c[j - 1].name@, 0);
            } else if i == p {
                if j - 1 > p {
                    assert(name_lt(old_c[p as int].name@, old_c[j - 1].name@));
                    lemma_lt_transitive(nm, old_c[p as int].name@, old_c[j - 1].name@, 0);
                }
            } else {
                assert(name_lt(old_c[i - 1].name@, old_c[j - 1].name@));
            }
        }
        assert forall|n: Seq<char>| #[trigger] lookup(new_c, n) == if n == nm {
            Some(inode)
        } else {
            lookup(old_c, n)
        } by {
            if n == nm {
                lemma_lookup_at(new_c, bound, p as int);
            } else if exists|i: int| 0 <= i < old_c.len() && (#[trigger] old_c[i]).name@ == n {
                let i = choose|i: int| 0 <= i < old_c.len() && (#[trigger] old_c[i]).name@ == n;
                lemma_lookup_at(old_c, bound, i);
                if i < p {
                    lemma_lookup_at(new_c, bound, i);
                } else {
                    assert(new_c[i + 1] == old_c[i]);
                    lemma_lookup_at(new_c, bound, i + 1);
                }
            } else {
                assert forall|i: int| 0 <= i < new_c.len() implies (#[trigger] new_c[i]).name@ != n by {
                    if i < p {
                        assert(new_c[i] == old_c[i]);
                    } else if i > p {
                        assert(new_c[i] == old_c[i - 1]);
                    }
                }
                lemma_lookup_absent(new_c, n, 0);
                lemma_lookup_absent(old_c, n, 0);
            }
        }
    }
}

/// An inode: a file's or directory's record, named by its number.
pub struct Inode {
    pub inode_num: usize,
    pub file_type: FileType,
    pub mode: FileMode,
    pub size: usize,
    pub data: Vec<u8>,
    /// The entries of a directory, in name order.
    pub children: Vec<DirEntry>,
}

impl Inode {
    fn new_file(inode_num: usize, mode: FileMode) -> (r: Self)
        ensures
            is_fresh(r, inode_num as int, FileType::Regular, mode),
    {
        Self { inode_num, file_type: FileType::Regular, mode, size: 0, data: Vec::new(), children: Vec::new() }
    }

    fn new_dir(inode_num: usize, mode: FileMode) -> (r: Self)
        ensures
            is_fresh(r, inode_num as int, FileType::Directory, mode),
    {
        Self { inode_num, file_type: FileType::Directory, mode, size: 0, data: Vec::new(), children: Vec::new() }
    }
}

/// `ino` is a newly made inode numbered `n`: empty, with no entries.
pub open spec fn is_fresh(ino: Inode, n: int, kind: FileType, mode: FileMode) -> bool {
    &&& ino.inode_num == n
    &&& ino.file_type == kind
    &&& ino.mode == mode
    &&& ino.size == 0
    &&& ino.data@.len() == 0
    &&& ino.children@.len() == 0
}

/// An inode's own invariant: its number, its size, its entries.
pub open spec fn inode_wf(ino: Inode, n: int, bound: nat) -> bool {
    &&& ino.inode_num == n
    &&& ino.size == ino.data@.len()
    &&& ino.data@.len() <= MAX_FILE_SIZE
    &&& entries_wf(ino.children@, bound)
}

/// An open file: the inode, the byte offset of the next read or write, and
/// the flags it was opened with.
#[derive(Debug, Clone, Copy, PartialEq, Eq, Structural)]
pub struct OpenFile {
    pub inode: usize,
    pub offset: usize,
    pub flags: i32,
}

/// What the filesystem holds: the inode table, the descriptor table and the
/// next inode number to hand out.
pub struct FsView {
    pub inodes: Seq<Option<Inode>>,
    pub open_files: Seq<Option<OpenFile>>,
    pub next_inode: nat,
}

impl FsView {
    pub open spec fn file(&self, n: int) -> Inode {
        self.inodes[n]->Some_0
    }

    pub open spec fn wf(&self) -> bool {
        &&& self.inodes.len() == MAX_INODES
        &&& self.open_files.len() == MAX_OPEN_FILES
        &&& 1 <= self.next_inode <= MAX_INODES
        &&& forall|n: int| 0 <= n < MAX_INODES ==> (#[trigger] self.inodes[n] is Some <==> n < self.next_inode)
        &&& forall|n: int| 0 <= n < self.next_inode ==> inode_wf(#[trigger] self.file(n), n, self.next_inode)
        &&& self.file(0).file_type == FileType::Directory
        &&& forall|fd: int| 0 <= fd < MAX_OPEN_FILES && #[trigger] self.open_files[fd] is Some ==> {
            let f = self.open_files[fd]->Some_0;
            &&& f.inode < self.next_inode
            &&& f.offset <= self.file(f.inode as int).data@.len()
        }
    }

    /// Walks `segs` down from inode `cur`: every inode passed through must be
    /// a directory that holds the next segment.
    pub open spec fn resolve(&self, cur: int, segs: Seq<Seq<char>>) -> Result<usize, FsError>
        decreases segs.len(),
    {
        if segs.len() == 0 {
            Ok(cur as usize)
        } else if cur < 0 || cur >= self.inodes.len() || self.inodes[cur] is None {
            Err(FsError::InvalidInode)
        } else if self.file(cur).file_type != FileType::Directory {
            Err(FsError::NotADirectory)
        } else {
            match lookup(self.file(cur).children@, segs[0]) {
                None => Err(FsError::PathNotFound),
                Some(next) => self.resolve(next as int, segs.drop_first()),
            }
        }
    }

    /// Resolves a whole path from the root.
    pub open spec fn resolve_path(&self, p: Seq<char>) -> Result<usize, FsError> {
        self.resolve(0, segments(p))
    }

    /// Why adding an entry for path `p` fails, if it does.
    pub open spec fn add_error(&self, p: Seq<char>) -> Option<FsError> {
        let segs = segments(p);
        if segs.len() == 0 {
            Some(FsError::InvalidPath)
        } else {
            match self.resolve(0, segs.drop_last()) {
                Err(e) => Some(e),
                Ok(parent) => if self.file(parent as int).file_type != FileType::Directory {
                    Some(FsError::NotADirectory)
                } else if lookup(self.file(parent as int).children@, segs.last()) is Some {
                    Some(FsError::AlreadyExists)
                } else if self.next_inode >= MAX_INODES {
                    Some(FsError::OutOfInodes)
                } else {
                    None
                },
            }
        }
    }

    /// `post` is `self` with a new inode of the given kind and mode, numbered
    /// `self.next_inode`, entered as the last segment of `p` in its parent.
    pub open spec fn added(&self, p: Seq<char>, kind: FileType, mode: FileMode, post: FsView) -> bool {
        let segs = segments(p);
        let parent = self.resolve(0, segs.drop_last())->Ok_0 as int;
        let n = self.next_inode as int;
        let old_dir = self.file(parent);
        let new_dir = post.file(parent);
        &&& post.next_inode == self.next_inode + 1
        &&& post.open_files == self.open_files
        &&& post.inodes.len() == self.inodes.len()
        &&& post.inodes[n] is Some
        &&& is_fresh(post.file(n), n, kind, mode)
        &&& post.inodes[parent] is Some
        &&& new_dir.inode_num == old_dir.inode_num
        &&& new_dir.file_type == old_dir.file_type
        &&& new_dir.mode == old_dir.mode
        &&& new_dir.size == old_dir.size
        &&& new_dir.data@ == old_dir.data@
        &&& new_dir.children@.len() == old_dir.children@.len() + 1
        &&& forall|name: Seq<char>| #[trigger] lookup(new_dir.children@, name) == if name == segs.last() {
            Some(n as usize)
        } else {
            lookup(old_dir.children@, name)
        }
        &&& forall|i: int| 0 <= i < self.inodes.len() && i != n && i != parent ==> post.inodes[i] == self.inodes[i]
    }

    /// The outcome of adding an entry for path `p`.
    pub open spec fn add_spec(
        &self,
        p: Seq<char>,
        kind: FileType,
        mode: FileMode,
        post: FsView,
        r: Result<usize, FsError>,
    ) -> bool {
        match self.add_error(p) {
            Some(e) => r == Err::<usize, FsError>(e) && post == *self,
            None => r == Ok::<usize, FsError>(self.next_inode as usize) && self.added(p, kind, mode, post),
        }
    }
}


/// The lowest free descriptor slot at or after `i`.
pub open spec fn first_free_from(slots: Seq<Option<OpenFile>>, i: int) -> Option<int>
    decreases slots.len() - i,
{
    if i < 0 || i >= slots.len() {
        None
    } else if slots[i] is None {
        Some(i)
    } else {
        first_free_from(slots, i + 1)
    }
}

/// A change of descriptors alone keeps the invariant if every open
/// descriptor still names a live inode within its data.
proof fn lemma_descriptors_only(pre: FsView, post: FsView)
    requires
        pre.wf(),
        post.inodes == pre.inodes,
        post.next_inode == pre.next_inode,
        post.open_files.len() == MAX_OPEN_FILES,
        forall|d: int| 0 <= d < MAX_OPEN_FILES && #[trigger] post.open_files[d] is Some ==> {
            let g = post.open_files[d]->Some_0;
            &&& g.inode < post.next_inode
            &&& g.offset <= post.file(g.inode as int).data@.len()
        },
    ensures
        post.wf(),
{
    assert forall|n: int| 0 <= n < post.next_inode implies inode_wf(#[trigger] post.file(n), n, post.next_inode) by {
        assert(inode_wf(pre.file(n), n, pre.next_inode));
    }
    assert forall|n: int| 0 <= n < MAX_INODES implies (#[trigger] post.inodes[n] is Some <==> n < post.next_inode) by {
        assert(pre.inodes[n] is Some <==> n < pre.next_inode);
    }
}

proof fn lemma_first_free(slots: Seq<Option<OpenFile>>, i: int)
    requires
        0 <= i,
    ensures
        first_free_from(slots, i) matches Some(fd) ==> i <= fd < slots.len() && slots[fd] is None,
    decreases slots.len() - i,
{
    if i < slots.len() && slots[i] is Some {
        lemma_first_free(slots, i + 1);
    }
}

/// The bytes of `data` after writing `b` at `off`, zero-filling any gap.
pub open spec fn written(data: Seq<u8>, off: int, b: Seq<u8>) -> Seq<u8> {
    let len = if off + b.len() > data.len() { off + b.len() } else { data.len() as int };
    Seq::new(len as nat, |i: int| if off <= i < off + b.len() {
        b[i - off]
    } else if i < data.len() {
        data[i]
    } else {
        0u8
    })
}

impl FsView {
    /// The outcome of opening path `p`.
    pub open spec fn open_spec(&self, p: Seq<char>, flags: i32, post: FsView, r: Result<i32, FsError>) -> bool {
        match self.resolve_path(p) {
            Err(e) => r == Err::<i32, FsError>(e) && post == *self,
            Ok(n) => match first_free_from(self.open_files, 0) {
                None => r == Err::<i32, FsError>(FsError::TooManyOpenFiles) && post == *self,
                Some(fd) => r == Ok::<i32, FsError>(fd as i32) && post == FsView {
                    open_files: self.open_files.update(fd, Some(OpenFile { inode: n, offset: 0, flags })),
                    ..*self
                },
            },
        }
    }

    /// Why descriptor `fd` cannot be used, if it cannot.
    pub open spec fn fd_error(&self, fd: i32) -> Option<FsError> {
        if fd < 0 || fd >= self.open_files.len() {
            Some(FsError::InvalidDescriptor)
        } else if self.open_files[fd as int] is None {
            Some(FsError::NotOpen)
        } else {
            None
        }
    }

    pub open spec fn open_file(&self, fd: i32) -> OpenFile {
        self.open_files[fd as int]->Some_0
    }

    /// The outcome of closing `fd`.
    pub open spec fn close_spec(&self, fd: i32, post: FsView, r: Result<(), FsError>) -> bool {
        match self.fd_error(fd) {
            Some(e) => r == Err::<(), FsError>(e) && post == *self,
            None => r == Ok::<(), FsError>(()) && post == FsView {
                open_files: self.open_files.update(fd as int, None),
                ..*self
            },
        }
    }

    /// Why reading from (or, with `write`, writing to) `fd` fails before any
    /// byte moves, if it does.
    pub open spec fn access_error(&self, fd: i32, write: bool) -> Option<FsError> {
        match self.fd_error(fd) {
            Some(e) => Some(e),
            None => {
                let n = self.open_file(fd).inode as int;
                if n >= self.inodes.len() || self.inodes[n] is None {
                    Some(FsError::InvalidInode)
                } else if write && !self.file(n).mode.write {
                    Some(FsError::PermissionDenied)
                } else if !write && !self.file(n).mode.read {
                    Some(FsError::PermissionDenied)
                } else {
                    None
                }
            },
        }
    }

    /// The outcome of reading into a buffer `buf` from `fd`: `out` is the
    /// buffer afterwards.
    pub open spec fn read_spec(
        &self,
        fd: i32,
        buf: Seq<u8>,
        post: FsView,
        out: Seq<u8>,
        r: Result<usize, FsError>,
    ) -> bool {
        match self.access_error(fd, false) {
            Some(e) => r == Err::<usize, FsError>(e) && post == *self && out == buf,
            None => {
                let f = self.open_file(fd);
                let data = self.file(f.inode as int).data@;
                let avail = data.len() - f.offset;
                let n = if buf.len() < avail { buf.len() as int } else { avail };
                &&& r == Ok::<usize, FsError>(n as usize)
                &&& out == data.subrange(f.offset as int, f.offset + n) + buf.subrange(n, buf.len() as int)
                &&& post == FsView {
                    open_files: self.open_files.update(fd as int, Some(OpenFile { offset: (f.offset + n) as usize, ..f })),
                    ..*self
                }
            },
        }
    }

    /// The outcome of writing `b` to `fd`.
    pub open spec fn write_spec(&self, fd: i32, b: Seq<u8>, post: FsView, r: Result<usize, FsError>) -> bool {
        match self.access_error(fd, true) {
            Some(e) => r == Err::<usize, FsError>(e) && post == *self,
            None => {
                let f = self.open_file(fd);
                let n = f.inode as int;
                let end = f.offset + b.len();
                if end > MAX_FILE_SIZE {
                    r == Err::<usize, FsError>(FsError::FileTooLarge) && post == *self
                } else {
                    let old_ino = self.file(n);
                    let new_ino = post.file(n);
                    &&& r == Ok::<usize, FsError>(b.len() as usize)
                    &&& post.next_inode == self.next_inode
                    &&& post.open_files == self.open_files.update(fd as int, Some(OpenFile { offset: end as usize, ..f }))
                    &&& post.inodes.len() == self.inodes.len()
                    &&& forall|i: int| 0 <= i < self.inodes.len() && i != n ==> post.inodes[i] == self.inodes[i]
                    &&& post.inodes[n] is Some
                    &&& new_ino.inode_num == old_ino.inode_num
                    &&& new_ino.file_type == old_ino.file_type
                    &&& new_ino.mode == old_ino.mode
                    &&& new_ino.children == old_ino.children
                    &&& new_ino.data@ == written(old_ino.data@, f.offset as int, b)
                    &&& new_ino.size == new_ino.data@.len()
                }
            },
        }
    }

    /// What opening `p` returns.
    pub open spec fn open_result(&self, p: Seq<char>) -> Result<i32, FsError> {
        match self.resolve_path(p) {
            Err(e) => Err(e),
            Ok(n) => match first_free_from(self.open_files, 0) {
                None => Err(FsError::TooManyOpenFiles),
                Some(fd) => Ok(fd as i32),
            },
        }
    }

    /// What closing `fd` returns.
    pub open spec fn close_result(&self, fd: i32) -> Result<(), FsError> {
        match self.fd_error(fd) {
            Some(e) => Err(e),
            None => Ok(()),
        }
    }

    /// What reading into a buffer of `len` bytes from `fd` returns.
    pub open spec fn read_result(&self, fd: i32, len: nat) -> Result<usize, FsError> {
        match self.access_error(fd, false) {
            Some(e) => Err(e),
            None => {
                let f = self.open_file(fd);
                let avail = self.file(f.inode as int).data@.len() - f.offset;
                Ok((if len < avail { len as int } else { avail }) as usize)
            },
        }
    }

    /// What writing `b` to `fd` returns.
    pub open spec fn write_result(&self, fd: i32, b: Seq<u8>) -> Result<usize, FsError> {
        match self.access_error(fd, true) {
            Some(e) => Err(e),
            None => if self.open_file(fd).offset + b.len() > MAX_FILE_SIZE {
                Err(FsError::FileTooLarge)
            } else {
                Ok(b.len() as usize)
            },
        }
    }

    /// The outcome of listing directory `p`.
    pub open spec fn list_spec(&self, p: Seq<char>, r: Result<Seq<Seq<char>>, FsError>) -> bool {
        match self.resolve_path(p) {
            Err(e) => r == Err::<Seq<Seq<char>>, FsError>(e),
            Ok(n) => if self.file(n as int).file_type != FileType::Directory {
                r == Err::<Seq<Seq<char>>, FsError>(FsError::NotADirectory)
            } else {
                r == Ok::<Seq<Seq<char>>, FsError>(names_of(self.file(n as int).children@))
            },
        }
    }
}

/// The in-memory filesystem: inode table, descriptor table, and the counter
/// that numbers new inodes.
pub struct VirtualFileSystem {
    inodes: Vec<Option<Inode>>,
    open_files: Vec<Option<OpenFile>>,
    next_inode: usize,
    root_inode: usize,
}

impl View for VirtualFileSystem {
    type V = FsView;

    closed spec fn view(&self) -> FsView {
        FsView { inodes: self.inodes@, open_files: self.open_files@, next_inode: self.next_inode as nat }
    }
}

impl VirtualFileSystem {
    pub closed spec fn wf(&self) -> bool {
        self@.wf() && self.root_inode == 0
    }

    /// An empty filesystem: the root directory `/` (inode 0, mode rwx) and no
    /// open files.
    pub fn new() -> (r: Self)
        ensures
            r.wf(),
            r@.next_inode == 1,
            is_fresh(r@.file(0), 0, FileType::Directory, rwx()),
            forall|fd: int| 0 <= fd < MAX_OPEN_FILES ==> #[trigger] r@.open_files[fd] is None,
    {
        let mut inodes: Vec<Option<Inode>> = Vec::new();
        let mut i: usize = 0;
        while i < MAX_INODES
            invariant
                i <= MAX_INODES,
                inodes@.len() == i,
                forall|k: int| 0 <= k < i ==> #[trigger] inodes@[k] is None,
            decreases MAX_INODES - i,
        {
            inodes.push(None);
            i = i + 1;
        }
        let mut open_files: Vec<Option<OpenFile>> = Vec::new();
        let mut j: usize = 0;
        while j < MAX_OPEN_FILES
            invariant
                j <= MAX_OPEN_FILES,
                open_files@.len() == j,
                forall|k: int| 0 <= k < j ==> #[trigger] open_files@[k] is None,
            decreases MAX_OPEN_FILES - j,
        {
            open_files.push(None);
            j = j + 1;
        }
        let root = Inode::new_dir(0, FileMode { read: true, write: true, execute: true });
        inodes.set(0, Some(root));
        let vfs = Self { inodes, open_files, next_inode: 1, root_inode: 0 };
        assert(vfs@.inodes[0] is Some);
        vfs
    }

    fn allocate_inode(&mut self) -> (r: Option<usize>)
        ensures
            r == if old(self).next_inode < old(self).inodes@.len() {
                Some(old(self).next_inode)
            } else {
                None
            },
            final(self).next_inode == if r is Some { old(self).next_inode + 1 } else { old(self).next_inode as int },
            final(self).inodes == old(self).inodes,
            final(self).open_files == old(self).open_files,
            final(self).root_inode == old(self).root_inode,
    {
        let inode_num = self.next_inode;
        if inode_num >= self.inodes.len() {
            return None;
        }
        self.next_inode = self.next_inode + 1;
        Some(inode_num)
    }

    /// Resolves the first `count` of `parts` from the root.
    fn traverse_path(&self, parts: &Vec<String>, count: usize) -> (r: Result<usize, FsError>)
        requires
            self.wf(),
            count <= parts@.len(),
        ensures
            r == self@.resolve(0, parts@.subrange(0, count as int).map_values(|s: String| s@)),
            r is Ok ==> r->Ok_0 < self@.next_inode,
    {
        let ghost segs = parts@.subrange(0, count as int).map_values(|s: String| s@);
        let mut current = self.root_inode;
        let mut i: usize = 0;
        assert(segs.subrange(0, count as int) == segs);
        while i < count
            invariant
                self.wf(),
                count <= parts@.len(),
                i <= count,
                current < self@.next_inode,
                segs == parts@.subrange(0, count as int).map_values(|s: String| s@),
                self@.resolve(0, segs) == self@.resolve(current as int, segs.subrange(i as int, count as int)),
            decreases count - i,
        {
            assert(segs.subrange(i as int, count as int).drop_first() == segs.subrange(i + 1, count as int));
            match &self.inodes[current] {
                Some(inode) => {
                    if inode.file_type != FileType::Directory {
                        return Err(FsError::NotADirectory);
                    }
                    match find_entry(&inode.children, &parts[i]) {
                        Some(next) => {
                            proof {
                                lemma_lookup_some(inode.children@, parts@[i as int]@, 0);
                            }
                            current = next;
                        },
                        None => {
                            return Err(FsError::PathNotFound);
                        },
                    }
                },
                None => {
                    return Err(FsError::InvalidInode);
                },
            }
            i = i + 1;
        }
        assert(segs.subrange(count as int, count as int).len() == 0);
        Ok(current)
    }

    /// Adds a new inode of the given kind as the last segment of `path`.
    fn add_entry(&mut self, path: &str, kind: FileType, mode: FileMode) -> (r: Result<usize, FsError>)
        requires
            old(self).wf(),
            kind == FileType::Regular || kind == FileType::Directory,
        ensures
            final(self).wf(),
            old(self)@.add_spec(path@, kind, mode, final(self)@, r),
    {
        let parts = split_path(path);
        let ghost segs = segments(path@);
        assert(parts@.map_values(|s: String| s@) == segs);
        if parts.len() == 0 {
            return Err(FsError::InvalidPath);
        }
        let last = parts.len() - 1;
        assert(parts@.subrange(0, last as int).map_values(|s: String| s@) == segs.drop_last());
        let parent = match self.traverse_path(&parts, last) {
            Ok(p) => p,
            Err(e) => {
                return Err(e);
            },
        };
        match &self.inodes[parent] {
            Some(dir) => {
                if dir.file_type != FileType::Directory {
                    return Err(FsError::NotADirectory);
                }
                if find_entry(&dir.children, &parts[last]).is_some() {
                    return Err(FsError::AlreadyExists);
                }
            },
            None => {
                return Err(FsError::InvalidInode);
            },
        }
        let ghost pre = self@;
        let n = match self.allocate_inode() {
            Some(n) => n,
            None => {
                return Err(FsError::OutOfInodes);
            },
        };
        let inode = if kind == FileType::Directory {
            Inode::new_dir(n, mode)
        } else {
            Inode::new_file(n, mode)
        };
        self.inodes.set(n, Some(inode));
        let name = parts[last].clone();
        proof {
            crate::path::lemma_segments_are_names(path@);
            assert(is_name(segs[last as int]));
        }
        match &mut self.inodes[parent] {
            Some(dir) => {
                insert_entry(&mut dir.children, name, n, Ghost(self.next_inode as nat));
            },
            None => {},
        }
        proof {
            let post = self@;
            assert forall|i: int| 0 <= i < post.next_inode implies inode_wf(#[trigger] post.file(i), i, post.next_inode) by {
                if i != n && i != parent {
                    assert(inode_wf(pre.file(i), i, pre.next_inode));
                    assert forall|k: int| 0 <= k < post.file(i).children@.len() implies (#[trigger] post.file(i).children@[k]).inode < post.next_inode by {
                    }
                }
            }
            assert forall|fd: int| 0 <= fd < MAX_OPEN_FILES && #[trigger] post.open_files[fd] is Some implies {
                let f = post.open_files[fd]->Some_0;
                &&& f.inode < post.next_inode
                &&& f.offset <= post.file(f.inode as int).data@.len()
            } by {
                assert(pre.open_files[fd] is Some);
            }
        }
        Ok(n)
    }

    /// Creates an empty regular file at `path`, whose parent directory must
    /// exist and must not hold the name yet.
    pub fn create(&mut self, path: &str, mode: FileMode) -> (r: Result<usize, FsError>)
        requires
            old(self).wf(),
        ensures
            final(self).wf(),
            old(self)@.add_spec(path@, FileType::Regular, mode, final(self)@, r),
    {
        self.add_entry(path, FileType::Regular, mode)
    }

    /// Creates an empty directory at `path`, as `create` does a file.
    pub fn mkdir(&mut self, path: &str, mode: FileMode) -> (r: Result<usize, FsError>)
        requires
            old(self).wf(),
        ensures
            final(self).wf(),
            old(self)@.add_spec(path@, FileType::Directory, mode, final(self)@, r),
    {
        self.add_entry(path, FileType::Directory, mode)
    }

    /// The lowest free descriptor slot.
    fn allocate_fd(&self) -> (r: Option<usize>)
        requires
            self.wf(),
        ensures
            r == match first_free_from(self@.open_files, 0) {
                Some(fd) => Some(fd as usize),
                None => None::<usize>,
            },
    {
        let mut i: usize = 0;
        while i < self.open_files.len()
            invariant
                self.wf(),
                i <= self.open_files@.len(),
                first_free_from(self@.open_files, 0) == first_free_from(self@.open_files, i as int),
            decreases self.open_files.len() - i,
        {
            if self.open_files[i].is_none() {
                return Some(i);
            }
            i = i + 1;
        }
        proof {
            lemma_first_free(self@.open_files, i as int);
        }
        None
    }

    /// Opens the file or directory at `path` on the lowest free descriptor,
    /// at offset 0.
    pub fn open(&mut self, path: &str, flags: i32) -> (r: Result<i32, FsError>)
        requires
            old(self).wf(),
        ensures
            final(self).wf(),
            old(self)@.open_spec(path@, flags, final(self)@, r),
    {
        let parts = split_path(path);
        assert(parts@.subrange(0, parts@.len() as int).map_values(|s: String| s@) == segments(path@));
        let inode_num = match self.traverse_path(&parts, parts.len()) {
            Ok(n) => n,
            Err(e) => {
                return Err(e);
            },
        };
        let fd = match self.allocate_fd() {
            Some(fd) => fd,
            None => {
                return Err(FsError::TooManyOpenFiles);
            },
        };
        proof {
            lemma_first_free(self@.open_files, 0);
        }
        let ghost pre = self@;
        self.open_files.set(fd, Some(OpenFile { inode: inode_num, offset: 0, flags }));
        proof {
            let post = self@;
            assert forall|d: int| 0 <= d < MAX_OPEN_FILES && #[trigger] post.open_files[d] is Some implies {
                let g = post.open_files[d]->Some_0;
                &&& g.inode < post.next_inode
                &&& g.offset <= post.file(g.inode as int).data@.len()
            } by {
                if d != fd {
                    assert(pre.open_files[d] is Some);
                }
            }
            lemma_descriptors_only(pre, post);
        }
        Ok(fd as i32)
    }

    /// Closes `fd`; a descriptor out of range or not open is an error.
    pub fn close(&mut self, fd: i32) -> (r: Result<(), FsError>)
        requires
            old(self).wf(),
        ensures
            final(self).wf(),
            old(self)@.close_spec(fd, final(self)@, r),
    {
        if fd < 0 || fd as usize >= self.open_files.len() {
            return Err(FsError::InvalidDescriptor);
        }
        if self.open_files[fd as usize].is_none() {
            return Err(FsError::NotOpen);
        }
        let ghost pre = self@;
        self.open_files.set(fd as usize, None);
        proof {
            let post = self@;
            assert forall|d: int| 0 <= d < MAX_OPEN_FILES && #[trigger] post.open_files[d] is Some implies {
                let g = post.open_files[d]->Some_0;
                &&& g.inode < post.next_inode
                &&& g.offset <= post.file(g.inode as int).data@.len()
            } by {
                assert(pre.open_files[d] is Some);
            }
            lemma_descriptors_only(pre, post);
        }
        Ok(())
    }

    /// Reads from `fd` at its offset into `buf`, as many bytes as fit and the
    /// file still holds, and moves the offset past them.
    pub fn read(&mut self, fd: i32, buf: &mut [u8]) -> (r: Result<usize, FsError>)
        requires
            old(self).wf(),
        ensures
            final(self).wf(),
            old(self)@.read_spec(fd, old(buf)@, final(self)@, final(buf)@, r),
    {
        if fd < 0 || fd as usize >= self.open_files.len() {
            return Err(FsError::InvalidDescriptor);
        }
        let f = match self.open_files[fd as usize] {
            Some(f) => f,
            None => {
                return Err(FsError::NotOpen);
            },
        };
        let inode = match &self.inodes[f.inode] {
            Some(inode) => inode,
            None => {
                return Err(FsError::InvalidInode);
            },
        };
        if !inode.mode.read {
            return Err(FsError::PermissionDenied);
        }
        let start = f.offset;
        let avail = inode.data.len() - start;
        let count = if buf.len() < avail { buf.len() } else { avail };
        let ghost old_buf = buf@;
        let mut k: usize = 0;
        while k < count
            invariant
                k <= count,
                count <= buf@.len(),
                buf@.len() == old_buf.len(),
                start + count <= inode.data@.len(),
                inode.data@.len() <= MAX_FILE_SIZE,
                forall|j: int| 0 <= j < k ==> buf@[j] == inode.data@[start + j],
                forall|j: int| k <= j < buf@.len() ==> buf@[j] == old_buf[j],
            decreases count - k,
        {
            buf[k] = inode.data[start + k];
            k = k + 1;
        }
        assert(buf@ == inode.data@.subrange(start as int, start + count) + old_buf.subrange(count as int, old_buf.len() as int));
        let ghost pre = self@;
        self.open_files.set(fd as usize, Some(OpenFile { offset: start + count, ..f }));
        proof {
            let post = self@;
            assert forall|d: int| 0 <= d < MAX_OPEN_FILES && #[trigger] post.open_files[d] is Some implies {
                let g = post.open_files[d]->Some_0;
                &&& g.inode < post.next_inode
                &&& g.offset <= post.file(g.inode as int).data@.len()
            } by {
                if d != fd {
                    assert(pre.open_files[d] is Some);
                }
            }
            lemma_descriptors_only(pre, post);
        }
        Ok(count)
    }

    /// Writes `buf` to `fd` at its offset, growing the file (zero-filled) as
    /// needed up to its largest size, and moves the offset past it.
    pub fn write(&mut self, fd: i32, buf: &[u8]) -> (r: Result<usize, FsError>)
        requires
            old(self).wf(),
        ensures
            final(self).wf(),
            old(self)@.write_spec(fd, buf@, final(self)@, r),
            r is Ok ==> {
                let f = old(self)@.open_file(fd);
                let ino = final(self)@.file(f.inode as int);
                &&& ino.size >= f.offset + buf@.len()
                &&& ino.data@.subrange(f.offset as int, f.offset + buf@.len()) == buf@
            },
    {
        if fd < 0 || fd as usize >= self.open_files.len() {
            return Err(FsError::InvalidDescriptor);
        }
        let f = match self.open_files[fd as usize] {
            Some(f) => f,
            None => {
                return Err(FsError::NotOpen);
            },
        };
        let ghost pre = self@;
        let n = f.inode;
        let ghost old_data = pre.file(n as int).data@;
        match &self.inodes[n] {
            Some(inode) => {
                if !inode.mode.write {
                    return Err(FsError::PermissionDenied);
                }
                if buf.len() > MAX_FILE_SIZE - f.offset {
                    return Err(FsError::FileTooLarge);
                }
            },
            None => {
                return Err(FsError::InvalidInode);
            },
        }
        match &mut self.inodes[n] {
            Some(inode) => {
                let start = f.offset;
                let end = start + buf.len();
                if end > inode.data.len() {
                    inode.data.resize(end, 0u8);
                }
                let ghost before = *inode;
                let mut k: usize = 0;
                while k < buf.len()
                    invariant
                        inode.inode_num == before.inode_num,
                        inode.file_type == before.file_type,
                        inode.mode == before.mode,
                        inode.size == before.size,
                        inode.children == before.children,
                        k <= buf@.len(),
                        end == start + buf@.len(),
                        start <= old_data.len(),
                        inode.data@.len() == if end > old_data.len() { end as int } else { old_data.len() as int },
                        forall|j: int| 0 <= j < inode.data@.len() ==> #[trigger] inode.data@[j] == if start <= j < start + k {
                            buf@[j - start]
                        } else if j < old_data.len() {
                            old_data[j]
                        } else {
                            0u8
                        },
                    decreases buf.len() - k,
                {
                    inode.data.set(start + k, buf[k]);
                    k = k + 1;
                }
                assert(inode.data@ == written(old_data, start as int, buf@));
                if end > inode.size {
                    inode.size = end;
                }
            },
            None => {},
        }
        self.open_files.set(fd as usize, Some(OpenFile { offset: f.offset + buf.len(), ..f }));
        proof {
            let post = self@;
            assert forall|i: int| 0 <= i < post.next_inode implies inode_wf(#[trigger] post.file(i), i, post.next_inode) by {
                assert(inode_wf(pre.file(i), i, pre.next_inode));
            }
            assert forall|d: int| 0 <= d < MAX_OPEN_FILES && #[trigger] post.open_files[d] is Some implies {
                let g = post.open_files[d]->Some_0;
                &&& g.inode < post.next_inode
                &&& g.offset <= post.file(g.inode as int).data@.len()
            } by {
                assert(pre.open_files[d] is Some);
            }
        }
        Ok(buf.len())
    }

    /// The names in directory `path`, in order.
    pub fn list_dir(&self, path: &str) -> (r: Result<Vec<String>, FsError>)
        requires
            self.wf(),
        ensures
            self@.list_spec(
                path@,
                match r {
                    Ok(v) => Ok(v@.map_values(|s: String| s@)),
                    Err(e) => Err(e),
                },
            ),
    {
        let parts = split_path(path);
        assert(parts@.subrange(0, parts@.len() as int).map_values(|s: String| s@) == segments(path@));
        let inode_num = match self.traverse_path(&parts, parts.len()) {
            Ok(n) => n,
            Err(e) => {
                return Err(e);
            },
        };
        let inode = match &self.inodes[inode_num] {
            Some(inode) => inode,
            None => {
                return Err(FsError::InvalidInode);
            },
        };
        if inode.file_type != FileType::Directory {
            return Err(FsError::NotADirectory);
        }
        let mut names: Vec<String> = Vec::new();
        let mut i: usize = 0;
        while i < inode.children.len()
            invariant
                i <= inode.children@.len(),
                names@.len() == i,
                forall|k: int| 0 <= k < i ==> (#[trigger] names@[k])@ == inode.children@[k].name@,
            decreases inode.children.len() - i,
        {
            names.push(inode.children[i].name.clone());
            i = i + 1;
        }
        assert(names@.map_values(|s: String| s@) == names_of(inode.children@));
        Ok(names)
    }
}

} // verus!

verus! {

/// Closing an open descriptor twice: the first close succeeds and the second
/// fails, for the descriptor is no longer open.
pub proof fn lemma_close_twice(
    s0: FsView,
    fd: i32,
    s1: FsView,
    r1: Result<(), FsError>,
    s2: FsView,
    r2: Result<(), FsError>,
)
    requires
        s0.fd_error(fd) is None,
        s0.close_spec(fd, s1, r1),
        s1.close_spec(fd, s2, r2),
    ensures
        r1 is Ok,
        r2 == Err::<(), FsError>(FsError::NotOpen),
{
}

/// Writing `b` through one descriptor and then reading `b.len()` bytes
/// through a readable descriptor of the same file at the same offset gives
/// back `b`.
pub proof fn lemma_write_then_read(
    s0: FsView,
    wfd: i32,
    b: Seq<u8>,
    s1: FsView,
    wr: Result<usize, FsError>,
    rfd: i32,
    buf: Seq<u8>,
    s2: FsView,
    out: Seq<u8>,
    rr: Result<usize, FsError>,
)
    requires
        s0.write_spec(wfd, b, s1, wr),
        wr is Ok,
        s1.access_error(rfd, false) is None,
        s1.open_file(rfd).inode == s0.open_file(wfd).inode,
        s1.open_file(rfd).offset == s0.open_file(wfd).offset,
        s1.read_spec(rfd, buf, s2, out, rr),
        buf.len() == b.len(),
    ensures
        rr == Ok::<usize, FsError>(b.len() as usize),
        out == b,
{
    let f = s0.open_file(wfd);
    let data = s1.file(f.inode as int).data@;
    assert(data == written(s0.file(f.inode as int).data@, f.offset as int, b));
    assert(out == data.subrange(f.offset as int, f.offset + b.len()) + buf.subrange(b.len() as int, buf.len() as int));
    assert(out == b);
}

/// Two filesystems whose inodes agree on liveness, kind and the name each
/// directory maps to each inode resolve every path alike: resolution does
/// not depend on the order in which entries were added.
pub proof fn lemma_resolve_by_names(a: FsView, b: FsView, cur: int, segs: Seq<Seq<char>>)
    requires
        a.inodes.len() == b.inodes.len(),
        forall|i: int| 0 <= i < a.inodes.len() ==> (#[trigger] a.inodes[i] is Some <==> b.inodes[i] is Some),
        forall|i: int| 0 <= i < a.inodes.len() && #[trigger] a.inodes[i] is Some ==> {
            &&& a.file(i).file_type == b.file(i).file_type
            &&& forall|n: Seq<char>| #[trigger] lookup(a.file(i).children@, n) == lookup(b.file(i).children@, n)
        },
    ensures
        a.resolve(cur, segs) == b.resolve(cur, segs),
    decreases segs.len(),
{
    if segs.len() > 0 && 0 <= cur < a.inodes.len() && a.inodes[cur] is Some {
        assert(lookup(a.file(cur).children@, segs[0]) == lookup(b.file(cur).children@, segs[0]));
        match lookup(a.file(cur).children@, segs[0]) {
            Some(next) => lemma_resolve_by_names(a, b, next as int, segs.drop_first()),
            None => {},
        }
    }
}

/// Whether the filesystem slot holds a well-formed filesystem, if any.
pub open spec fn slot_wf(fs: Option<VirtualFileSystem>) -> bool {
    fs matches Some(v) ==> v.wf()
}

/// The system-call code of a count: the count, or -1 on any error.
pub open spec fn count_code(r: Result<usize, FsError>) -> i64 {
    match r {
        Ok(n) => n as i64,
        Err(_) => -1i64,
    }
}

/// The system-call code of a descriptor: the descriptor, or -1 on any error.
pub open spec fn fd_code(r: Result<i32, FsError>) -> i64 {
    match r {
        Ok(fd) => fd as i64,
        Err(_) => -1i64,
    }
}

/// The system-call code of a plain success: 0, or -1 on any error.
pub open spec fn unit_code(r: Result<(), FsError>) -> i64 {
    match r {
        Ok(_) => 0i64,
        Err(_) => -1i64,
    }
}

/// Opening `p` in the filesystem of a slot: the descriptor, or -1.
pub open spec fn slot_open(pre: Option<VirtualFileSystem>, p: Seq<char>, flags: i32, post: Option<VirtualFileSystem>, r: i64) -> bool {
    match pre {
        None => r == -1 && post is None,
        Some(v) => post is Some && v@.open_spec(p, flags, post->Some_0@, v@.open_result(p)) && r == fd_code(v@.open_result(p)),
    }
}

/// Closing `fd` in the filesystem of a slot: 0, or -1.
pub open spec fn slot_close(pre: Option<VirtualFileSystem>, fd: i32, post: Option<VirtualFileSystem>, r: i64) -> bool {
    match pre {
        None => r == -1 && post is None,
        Some(v) => post is Some && v@.close_spec(fd, post->Some_0@, v@.close_result(fd)) && r == unit_code(v@.close_result(fd)),
    }
}

/// Reading from `fd` into `buf` in the filesystem of a slot, `out` being the
/// buffer afterwards: the count, or -1.
pub open spec fn slot_read(
    pre: Option<VirtualFileSystem>,
    fd: i32,
    buf: Seq<u8>,
    post: Option<VirtualFileSystem>,
    out: Seq<u8>,
    r: i64,
) -> bool {
    match pre {
        None => r == -1 && post is None && out == buf,
        Some(v) => {
            let res = v@.read_result(fd, buf.len());
            post is Some && v@.read_spec(fd, buf, post->Some_0@, out, res) && r == count_code(res)
        },
    }
}

/// Writing `b` to `fd` in the filesystem of a slot: the count, or -1.
pub open spec fn slot_write(pre: Option<VirtualFileSystem>, fd: i32, b: Seq<u8>, post: Option<VirtualFileSystem>, r: i64) -> bool {
    match pre {
        None => r == -1 && post is None,
        Some(v) => {
            let res = v@.write_result(fd, b);
            post is Some && v@.write_spec(fd, b, post->Some_0@, res) && r == count_code(res)
        },
    }
}

/// A filesystem with the root and the seeded entries `/dev`, `/tmp`, `/home`
/// (directories, rwx) and `/hello.txt` (a file, rw-), as inodes 1 to 4.
pub fn init() -> (r: VirtualFileSystem)
    ensures
        r.wf(),
        r@.next_inode == 5,
        r@.file(0).children@.len() == 4,
        lookup(r@.file(0).children@, "dev"@) == Some(1usize),
        lookup(r@.file(0).children@, "tmp"@) == Some(2usize),
        lookup(r@.file(0).children@, "home"@) == Some(3usize),
        lookup(r@.file(0).children@, "hello.txt"@) == Some(4usize),
        is_fresh(r@.file(1), 1, FileType::Directory, rwx()),
        is_fresh(r@.file(2), 2, FileType::Directory, rwx()),
        is_fresh(r@.file(3), 3, FileType::Directory, rwx()),
        is_fresh(r@.file(4), 4, FileType::Regular, FileMode { read: true, write: true, execute: false }),
{
    let mut vfs = VirtualFileSystem::new();
    let dir_mode = FileMode { read: true, write: true, execute: true };
    proof {
        reveal_strlit("/dev");
        reveal_strlit("/tmp");
        reveal_strlit("/home");
        reveal_strlit("/hello.txt");
        reveal_strlit("dev");
        reveal_strlit("tmp");
        reveal_strlit("home");
        reveal_strlit("hello.txt");
        crate::path::lemma_rooted_name("/dev"@);
        crate::path::lemma_rooted_name("/tmp"@);
        crate::path::lemma_rooted_name("/home"@);
        crate::path::lemma_rooted_name("/hello.txt"@);
        assert("/dev"@.subrange(1, 4) == "dev"@);
        assert("/tmp"@.subrange(1, 4) == "tmp"@);
        assert("/home"@.subrange(1, 5) == "home"@);
        assert("/hello.txt"@.subrange(1, 10) == "hello.txt"@);
        assert(segments("/dev"@) == seq!["dev"@]);
        assert(segments("/tmp"@) == seq!["tmp"@]);
        assert(segments("/home"@) == seq!["home"@]);
        assert(segments("/hello.txt"@) == seq!["hello.txt"@]);
        assert(seq!["dev"@].drop_last() == Seq::<Seq<char>>::empty());
        assert(seq!["tmp"@].drop_last() == Seq::<Seq<char>>::empty());
        assert(seq!["home"@].drop_last() == Seq::<Seq<char>>::empty());
        assert(seq!["hello.txt"@].drop_last() == Seq::<Seq<char>>::empty());
        assert("dev"@[0] != "tmp"@[0] && "dev"@[0] != "home"@[0] && "dev"@[0] != "hello.txt"@[0]);
        assert("tmp"@[0] != "home"@[0] && "tmp"@[0] != "hello.txt"@[0] && "home"@.len() != "hello.txt"@.len());
        assert("dev"@ != "tmp"@ && "dev"@ != "home"@ && "dev"@ != "hello.txt"@);
        assert("tmp"@ != "home"@ && "tmp"@ != "hello.txt"@ && "home"@ != "hello.txt"@);
    }
    let r1 = vfs.mkdir("/dev", dir_mode);
    assert(r1 == Ok::<usize, FsError>(1));
    let r2 = vfs.mkdir("/tmp", dir_mode);
    assert(r2 == Ok::<usize, FsError>(2));
    let r3 = vfs.mkdir("/home", dir_mode);
    assert(r3 == Ok::<usize, FsError>(3));
    let r4 = vfs.create("/hello.txt", FileMode { read: true, write: true, execute: false });
    assert(r4 == Ok::<usize, FsError>(4));
    vfs
}

/// Opens `path` in the filesystem of the slot; the mode is not used.
pub fn open(fs: &mut Option<VirtualFileSystem>, path: &str, flags: i32, _mode: u32) -> (r: i64)
    requires
        slot_wf(*old(fs)),
    ensures
        slot_wf(*final(fs)),
        slot_open(*old(fs), path@, flags, *final(fs), r),
{
    match fs {
        Some(v) => match v.open(path, flags) {
            Ok(fd) => fd as i64,
            Err(_) => -1,
        },
        None => -1,
    }
}

/// Closes `fd` in the filesystem of the slot: 0, or -1 on error.
pub fn close(fs: &mut Option<VirtualFileSystem>, fd: i32) -> (r: i64)
    requires
        slot_wf(*old(fs)),
    ensures
        slot_wf(*final(fs)),
        slot_close(*old(fs), fd, *final(fs), r),
{
    match fs {
        Some(v) => match v.close(fd) {
            Ok(_) => 0,
            Err(_) => -1,
        },
        None => -1,
    }
}

/// Reads from `fd` into `buf`: the count read, or -1 on error.
pub fn read(fs: &mut Option<VirtualFileSystem>, fd: i32, buf: &mut [u8]) -> (r: i64)
    requires
        slot_wf(*old(fs)),
    ensures
        slot_wf(*final(fs)),
        slot_read(*old(fs), fd, old(buf)@, *final(fs), final(buf)@, r),
{
    match fs {
        Some(v) => {
            let ghost pre_v = *v;
            let ghost pre_buf = buf@;
            let res = v.read(fd, buf);
            let r: i64 = match res {
                Ok(n) => n as i64,
                Err(_) => -1,
            };
            assert(pre_v@.read_spec(fd, pre_buf, v@, buf@, res));
            assert(r == count_code(res));
            r
        },
        None => -1,
    }
}

/// Writes `buf` to `fd`: the count written, or -1 on error.
pub fn write(fs: &mut Option<VirtualFileSystem>, fd: i32, buf: &[u8]) -> (r: i64)
    requires
        slot_wf(*old(fs)),
    ensures
        slot_wf(*final(fs)),
        slot_write(*old(fs), fd, buf@, *final(fs), r),
{
    match fs {
        Some(v) => match v.write(fd, buf) {
            Ok(n) => n as i64,
            Err(_) => -1,
        },
        None => -1,
    }
}

/// Creates a regular file (rw-) at `path`.
pub fn create_file(fs: &mut Option<VirtualFileSystem>, path: &str) -> (r: Result<(), FsError>)
    requires
        slot_wf(*old(fs)),
    ensures
        slot_wf(*final(fs)),
        match *old(fs) {
            None => r == Err::<(), FsError>(FsError::NotInitialized) && *final(fs) is None,
            Some(v) => *final(fs) is Some && exists|res: Result<usize, FsError>| {
                &&& v@.add_spec(
                    path@,
                    FileType::Regular,
                    FileMode { read: true, write: true, execute: false },
                    (*final(fs))->Some_0@,
                    res,
                )
                &&& r == match res {
                    Ok(_) => Ok::<(), FsError>(()),
                    Err(e) => Err(e),
                }
            },
        },
{
    match fs {
        Some(v) => match v.create(path, FileMode { read: true, write: true, execute: false }) {
            Ok(_) => Ok(()),
            Err(e) => Err(e),
        },
        None => Err(FsError::NotInitialized),
    }
}

/// The names in directory `path`, in order.
pub fn list_directory(fs: &Option<VirtualFileSystem>, path: &str) -> (r: Result<Vec<String>, FsError>)
    requires
        slot_wf(*fs),
    ensures
        match *fs {
            None => r == Err::<Vec<String>, FsError>(FsError::NotInitialized),
            Some(v) => v@.list_spec(
                path@,
                match r {
                    Ok(names) => Ok(names@.map_values(|s: String| s@)),
                    Err(e) => Err(e),
                },
            ),
        },
{
    match fs {
        Some(v) => v.list_dir(path),
        None => Err(FsError::NotInitialized),
    }
}

} // verus!
