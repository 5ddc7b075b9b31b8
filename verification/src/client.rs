use vstd::prelude::*;
use vstd::string::*;
use crate::clock;
use crate::text;

verus! {

/// The record the server returns for one file, in the raw-mode form the
/// client consumes: a nine-bit mode, a link count, owner and group names,
/// the size, the last-modified timestamp, the entry's name and its kind.
#[derive(Clone, Debug)]
pub struct FileInfo {
    pub permissions: u16,
    pub links: u32,
    pub owner: String,
    pub group: String,
    pub size: u64,
    pub modified: String,
    pub name: String,
    pub is_directory: bool,
}

/// A node kind as reported to the kernel.
#[derive(Clone, Copy, Debug, PartialEq, Eq, Structural)]
pub enum FileKind {
    Directory,
    RegularFile,
}

/// The plain-value image of the attribute record a kernel reply carries;
/// all four timestamps are the same instant, in POSIX seconds.
#[derive(Clone, Copy, Debug, PartialEq, Eq, Structural)]
pub struct FileAttrData {
    pub ino: u64,
    pub size: u64,
    pub blocks: u64,
    pub time_secs: i64,
    pub kind: FileKind,
    pub perm: u16,
    pub nlink: u32,
    pub uid: u32,
    pub gid: u32,
    pub rdev: u32,
    pub flags: u32,
    pub blksize: u32,
}

/// One directory entry handed to the kernel: the entry's inode, the
/// offset a reader resumes from after it, its kind and its name.
#[derive(Clone, Debug)]
pub struct DirEntry {
    pub ino: u64,
    pub offset: i64,
    pub kind: FileKind,
    pub name: String,
}

/// The block count reported for a size: the 512-byte blocks rounded up,
/// and at least one.
pub open spec fn spec_blocks(size: int) -> int {
    let b = size / 512 + if size % 512 == 0 {
        0int
    } else {
        1int
    };
    if b == 0 {
        1
    } else {
        b
    }
}

/// Compute the reported block count.
pub fn blocks_of(size: u64) -> (r: u64)
    ensures
        r as int == spec_blocks(size as int),
{
    let b = size / 512 + if size % 512 == 0 {
        0
    } else {
        1
    };
    if b == 0 {
        1
    } else {
        b
    }
}

/// The instant a modified-timestamp string denotes, or `fallback` when it
/// does not parse.
pub open spec fn spec_parse_time(s: Seq<char>, fallback: i64) -> i64 {
    match clock::rfc3339_epoch(s) {
        Some(t) => t,
        None => fallback,
    }
}

/// Parse an RFC 3339 timestamp to POSIX seconds, falling back to the
/// given instant (the current time in the kernel handler).
pub fn parse_time(s: &str, fallback: i64) -> (r: i64)
    ensures
        r == spec_parse_time(s@, fallback),
{
    match clock::parse_rfc3339_epoch(s) {
        Some(t) => t,
        None => fallback,
    }
}

/// An ASCII upper-case letter folded to lower case; anything else kept.
pub open spec fn spec_lower(c: char) -> char {
    if 65 <= c as int && c as int <= 90 {
        ((c as u8) + 32) as char
    } else {
        c
    }
}

/// The character-wise ASCII lower-casing of a sequence.
pub open spec fn lower_of(s: Seq<char>) -> Seq<char> {
    s.map_values(|c: char| spec_lower(c))
}

/// Case-insensitive (ASCII) string comparison.
pub fn eq_ignore_case(a: &str, b: &str) -> (r: bool)
    ensures
        r == (lower_of(a@) == lower_of(b@)),
{
    let na: usize = a.unicode_len();
    let nb: usize = b.unicode_len();
    if na != nb {
        proof {
            if lower_of(a@) == lower_of(b@) {
                assert(lower_of(a@).len() == lower_of(b@).len());
            }
        }
        return false;
    }
    let mut i: usize = 0;
    while i < na
        invariant
            i <= na,
            na == a@.len(),
            na == b@.len(),
            forall|j: int| 0 <= j < i ==> spec_lower(a@[j]) == spec_lower(b@[j]),
        decreases na - i,
    {
        let ca = a.get_char(i);
        let cb = b.get_char(i);
        let la = if ca >= 'A' && ca <= 'Z' {
            ((ca as u8) + 32) as char
        } else {
            ca
        };
        let lb = if cb >= 'A' && cb <= 'Z' {
            ((cb as u8) + 32) as char
        } else {
            cb
        };
        if la != lb {
            proof {
                assert(lower_of(a@)[i as int] == spec_lower(a@[i as int]));
                assert(lower_of(b@)[i as int] == spec_lower(b@[i as int]));
            }
            return false;
        }
        i = i + 1;
    }
    proof {
        assert(lower_of(a@) =~= lower_of(b@));
    }
    true
}

/// Whether every character is an ASCII digit (vacuously true of the
/// empty name).
pub open spec fn all_digits(s: Seq<char>) -> bool {
    forall|j: int| 0 <= j < s.len() ==> 48 <= (#[trigger] s[j]) as int && s[j] as int <= 57
}

/// A spurious kernel lookup: a name common shells probe speculatively —
/// all digits, a "drwx" prefix, or one of a few shell words, compared
/// case-insensitively.
pub open spec fn spec_spurious(name: Seq<char>) -> bool {
    ||| all_digits(name)
    ||| text::has_prefix_spec(name, "drwx"@)
    ||| lower_of(name) == lower_of("total"@)
    ||| lower_of(name) == lower_of("echo"@)
    ||| lower_of(name) == lower_of("cat"@)
    ||| lower_of(name) == lower_of("ls"@)
    ||| lower_of(name) == lower_of("mkdir"@)
    ||| lower_of(name) == lower_of("rmdir"@)
}

/// Decide the spurious-lookup filter.
pub fn is_spurious_name(name: &str) -> (r: bool)
    ensures
        r == spec_spurious(name@),
{
    let n: usize = name.unicode_len();
    let mut digits = true;
    let mut i: usize = 0;
    while i < n
        invariant
            i <= n,
            n == name@.len(),
            digits == (forall|j: int|
                0 <= j < i ==> 48 <= (#[trigger] name@[j]) as int && name@[j] as int <= 57),
        decreases n - i,
    {
        let c = name.get_char(i);
        if !(c >= '0' && c <= '9') {
            digits = false;
        }
        i = i + 1;
    }
    digits || text::has_prefix(name, "drwx") || eq_ignore_case(name, "total") || eq_ignore_case(
        name,
        "echo",
    ) || eq_ignore_case(name, "cat") || eq_ignore_case(name, "ls") || eq_ignore_case(name, "mkdir")
        || eq_ignore_case(name, "rmdir")
}

/// The start of the slice a read reply returns: the offset clamped into
/// the body.
pub open spec fn read_start(len: int, offset: int) -> int {
    if offset < 0 {
        0
    } else if offset > len {
        len
    } else {
        offset
    }
}

/// The end of the slice a read reply returns: `offset + size` clamped to
/// the body's length.
pub open spec fn read_end(len: int, offset: int, size: int) -> int {
    if read_start(len, offset) + size > len {
        len
    } else {
        read_start(len, offset) + size
    }
}

/// Slice a response body for a kernel read: the bytes from the clamped
/// offset up to `offset + size`, with the end clamped to the body length.
pub fn read_slice(content: &Vec<u8>, offset: i64, size: u32) -> (r: Vec<u8>)
    ensures
        r@ == content@.subrange(
            read_start(content@.len() as int, offset as int),
            read_end(content@.len() as int, offset as int, size as int),
        ),
{
    let len: usize = content.len();
    let start: usize = if offset < 0 {
        0
    } else if offset as u64 > len as u64 {
        len
    } else {
        offset as usize
    };
    let avail: usize = len - start;
    let want: usize = if (size as u64) > (avail as u64) {
        avail
    } else {
        size as usize
    };
    let end: usize = start + want;
    let mut out: Vec<u8> = Vec::new();
    let mut i: usize = start;
    while i < end
        invariant
            start <= i <= end,
            end <= len,
            len == content@.len(),
            out@ == content@.subrange(start as int, i as int),
        decreases end - i,
    {
        let b = content[i];
        proof {
            assert(content@.subrange(start as int, i + 1) =~= content@.subrange(
                start as int,
                i as int,
            ).push(b));
        }
        out.push(b);
        i = i + 1;
    }
    proof {
        assert(start as int == read_start(len as int, offset as int));
        assert(end as int == read_end(len as int, offset as int, size as int));
    }
    out
}

/// The first stored path equal to `p`, searched from position `k`.
pub open spec fn path_index(paths: Seq<String>, k: int, p: Seq<char>) -> Option<int>
    decreases paths.len() - k,
{
    if k < 0 || k >= paths.len() {
        None
    } else if paths[k]@ == p {
        Some(k)
    } else {
        path_index(paths, k + 1, p)
    }
}

/// The client side of the mount: the server's base URL, the bearer
/// token, the inode-to-path bijection (inode `i` maps to `paths[i - 1]`,
/// the root path "" pinned to inode 1), the recorded parent inode of each
/// path, and the identity the kernel reports for every node.
pub struct RemoteFS {
    pub base_url: String,
    pub token: String,
    pub paths: Vec<String>,
    pub parent_of: Vec<Option<u64>>,
    pub uid: u32,
    pub gid: u32,
}

impl RemoteFS {
    /// The map invariant: the root path "" sits at inode 1 with no
    /// parent, paths are registered at most once, and every recorded
    /// parent inode carries the path's textual parent.
    pub open spec fn wf(self) -> bool {
        &&& self.paths@.len() >= 1
        &&& self.paths@[0]@ == Seq::<char>::empty()
        &&& self.parent_of@.len() == self.paths@.len()
        &&& self.parent_of@[0] is None
        &&& forall|i: int, j: int| 0 <= i < j < self.paths@.len() ==> self.paths@[i]@ != self.paths@[j]@
        &&& forall|i: int|
            0 <= i < self.parent_of@.len() ==> (match #[trigger] self.parent_of@[i] {
                Some(q) => 1 <= q as int <= self.paths@.len() && self.paths@[q as int - 1]@
                    == text::parent_part(self.paths@[i]@),
                None => true,
            })
    }

    /// A fresh map holding only the root.
    pub fn new(base_url: String, token: String, uid: u32, gid: u32) -> (r: Self)
        ensures
            r.wf(),
            r.base_url == base_url,
            r.token == token,
            r.uid == uid,
            r.gid == gid,
            r.paths@.len() == 1,
    {
        let mut paths: Vec<String> = Vec::new();
        paths.push(String::new());
        let mut parent_of: Vec<Option<u64>> = Vec::new();
        parent_of.push(None);
        RemoteFS { base_url, token, paths, parent_of, uid, gid }
    }

    /// The index of a registered path, if any.
    fn find_path(&self, path: &str) -> (r: Option<usize>)
        ensures
            (match r {
                Some(i) => Some(i as int),
                None => None::<int>,
            }) == path_index(self.paths@, 0, path@),
            r matches Some(i) ==> i < self.paths@.len() && self.paths@[i as int]@ == path@,
    {
        let n: usize = self.paths.len();
        let mut k: usize = 0;
        while k < n
            invariant
                k <= n,
                n == self.paths@.len(),
                path_index(self.paths@, k as int, path@) == path_index(self.paths@, 0, path@),
            decreases n - k,
        {
            if text::str_eq(self.paths[k].as_str(), path) {
                return Some(k);
            }
            k = k + 1;
        }
        None
    }

    /// The inode a path is registered under, if any.
    pub fn exist_path(&mut self, path: &str) -> (r: Option<u64>)
        requires
            old(self).paths@.len() < usize::MAX,
        ensures
            *final(self) == *old(self),
            r == (match path_index(old(self).paths@, 0, path@) {
                Some(i) => Some((i + 1) as u64),
                None => None::<u64>,
            }),
    {
        match self.find_path(path) {
            Some(i) => Some((i as u64) + 1),
            None => None,
        }
    }

    /// The path registered under an inode, if any.
    pub fn get_path(&self, ino: u64) -> (r: Option<String>)
        ensures
            r is Some <==> 1 <= ino as int <= self.paths@.len(),
            r matches Some(p) ==> p@ == self.paths@[ino as int - 1]@,
    {
        let n: usize = self.paths.len();
        if ino >= 1 && ino - 1 < n as u64 {
            Some(self.paths[(ino - 1) as usize].clone())
        } else {
            None
        }
    }

    /// Compose a child path under a parent path, treating "/" specially
    /// so no double slash appears.
    pub fn join_path(parent: &str, name: &str) -> (r: String)
        ensures
            r@ == if parent@ == "/"@ {
                seq!['/'] + name@
            } else {
                parent@ + seq!['/'] + name@
            },
    {
        if text::str_eq(parent, "/") {
            let r = text::concat_str("/", name);
            proof {
                reveal_strlit("/");
                assert(r@ =~= seq!['/'] + name@);
            }
            r
        } else {
            text::join_slash(parent, name)
        }
    }

    /// Register a path: a registered path keeps its inode; a fresh one is
    /// appended under the next inode, recording its parent inode exactly
    /// when the path has a '/'-parent that is already registered.
    pub fn register_path(&mut self, path: &str) -> (r: u64)
        requires
            old(self).wf(),
            old(self).paths@.len() < usize::MAX,
        ensures
            final(self).wf(),
            final(self).base_url == old(self).base_url,
            final(self).token == old(self).token,
            final(self).uid == old(self).uid,
            final(self).gid == old(self).gid,
            match path_index(old(self).paths@, 0, path@) {
                Some(i) => r == i + 1 && *final(self) == *old(self),
                None => {
                    &&& r == old(self).paths@.len() + 1
                    &&& final(self).paths@.len() == old(self).paths@.len() + 1
                    &&& final(self).paths@.last()@ == path@
                    &&& (forall|j: int|
                        0 <= j < old(self).paths@.len() ==> final(self).paths@[j] == old(
                            self,
                        ).paths@[j])
                    &&& final(self).parent_of@ == old(self).parent_of@.push(
                        if path@.contains('/') {
                            match path_index(old(self).paths@, 0, text::parent_part(path@)) {
                                Some(pi) => Some((pi + 1) as u64),
                                None => None::<u64>,
                            }
                        } else {
                            None::<u64>
                        },
                    )
                },
            },
    {
        match self.find_path(path) {
            Some(i) => {
                return (i as u64) + 1;
            },
            None => {},
        }
        let ino = (self.paths.len() as u64) + 1;
        let has_slash = text::char_in(path, '/');
        let parent_ino: Option<u64> = if has_slash {
            let parts = text::split_at_last_slash(path);
            match self.find_path(parts.0.as_str()) {
                Some(pi) => Some((pi as u64) + 1),
                None => None,
            }
        } else {
            None
        };
        self.paths.push(path.to_owned());
        self.parent_of.push(parent_ino);
        proof {
            let a = *old(self);
            let b = *self;
            assert forall|i: int, j: int|
                0 <= i < j < b.paths@.len() implies b.paths@[i]@ != b.paths@[j]@ by {
                if j < a.paths@.len() {
                } else {
                    crate::client::lemma_path_index_none(a.paths@, 0, path@);
                    assert(a.paths@[i]@ != path@);
                }
            }
            assert forall|i: int|
                0 <= i < b.parent_of@.len() implies (match #[trigger] b.parent_of@[i] {
                Some(q) => 1 <= q as int <= b.paths@.len() && b.paths@[q as int - 1]@
                    == text::parent_part(b.paths@[i]@),
                None => true,
            }) by {
                if i < a.parent_of@.len() {
                    assert(b.parent_of@[i] == a.parent_of@[i]);
                } else {
                    assert(b.parent_of@[i] == parent_ino);
                }
            }
        }
        ino
    }
}


/// What a lookup decides before any network request: refuse a spurious
/// name outright, refuse an unknown parent, or name the path to ask the
/// server about.
pub enum LookupStep {
    Spurious,
    Unknown,
    Ask(String),
}

impl RemoteFS {
    /// The synthetic attributes of the root directory, inode 1.
    pub fn root_attr(&self, now: i64) -> (r: FileAttrData)
        ensures
            r == (FileAttrData {
                ino: 1,
                size: 0,
                blocks: 1,
                time_secs: now,
                kind: FileKind::Directory,
                perm: 0o755,
                nlink: 1,
                uid: self.uid,
                gid: self.gid,
                rdev: 0,
                flags: 0,
                blksize: 512,
            }),
    {
        FileAttrData {
            ino: 1,
            size: 0,
            blocks: 1,
            time_secs: now,
            kind: FileKind::Directory,
            perm: 0o755,
            nlink: 1,
            uid: self.uid,
            gid: self.gid,
            rdev: 0,
            flags: 0,
            blksize: 512,
        }
    }

    /// The attribute record built from a server-reported file: the block
    /// count is the rounded-up number of 512-byte blocks (at least one)
    /// and the timestamps come from the reported modified instant, with
    /// `now` as the fallback for an unparsable one.
    pub fn attr_from_info(&self, ino: u64, info: &FileInfo, now: i64) -> (r: FileAttrData)
        ensures
            r.ino == ino,
            r.size == info.size,
            r.blocks as int == spec_blocks(info.size as int),
            r.time_secs == spec_parse_time(info.modified@, now),
            r.kind == (if info.is_directory {
                FileKind::Directory
            } else {
                FileKind::RegularFile
            }),
            r.perm == info.permissions,
            r.nlink == info.links,
            r.uid == self.uid,
            r.gid == self.gid,
            r.rdev == 0,
            r.flags == 0,
            r.blksize == 512,
    {
        FileAttrData {
            ino,
            size: info.size,
            blocks: blocks_of(info.size),
            time_secs: parse_time(info.modified.as_str(), now),
            kind: if info.is_directory {
                FileKind::Directory
            } else {
                FileKind::RegularFile
            },
            perm: info.permissions,
            nlink: info.links,
            uid: self.uid,
            gid: self.gid,
            rdev: 0,
            flags: 0,
            blksize: 512,
        }
    }

    /// Compose the path a child-addressing callback asks the server
    /// about, or `None` when the parent inode is unknown.
    pub fn child_path(&self, parent: u64, name: &str) -> (r: Option<String>)
        ensures
            r is Some <==> 1 <= parent as int <= self.paths@.len(),
            r matches Some(p) ==> {
                let pp = self.paths@[parent as int - 1]@;
                p@ == if pp == "/"@ {
                    seq!['/'] + name@
                } else {
                    pp + seq!['/'] + name@
                }
            },
    {
        match self.get_path(parent) {
            Some(pp) => Some(Self::join_path(pp.as_str(), name)),
            None => None,
        }
    }

    /// Decide a lookup before any network request: a spurious name is
    /// refused without a call, an unknown parent is refused, and
    /// otherwise the composed child path is what the server is asked.
    pub fn lookup_prepare(&self, parent: u64, name: &str) -> (r: LookupStep)
        ensures
            spec_spurious(name@) ==> r is Spurious,
            !spec_spurious(name@) && !(1 <= parent as int <= self.paths@.len()) ==> r is Unknown,
            !spec_spurious(name@) && 1 <= parent as int <= self.paths@.len() ==> (r matches
                LookupStep::Ask(p) && {
                let pp = self.paths@[parent as int - 1]@;
                p@ == if pp == "/"@ {
                    seq!['/'] + name@
                } else {
                    pp + seq!['/'] + name@
                }
            }),
    {
        if is_spurious_name(name) {
            return LookupStep::Spurious;
        }
        match self.child_path(parent, name) {
            Some(p) => LookupStep::Ask(p),
            None => LookupStep::Unknown,
        }
    }

    /// Register the path a successful lookup or getattr answered for and
    /// build the entry attributes the reply carries.
    pub fn lookup_complete(&mut self, path: &str, info: &FileInfo, now: i64) -> (r: FileAttrData)
        requires
            old(self).wf(),
            old(self).paths@.len() < usize::MAX,
        ensures
            final(self).wf(),
            final(self).uid == old(self).uid,
            final(self).gid == old(self).gid,
            r.ino as int == (match path_index(old(self).paths@, 0, path@) {
                Some(i) => i + 1,
                None => old(self).paths@.len() as int + 1,
            }),
            path_index(final(self).paths@, 0, path@) == Some(r.ino as int - 1),
            r.size == info.size,
            r.blocks as int == spec_blocks(info.size as int),
            r.time_secs == spec_parse_time(info.modified@, now),
            r.kind == (if info.is_directory {
                FileKind::Directory
            } else {
                FileKind::RegularFile
            }),
            r.perm == info.permissions,
            r.nlink == info.links,
    {
        let ino = self.register_path(path);
        proof {
            if path_index(old(self).paths@, 0, path@) is None {
                assert(self.paths@ =~= old(self).paths@.push(self.paths@.last()));
                lemma_path_index_push(old(self).paths@, self.paths@.last(), path@, 0);
            }
        }
        self.attr_from_info(ino, info, now)
    }

    /// Register the directory a successful mkdir created and build the
    /// synthetic attributes the reply carries.
    pub fn mkdir_complete(&mut self, full_path: &str, now: i64) -> (r: FileAttrData)
        requires
            old(self).wf(),
            old(self).paths@.len() < usize::MAX,
        ensures
            final(self).wf(),
            r.ino as int == (match path_index(old(self).paths@, 0, full_path@) {
                Some(i) => i + 1,
                None => old(self).paths@.len() as int + 1,
            }),
            path_index(final(self).paths@, 0, full_path@) == Some(r.ino as int - 1),
            r.size == 0 && r.blocks == 0 && r.time_secs == now,
            r.kind == FileKind::Directory,
            r.perm == 0o755 && r.nlink == 2,
            r.uid == old(self).uid && r.gid == old(self).gid,
            r.rdev == 0 && r.flags == 0 && r.blksize == 512,
    {
        let ino = self.register_path(full_path);
        proof {
            if path_index(old(self).paths@, 0, full_path@) is None {
                assert(self.paths@ =~= old(self).paths@.push(self.paths@.last()));
                lemma_path_index_push(old(self).paths@, self.paths@.last(), full_path@, 0);
            }
        }
        FileAttrData {
            ino,
            size: 0,
            blocks: 0,
            time_secs: now,
            kind: FileKind::Directory,
            perm: 0o755,
            nlink: 2,
            uid: self.uid,
            gid: self.gid,
            rdev: 0,
            flags: 0,
            blksize: 512,
        }
    }

    /// Acknowledge a create callback without a server call: register the
    /// composed path under the parent's path and reply with empty-file
    /// attributes carrying its inode; the first later write creates the
    /// file server-side.
    pub fn create_local(&mut self, parent: u64, name: &str, now: i64) -> (r: Option<FileAttrData>)
        requires
            old(self).wf(),
            old(self).paths@.len() < usize::MAX,
        ensures
            final(self).wf(),
            r is Some <==> 1 <= parent as int <= old(self).paths@.len(),
            r matches Some(a) ==> a.size == 0 && a.blocks == 0 && a.time_secs == now && a.kind
                == FileKind::RegularFile && a.perm == 0o644 && a.nlink == 1 && a.uid == old(
                self,
            ).uid && a.gid == old(self).gid,
            r matches Some(a) ==> ({
                let full = old(self).paths@[parent as int - 1]@ + seq!['/'] + name@;
                &&& a.ino as int == (match path_index(old(self).paths@, 0, full) {
                    Some(i) => i + 1,
                    None => old(self).paths@.len() as int + 1,
                })
                &&& path_index(final(self).paths@, 0, full) == Some(a.ino as int - 1)
            }),
            r is None ==> *final(self) == *old(self),
    {
        let pp = match self.get_path(parent) {
            Some(p) => p,
            None => {
                return None;
            },
        };
        let full_path = text::join_slash(pp.as_str(), name);
        let ino = self.register_path(full_path.as_str());
        proof {
            let full = old(self).paths@[parent as int - 1]@ + seq!['/'] + name@;
            assert(full_path@ == full);
            if path_index(old(self).paths@, 0, full) is None {
                assert(self.paths@ =~= old(self).paths@.push(self.paths@.last()));
                lemma_path_index_push(old(self).paths@, self.paths@.last(), full, 0);
            }
        }
        Some(
            FileAttrData {
                ino,
                size: 0,
                blocks: 0,
                time_secs: now,
                kind: FileKind::RegularFile,
                perm: 0o644,
                nlink: 1,
                uid: self.uid,
                gid: self.gid,
                rdev: 0,
                flags: 0,
                blksize: 512,
            },
        )
    }

    /// Acknowledge a truncate-style setattr locally, without a server
    /// call: the reply carries the requested size (zero when none was
    /// given) and fresh file attributes.
    pub fn setattr_attr(&self, ino: u64, size: Option<u64>, now: i64) -> (r: FileAttrData)
        ensures
            r.ino == ino,
            r.size == (match size {
                Some(s) => s,
                None => 0u64,
            }),
            r.blocks == 0 && r.time_secs == now && r.kind == FileKind::RegularFile && r.perm
                == 0o644 && r.nlink == 1 && r.uid == self.uid && r.gid == self.gid,
    {
        FileAttrData {
            ino,
            size: match size {
                Some(s) => s,
                None => 0,
            },
            blocks: 0,
            time_secs: now,
            kind: FileKind::RegularFile,
            perm: 0o644,
            nlink: 1,
            uid: self.uid,
            gid: self.gid,
            rdev: 0,
            flags: 0,
            blksize: 512,
        }
    }

    /// The inode ".." refers to: the recorded parent, the root falling
    /// back to itself, and an unrecorded parent falling back to the root.
    pub open spec fn parent_inode_of(self, ino: u64) -> u64 {
        if ino == 1 {
            1
        } else {
            match self.parent_of@[ino as int - 1] {
                Some(q) => q,
                None => 1,
            }
        }
    }

    /// The index children start from at this offset: "." and ".." occupy
    /// offsets 1 and 2, so a reader resuming at `offset` continues from
    /// child `offset - 2`.
    pub open spec fn readdir_skip(offset: int) -> int {
        if offset < 2 {
            0
        } else {
            offset - 2
        }
    }

    /// The entries one readdir callback emits: at offset 0 first "." and
    /// ".." (the latter under the recorded parent inode), then the listed
    /// children from index `offset - 2` on, each registered in the inode
    /// map and carrying the offset the kernel resumes from after it.
    pub fn readdir_entries(&mut self, ino: u64, offset: i64, files: &Vec<FileInfo>) -> (r: Option<
        Vec<DirEntry>,
    >)
        requires
            old(self).wf(),
            old(self).paths@.len() + files@.len() < usize::MAX,
            files@.len() + 3 < i64::MAX,
        ensures
            final(self).wf(),
            r is Some <==> 1 <= ino as int <= old(self).paths@.len(),
            r matches Some(es) ==> {
                let base: int = if offset == 0 {
                    2
                } else {
                    0
                };
                let skip = Self::readdir_skip(offset as int);
                let count: int = if skip <= files@.len() {
                    files@.len() - skip
                } else {
                    0
                };
                &&& es@.len() == base + count
                &&& (offset == 0 ==> es@[0].ino == ino && es@[0].offset == 1 && es@[0].kind
                    == FileKind::Directory && es@[0].name@ == "."@ && es@[1].ino == old(
                    self,
                ).parent_inode_of(ino) && es@[1].offset == 2 && es@[1].kind == FileKind::Directory
                    && es@[1].name@ == ".."@)
                &&& (forall|k: int|
                    0 <= k < count ==> {
                        let e = #[trigger] es@[base + k];
                        &&& e.name@ == files@[skip + k].name@
                        &&& e.kind == (if files@[skip + k].is_directory {
                            FileKind::Directory
                        } else {
                            FileKind::RegularFile
                        })
                        &&& e.offset == skip + k + 3
                    })
                &&& (forall|k: int|
                    0 <= k < count ==> {
                        let full = old(self).paths@[ino as int - 1]@ + seq!['/'] + files@[skip
                            + k].name@;
                        path_index(final(self).paths@, 0, full) == Some(
                            (#[trigger] es@[base + k]).ino as int - 1,
                        )
                    })
            },
    {
        let path = match self.get_path(ino) {
            Some(p) => p,
            None => {
                return None;
            },
        };
        let mut es: Vec<DirEntry> = Vec::new();
        if offset == 0 {
            es.push(
                DirEntry { ino, offset: 1, kind: FileKind::Directory, name: ".".to_owned() },
            );
            let parent_ino: u64 = if ino == 1 {
                1
            } else {
                match self.parent_of[(ino - 1) as usize] {
                    Some(q) => q,
                    None => 1,
                }
            };
            es.push(
                DirEntry {
                    ino: parent_ino,
                    offset: 2,
                    kind: FileKind::Directory,
                    name: "..".to_owned(),
                },
            );
        }
        let ghost base: int = if offset == 0 {
            2int
        } else {
            0int
        };
        let n: usize = files.len();
        let skip: usize = if offset < 2 {
            0
        } else if (offset - 2) as u64 >= n as u64 {
            n
        } else {
            (offset - 2) as usize
        };
        proof {
            assert(es@.len() == base);
            if Self::readdir_skip(offset as int) <= files@.len() {
                assert(skip as int == Self::readdir_skip(offset as int));
            } else {
                assert(skip as int == files@.len());
            }
        }
        let mut k: usize = skip;
        while k < n
            invariant
                skip <= k <= n,
                n == files@.len(),
                self.wf(),
                self.paths@.len() >= old(self).paths@.len(),
                self.paths@.len() <= old(self).paths@.len() + (k - skip),
                old(self).paths@.len() + files@.len() < usize::MAX,
                n + 3 < i64::MAX,
                es@.len() == base + (k - skip),
                base == (if offset == 0 {
                    2int
                } else {
                    0int
                }),
                offset == 0 ==> es@.len() >= 2 && es@[0].ino == ino && es@[0].offset == 1
                    && es@[0].kind == FileKind::Directory && es@[0].name@ == "."@ && es@[1].ino
                    == old(self).parent_inode_of(ino) && es@[1].offset == 2 && es@[1].kind
                    == FileKind::Directory && es@[1].name@ == ".."@,
                forall|j: int|
                    0 <= j < k - skip ==> {
                        let e = #[trigger] es@[base + j];
                        &&& e.name@ == files@[skip + j].name@
                        &&& e.kind == (if files@[skip + j].is_directory {
                            FileKind::Directory
                        } else {
                            FileKind::RegularFile
                        })
                        &&& e.offset == skip + j + 3
                    },
                forall|j: int|
                    0 <= j < k - skip ==> {
                        let full = path@ + seq!['/'] + files@[skip + j].name@;
                        path_index(self.paths@, 0, full) == Some(
                            (#[trigger] es@[base + j]).ino as int - 1,
                        )
                    },
                path@ == old(self).paths@[ino as int - 1]@,
            decreases n - k,
        {
            let item = &files[k];
            let full_path = text::join_slash(path.as_str(), item.name.as_str());
            let ghost pre = *self;
            let child_ino = self.register_path(full_path.as_str());
            proof {
                let fullk = path@ + seq!['/'] + files@[k as int].name@;
                assert(full_path@ == fullk);
                if path_index(pre.paths@, 0, fullk) is None {
                    assert(self.paths@ =~= pre.paths@.push(self.paths@.last()));
                    lemma_path_index_push(pre.paths@, self.paths@.last(), fullk, 0);
                }
                assert(path_index(self.paths@, 0, fullk) == Some(child_ino as int - 1));
                assert forall|j: int| 0 <= j < k - skip implies ({
                    let full = path@ + seq!['/'] + files@[skip + j].name@;
                    path_index(self.paths@, 0, full) == Some(
                        (#[trigger] es@[base + j]).ino as int - 1,
                    )
                }) by {
                    let full = path@ + seq!['/'] + files@[skip + j].name@;
                    if path_index(pre.paths@, 0, fullk) is None {
                        lemma_path_index_push(pre.paths@, self.paths@.last(), full, 0);
                    }
                }
            }
            let next_offset: i64 = (k as i64) + 3;
            es.push(
                DirEntry {
                    ino: child_ino,
                    offset: next_offset,
                    kind: if item.is_directory {
                        FileKind::Directory
                    } else {
                        FileKind::RegularFile
                    },
                    name: item.name.clone(),
                },
            );
            k = k + 1;
        }
        Some(es)
    }
}

/// Appending one path leaves every earlier search result in place, and a
/// previously missing path is found at the end exactly when the appended
/// string carries it.
pub proof fn lemma_path_index_push(paths: Seq<String>, x: String, p: Seq<char>, k: int)
    requires
        0 <= k <= paths.len(),
    ensures
        path_index(paths.push(x), k, p) == (match path_index(paths, k, p) {
            Some(i) => Some(i),
            None => if x@ == p {
                Some(paths.len() as int)
            } else {
                None::<int>
            },
        }),
    decreases paths.len() - k,
{
    if k < paths.len() {
        assert(paths.push(x)[k] == paths[k]);
        lemma_path_index_push(paths, x, p, k + 1);
    } else {
        assert(paths.push(x)[k] == x);
        if x@ != p {
            assert(path_index(paths.push(x), k + 1, p) is None);
        }
    }
}

/// A path the index search misses matches no stored path at or after the
/// search start.
pub proof fn lemma_path_index_none(paths: Seq<String>, k: int, p: Seq<char>)
    requires
        0 <= k,
        path_index(paths, k, p) is None,
    ensures
        forall|j: int| k <= j < paths.len() ==> (#[trigger] paths[j])@ != p,
    decreases paths.len() - k,
{
    if k < paths.len() {
        lemma_path_index_none(paths, k + 1, p);
    }
}

} // verus!
