use vstd::prelude::*;
use vstd::string::*;
use crate::perm;
use crate::text;

verus! {

/// One metadata catalog row, keyed by a path relative to the namespace root
/// with no leading '/': owner, the split permission triple, size, the two
/// RFC 3339 timestamps, and the node kind.
#[derive(Clone, Debug)]
pub struct FileMetadata {
    pub file_id: Option<i64>,
    pub path: String,
    pub user_id: i64,
    pub user_permissions: u32,
    pub group_permissions: u32,
    pub others_permissions: u32,
    pub size: i64,
    pub created_at: String,
    pub last_modified: String,
    pub is_directory: bool,
}

impl FileMetadata {
    /// Every permission digit lies in 0..=7 and the key has no leading '/'.
    pub open spec fn wf(self) -> bool {
        &&& self.user_permissions < 8
        &&& self.group_permissions < 8
        &&& self.others_permissions < 8
        &&& self.path@.len() > 0
        &&& self.path@[0] != '/'
    }

    /// Build a fresh row from a nine-bit octal mode, splitting it into the
    /// owner, group and others digits; size starts at zero and both
    /// timestamps are the given creation instant.
    pub fn new(path: &str, user_id: i64, permissions: u32, is_directory: bool, now: &str) -> (r:
        Self)
        ensures
            r.file_id is None,
            r.path@ == path@,
            r.user_id == user_id,
            r.user_permissions == perm::mode_user(permissions),
            r.group_permissions == perm::mode_group(permissions),
            r.others_permissions == perm::mode_others(permissions),
            r.size == 0,
            r.created_at@ == now@,
            r.last_modified@ == now@,
            r.is_directory == is_directory,
            path@.len() > 0 && path@[0] != '/' ==> r.wf(),
    {
        FileMetadata {
            file_id: None,
            path: path.to_owned(),
            user_id,
            user_permissions: (permissions / 64) % 8,
            group_permissions: (permissions / 8) % 8,
            others_permissions: permissions % 8,
            size: 0,
            created_at: now.to_owned(),
            last_modified: now.to_owned(),
            is_directory,
        }
    }

    /// The nine-bit octal mode reassembled from the three digits.
    pub fn get_octal_permissions(&self) -> (r: u32)
        requires
            self.user_permissions < 8,
            self.group_permissions < 8,
            self.others_permissions < 8,
        ensures
            r == self.user_permissions * 64 + self.group_permissions * 8 + self.others_permissions,
            r < 512,
    {
        self.user_permissions * 64 + self.group_permissions * 8 + self.others_permissions
    }

    /// Replace the last-modified timestamp, leaving every other field as it
    /// was.
    pub fn update_modified_time(&mut self, now: &str)
        ensures
            final(self).last_modified@ == now@,
            final(self).file_id == old(self).file_id,
            final(self).path == old(self).path,
            final(self).user_id == old(self).user_id,
            final(self).user_permissions == old(self).user_permissions,
            final(self).group_permissions == old(self).group_permissions,
            final(self).others_permissions == old(self).others_permissions,
            final(self).size == old(self).size,
            final(self).created_at == old(self).created_at,
            final(self).is_directory == old(self).is_directory,
    {
        self.last_modified = now.to_owned();
    }

    /// An exact copy, stated field by field.
    pub fn duplicate(&self) -> (r: Self)
        ensures
            r == *self,
    {
        FileMetadata {
            file_id: self.file_id,
            path: self.path.clone(),
            user_id: self.user_id,
            user_permissions: self.user_permissions,
            group_permissions: self.group_permissions,
            others_permissions: self.others_permissions,
            size: self.size,
            created_at: self.created_at.clone(),
            last_modified: self.last_modified.clone(),
            is_directory: self.is_directory,
        }
    }
}

/// Whether some row of `rows` is keyed by `path`.
pub open spec fn contains_path(rows: Seq<FileMetadata>, path: Seq<char>) -> bool {
    exists|i: int| 0 <= i < rows.len() && (#[trigger] rows[i]).path@ == path
}

/// The row of `rows` keyed by `path` (meaningful when `contains_path`
/// holds and keys are unique).
pub open spec fn row_for(rows: Seq<FileMetadata>, path: Seq<char>) -> FileMetadata {
    rows[choose|i: int| 0 <= i < rows.len() && (#[trigger] rows[i]).path@ == path]
}

/// With unique keys, any row keyed by `path` is the row `row_for` picks.
pub proof fn lemma_row_for_unique(rows: Seq<FileMetadata>, path: Seq<char>, i: int)
    requires
        forall|a: int, b: int| 0 <= a < b < rows.len() ==> rows[a].path@ != rows[b].path@,
        0 <= i < rows.len(),
        rows[i].path@ == path,
    ensures
        contains_path(rows, path),
        row_for(rows, path) == rows[i],
{
    assert(contains_path(rows, path));
    let k = choose|k: int| 0 <= k < rows.len() && (#[trigger] rows[k]).path@ == path;
    if k != i {
        if k < i {
            assert(rows[k].path@ != rows[i].path@);
        } else {
            assert(rows[i].path@ != rows[k].path@);
        }
    }
}

/// Whether `path` lies strictly under the directory path `dir`, that is,
/// begins with `dir` followed by '/'.
pub open spec fn under_dir(path: Seq<char>, dir: Seq<char>) -> bool {
    text::has_prefix_spec(path, dir + seq!['/'])
}

/// The rows that survive deleting `path` and everything under it.
pub open spec fn survives_delete(m: FileMetadata, path: Seq<char>) -> bool {
    m.path@ != path && !under_dir(m.path@, path)
}

/// Whether `path` names an immediate child of the directory path `dir`:
/// under the root (the empty path) it contains no '/', and otherwise it
/// extends `dir + "/"` by a single further segment.
pub open spec fn is_immediate_child(path: Seq<char>, dir: Seq<char>) -> bool {
    if dir.len() == 0 {
        !path.contains('/')
    } else {
        under_dir(path, dir) && !path.skip(dir.len() as int + 1).contains('/')
    }
}

/// The metadata catalog: the authoritative per-path table of ownership,
/// permissions, sizes and timestamps, one row per path.
pub struct Catalog {
    pub rows: Vec<FileMetadata>,
}

impl Catalog {
    /// Every row is well-formed and no two rows share a key.
    pub open spec fn wf(self) -> bool {
        &&& forall|i: int| 0 <= i < self.rows@.len() ==> (#[trigger] self.rows@[i]).wf()
        &&& forall|i: int, j: int|
            0 <= i < j < self.rows@.len() ==> self.rows@[i].path@ != self.rows@[j].path@
    }

    /// An empty catalog.
    pub fn new() -> (r: Self)
        ensures
            r.wf(),
            r.rows@.len() == 0,
    {
        Catalog { rows: Vec::new() }
    }

    /// The index of the row keyed by `path`, if any.
    pub fn find_row(&self, path: &str) -> (r: Option<usize>)
        ensures
            r matches Some(i) ==> i < self.rows@.len() && self.rows@[i as int].path@ == path@,
            r is None ==> !contains_path(self.rows@, path@),
    {
        let n: usize = self.rows.len();
        let mut i: usize = 0;
        while i < n
            invariant
                i <= n,
                n == self.rows@.len(),
                forall|j: int| 0 <= j < i ==> (#[trigger] self.rows@[j]).path@ != path@,
            decreases n - i,
        {
            if text::str_eq(self.rows[i].path.as_str(), path) {
                return Some(i);
            }
            i = i + 1;
        }
        None
    }

    /// Look a row up by its key; `None` exactly when no row has it.
    pub fn lookup(&self, path: &str) -> (r: Option<FileMetadata>)
        ensures
            r is Some <==> contains_path(self.rows@, path@),
            r matches Some(m) ==> m.path@ == path@ && exists|i: int|
                0 <= i < self.rows@.len() && self.rows@[i] == m,
    {
        match self.find_row(path) {
            Some(i) => {
                let m = self.rows[i].duplicate();
                proof {
                    assert(self.rows@[i as int] == m);
                }
                Some(m)
            },
            None => None,
        }
    }

    /// Insert a fresh row.  Returns true and appends it when no row has its
    /// key yet; otherwise leaves the catalog unchanged and returns false.
    pub fn insert(&mut self, row: FileMetadata) -> (r: bool)
        requires
            old(self).wf(),
            row.wf(),
        ensures
            final(self).wf(),
            r == !contains_path(old(self).rows@, row.path@),
            r ==> final(self).rows@ == old(self).rows@.push(row),
            !r ==> final(self).rows@ == old(self).rows@,
    {
        match self.find_row(row.path.as_str()) {
            Some(_) => false,
            None => {
                self.rows.push(row);
                true
            },
        }
    }

    /// Set the size and last-modified timestamp of the row keyed by `path`,
    /// when there is one; every other row, and the rest of that row, is kept
    /// as it was.
    pub fn update_size_mtime(&mut self, path: &str, new_size: i64, now: &str)
        requires
            old(self).wf(),
        ensures
            final(self).wf(),
            final(self).rows@.len() == old(self).rows@.len(),
            forall|i: int|
                0 <= i < old(self).rows@.len() && old(self).rows@[i].path@ != path@
                    ==> final(self).rows@[i] == old(self).rows@[i],
            forall|i: int|
                0 <= i < old(self).rows@.len() && old(self).rows@[i].path@ == path@ ==> {
                    let m = final(self).rows@[i];
                    &&& m.size == new_size
                    &&& m.last_modified@ == now@
                    &&& m.path == old(self).rows@[i].path
                    &&& m.user_id == old(self).rows@[i].user_id
                    &&& m.user_permissions == old(self).rows@[i].user_permissions
                    &&& m.group_permissions == old(self).rows@[i].group_permissions
                    &&& m.others_permissions == old(self).rows@[i].others_permissions
                    &&& m.created_at == old(self).rows@[i].created_at
                    &&& m.is_directory == old(self).rows@[i].is_directory
                },
    {
        match self.find_row(path) {
            Some(i) => {
                let mut m = self.rows[i].duplicate();
                m.size = new_size;
                m.update_modified_time(now);
                self.rows.set(i, m);
            },
            None => {},
        }
    }

    /// Remove the row keyed by `path` and every row lying under it.
    pub fn delete_subtree(&mut self, path: &str)
        requires
            old(self).wf(),
        ensures
            final(self).wf(),
            final(self).rows@ == old(self).rows@.filter(|m: FileMetadata| survives_delete(m, path@)),
    {
        let ghost pred = |m: FileMetadata| survives_delete(m, path@);
        let prefix = text::concat_str(path, "/");
        proof {
            reveal_strlit("/");
            assert(prefix@ =~= path@ + seq!['/']);
        }
        let n: usize = self.rows.len();
        let mut out: Vec<FileMetadata> = Vec::new();
        let mut i: usize = 0;
        proof {
            reveal(Seq::filter);
            assert(old(self).rows@.take(0).filter(pred) =~= Seq::<FileMetadata>::empty());
        }
        while i < n
            invariant
                i <= n,
                n == self.rows@.len(),
                self.rows@ == old(self).rows@,
                pred == (|m: FileMetadata| survives_delete(m, path@)),
                prefix@ == path@ + seq!['/'],
                out@ == old(self).rows@.take(i as int).filter(pred),
            decreases n - i,
        {
            let ghost prev = old(self).rows@.take(i as int);
            let keep = {
                let row = &self.rows[i];
                !text::str_eq(row.path.as_str(), path) && !text::has_prefix(
                    row.path.as_str(),
                    prefix.as_str(),
                )
            };
            proof {
                reveal(Seq::filter);
                let cur = old(self).rows@.take(i + 1);
                assert(cur.drop_last() =~= prev);
                assert(cur.last() == old(self).rows@[i as int]);
                assert(keep == pred(cur.last()));
                if keep {
                    assert(cur.filter(pred) =~= prev.filter(pred).push(cur.last()));
                } else {
                    assert(cur.filter(pred) =~= prev.filter(pred));
                }
            }
            if keep {
                let m = self.rows[i].duplicate();
                out.push(m);
            }
            i = i + 1;
        }
        proof {
            assert(old(self).rows@.take(n as int) =~= old(self).rows@);
        }
        self.rows = out;
        proof {
            lemma_filter_wf(old(self).rows@, pred);
        }
    }

    /// Remove only the row keyed by `path`, if any.
    pub fn remove_single(&mut self, path: &str)
        requires
            old(self).wf(),
        ensures
            final(self).wf(),
            final(self).rows@ == old(self).rows@.filter(|m: FileMetadata| m.path@ != path@),
    {
        let ghost pred = |m: FileMetadata| m.path@ != path@;
        let n: usize = self.rows.len();
        let mut out: Vec<FileMetadata> = Vec::new();
        let mut i: usize = 0;
        proof {
            reveal(Seq::filter);
            assert(old(self).rows@.take(0).filter(pred) =~= Seq::<FileMetadata>::empty());
        }
        while i < n
            invariant
                i <= n,
                n == self.rows@.len(),
                self.rows@ == old(self).rows@,
                pred == (|m: FileMetadata| m.path@ != path@),
                out@ == old(self).rows@.take(i as int).filter(pred),
            decreases n - i,
        {
            let ghost prev = old(self).rows@.take(i as int);
            let keep = !text::str_eq(self.rows[i].path.as_str(), path);
            proof {
                reveal(Seq::filter);
                let cur = old(self).rows@.take(i + 1);
                assert(cur.drop_last() =~= prev);
                assert(cur.last() == old(self).rows@[i as int]);
                assert(keep == pred(cur.last()));
                if keep {
                    assert(cur.filter(pred) =~= prev.filter(pred).push(cur.last()));
                } else {
                    assert(cur.filter(pred) =~= prev.filter(pred));
                }
            }
            if keep {
                let m = self.rows[i].duplicate();
                out.push(m);
            }
            i = i + 1;
        }
        proof {
            assert(old(self).rows@.take(n as int) =~= old(self).rows@);
        }
        self.rows = out;
        proof {
            lemma_filter_wf(old(self).rows@, pred);
        }
    }
}

/// A filtered sequence of well-formed, uniquely keyed rows keeps both
/// properties: filtering only removes rows.
proof fn lemma_filter_wf(rows: Seq<FileMetadata>, pred: spec_fn(FileMetadata) -> bool)
    requires
        forall|i: int| 0 <= i < rows.len() ==> (#[trigger] rows[i]).wf(),
        forall|i: int, j: int| 0 <= i < j < rows.len() ==> rows[i].path@ != rows[j].path@,
    ensures
        forall|i: int| 0 <= i < rows.filter(pred).len() ==> (#[trigger] rows.filter(pred)[i]).wf(),
        forall|i: int, j: int|
            0 <= i < j < rows.filter(pred).len() ==> rows.filter(pred)[i].path@ != rows.filter(
                pred,
            )[j].path@,
    decreases rows.len(),
{
    reveal(Seq::filter);
    if rows.len() > 0 {
        let head = rows.drop_last();
        assert(forall|i: int, j: int|
            0 <= i < j < head.len() ==> head[i].path@ != head[j].path@);
        lemma_filter_wf(head, pred);
        text::lemma_filter_elems(head, pred);
        let f = rows.filter(pred);
        let fh = head.filter(pred);
        if pred(rows.last()) {
            assert(f =~= fh.push(rows.last()));
            assert forall|i: int| 0 <= i < fh.len() implies #[trigger] fh[i].path@
                != rows.last().path@ by {
                let k = choose|k: int| 0 <= k < head.len() && head[k] == fh[i];
                assert(rows[k].path@ != rows[rows.len() - 1].path@);
            }
        } else {
            assert(f =~= fh);
        }
    }
}

} // verus!
