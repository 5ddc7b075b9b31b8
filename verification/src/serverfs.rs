use vstd::prelude::*;
use vstd::string::*;
use crate::auth::User;
use crate::catalog::{contains_path, is_immediate_child, row_for, survives_delete, Catalog,
    FileMetadata};
use crate::error::FsError;
use crate::perm;
use crate::text;
use crate::tree::{added_child, valid_name, FSItem, FileSystem};

verus! {

/// One entry of a directory listing, as the server reports it: a
/// unix-style permission string, a link count (always 1), the owner's
/// username, the group (always "users"), the size in bytes, the
/// last-modified timestamp, the entry's name, and its kind.
#[derive(Clone, Debug)]
pub struct FileInfo {
    pub permissions: String,
    pub links: u32,
    pub owner: String,
    pub group: String,
    pub size: i64,
    pub modified: String,
    pub name: String,
    pub is_directory: bool,
}

impl FileInfo {
    /// Assemble a listing entry; the link count is always 1 and the group
    /// always "users".
    pub fn new(
        permissions: String,
        owner: String,
        size: i64,
        modified: String,
        name: String,
        is_directory: bool,
    ) -> (r: Self)
        ensures
            r.permissions == permissions,
            r.links == 1,
            r.owner == owner,
            r.group@ == "users"@,
            r.size == size,
            r.modified == modified,
            r.name == name,
            r.is_directory == is_directory,
    {
        FileInfo {
            permissions,
            links: 1,
            owner,
            group: "users".to_owned(),
            size,
            modified,
            name,
            is_directory,
        }
    }
}

/// The first stored user carrying this id, searched from position `k`.
pub open spec fn username_search(users: Seq<User>, k: int, id: int) -> Option<Seq<char>>
    decreases users.len() - k,
{
    if k < 0 || k >= users.len() {
        None
    } else if crate::auth::id_of(users[k]) == id {
        Some(users[k].username@)
    } else {
        username_search(users, k + 1, id)
    }
}

/// The username reported for an owner id: the first stored user with the
/// id, or "user" followed by the id in decimal when none is stored.
pub open spec fn username_for(users: Seq<User>, id: int) -> Seq<char> {
    match username_search(users, 0, id) {
        Some(nm) => nm,
        None => seq!['u', 's', 'e', 'r'] + text::dec_of_i64(id),
    }
}

/// The username for an owner id, with the "user<id>" fallback.
pub fn get_username_by_id(users: &Vec<User>, user_id: i64) -> (r: String)
    ensures
        r@ == username_for(users@, user_id as int),
{
    let n: usize = users.len();
    let mut k: usize = 0;
    while k < n
        invariant
            k <= n,
            n == users@.len(),
            username_search(users@, k as int, user_id as int) == username_search(
                users@,
                0,
                user_id as int,
            ),
        decreases n - k,
    {
        let hit = match users[k].user_id {
            Some(v) => v as i64 == user_id,
            None => 0 == user_id,
        };
        if hit {
            proof {
                assert(crate::auth::id_of(users@[k as int]) == user_id as int);
            }
            return users[k].username.clone();
        }
        proof {
            assert(crate::auth::id_of(users@[k as int]) != user_id as int);
        }
        k = k + 1;
    }
    let digits = text::i64_to_string(user_id);
    let r = text::concat_str("user", digits.as_str());
    proof {
        reveal_strlit("user");
        assert(r@ =~= seq!['u', 's', 'e', 'r'] + text::dec_of_i64(user_id as int));
    }
    r
}

/// The size a catalog row records for a content of this length: clamped
/// into the signed range.
pub open spec fn size_i64(len: int) -> int {
    if len <= 0x7fff_ffff_ffff_ffff {
        len
    } else {
        0x7fff_ffff_ffff_ffff
    }
}

/// Clamp a length into the signed 64-bit range.
pub fn clamp_size(len: usize) -> (r: i64)
    ensures
        r as int == size_i64(len as int),
{
    if len as u64 <= 0x7fff_ffff_ffff_ffff {
        len as i64
    } else {
        0x7fff_ffff_ffff_ffff
    }
}

/// What reading `path` as `user_id` yields on the tree `a`.
pub open spec fn read_post(a: FileSystem, r: Result<String, FsError>, path: Seq<char>, user_id: i64) -> bool {
    &&& (a.spec_find(path) is None ==> r == Err::<String, FsError>(FsError::NotFound))
    &&& (a.spec_find(path) matches Some(n) ==> {
                if !a.nodes@[n as int].is_file() {
                    r == Err::<String, FsError>(FsError::Invalid)
                } else {
                    match a.catalog {
                        None => r matches Ok(c) && c@ == a.file_content(n as int),
                        Some(cat) => {
                            let key = a.canon_of(n as int);
                            if contains_path(cat.rows@, key) && !perm::spec_can_read(
                                row_for(cat.rows@, key).user_id,
                                row_for(cat.rows@, key).user_permissions,
                                row_for(cat.rows@, key).others_permissions,
                                user_id,
                            ) {
                                r == Err::<String, FsError>(FsError::Denied)
                            } else {
                                r matches Ok(c) && c@ == a.file_content(n as int)
                            }
                        },
                    }
                }
            })
}

/// The per-row test a listing applies: the row keys an immediate child
/// of directory `d`'s canonical path, and the read rule admits the
/// requester.
pub open spec fn listing_filter(a: FileSystem, d: int, requesting_user_id: i64) -> spec_fn(
    FileMetadata,
) -> bool {
    |m: FileMetadata|
        is_immediate_child(m.path@, a.canon_of(d)) && perm::spec_can_read(
            m.user_id,
            m.user_permissions,
            m.others_permissions,
            requesting_user_id,
        )
}

/// What listing `dir_path` as `requesting_user_id` yields on the tree `a`.
pub open spec fn list_post(a: FileSystem, r: Result<Vec<FileInfo>, FsError>, dir_path: Seq<char>, requesting_user_id: i64, users: Seq<User>) -> bool {
    &&& (a.catalog is None ==> r == Err::<Vec<FileInfo>, FsError>(FsError::Internal))
    &&& (a.catalog matches Some(cat) ==> (match a.spec_find(dir_path) {
                None => r == Err::<Vec<FileInfo>, FsError>(FsError::NotFound),
                Some(d) => {
                    if !a.nodes@[d as int].is_dir() {
                        r == Err::<Vec<FileInfo>, FsError>(FsError::Invalid)
                    } else {
                        let flt = cat.rows@.filter(
                            listing_filter(a, d as int, requesting_user_id),
                        );
                        r matches Ok(v) && v@.len() == flt.len() && forall|k: int|
                            0 <= k < flt.len() ==> info_matches(flt[k], users, #[trigger] v@[k])
                    }
                },
            }))
}

/// What creating directory `name` under `path` (with its catalog row) does
/// to the tree and catalog: `a` before, `b` after.
pub open spec fn mkdir_post(a: FileSystem, b: FileSystem, r: Result<(), FsError>, path: Seq<char>, name: Seq<char>, user_id: i64, permissions: Seq<char>, now: Seq<char>) -> bool {
    &&& (a.spec_find(path) is None ==> r == Err::<(), FsError>(FsError::NotFound)
                && unchanged_fs(a, b))
    &&& (a.spec_find(path) matches Some(d) ==> (match a.dir_write_gate(
                d as int,
                user_id,
            ) {
                Some(e) => r == Err::<(), FsError>(e) && unchanged_fs(a, b),
                None => {
                    if !perm::valid_permissions(permissions) {
                        r == Err::<(), FsError>(FsError::Invalid) && unchanged_fs(a, b)
                    } else if !valid_name(name) {
                        r == Err::<(), FsError>(FsError::Invalid) && unchanged_fs(a, b)
                    } else if !a.nodes@[d as int].is_dir() {
                        r == Err::<(), FsError>(FsError::Invalid) && unchanged_fs(a, b)
                    } else if a.child_named(d as int, name) is Some {
                        r == Err::<(), FsError>(FsError::Duplicate) && unchanged_fs(a, b)
                    } else {
                        &&& added_child(a, b, d, name)
                        &&& b.nodes@.last().is_dir()
                        &&& (match a.catalog {
                            None => b.catalog is None && r is Ok,
                            Some(cat) => {
                                let key = a.child_key(d as int, name);
                                if contains_path(cat.rows@, key) {
                                    r is Ok && catalog_view(b) == catalog_view(a)
                                } else {
                                    &&& r is Ok
                                    &&& b.catalog matches Some(c2)
                                        && c2.rows@.len() == cat.rows@.len() + 1
                                        && c2.rows@.drop_last() == cat.rows@ && new_row_ok(
                                        c2.rows@.last(),
                                        key,
                                        user_id,
                                        permissions,
                                        now,
                                        true,
                                        0,
                                    )
                                }
                            },
                        })
                    }
                },
            }))
}

/// What writing `content` to `path` as `user_id` does to the tree and
/// catalog: `a` before, `b` after.
pub open spec fn write_post(a: FileSystem, b: FileSystem, r: Result<(), FsError>, path: Seq<char>, content: Seq<char>, user_id: i64, permissions: Seq<char>, now: Seq<char>) -> bool {
    &&& (!perm::valid_permissions(permissions) ==> r == Err::<(), FsError>(FsError::Invalid)
                && unchanged_fs(a, b))
    &&& (perm::valid_permissions(permissions) ==> (match a.spec_find(path) {
                Some(n) => {
                    if a.nodes@[n as int].is_file() {
                        &&& r is Ok
                        &&& b.nodes@.len() == a.nodes@.len()
                        &&& (forall|j: int|
                            0 <= j < a.nodes@.len() && j != n ==> a.nodes@[j]
                                == b.nodes@[j])
                        &&& b.nodes@[n as int].is_file()
                        &&& b.nodes@[n as int].spec_name() == a.nodes@[n as int].spec_name()
                        &&& b.nodes@[n as int].spec_parent() == a.nodes@[n as int].spec_parent()
                        &&& b.file_content(n as int) == content
                        &&& (match a.catalog {
                            None => b.catalog is None,
                            Some(cat) => {
                                let key = a.canon_of(n as int);
                                b.catalog matches Some(c2) && c2.rows@.len()
                                    == cat.rows@.len() && (forall|j: int|
                                    0 <= j < cat.rows@.len() && cat.rows@[j].path@ != key
                                        ==> c2.rows@[j] == cat.rows@[j]) && (forall|j: int|
                                    0 <= j < cat.rows@.len() && cat.rows@[j].path@ == key ==> {
                                        let m = c2.rows@[j];
                                        &&& m.size as int == size_i64(content.len() as int)
                                        &&& m.last_modified@ == now
                                        &&& m.path == cat.rows@[j].path
                                        &&& m.user_id == cat.rows@[j].user_id
                                        &&& m.user_permissions == cat.rows@[j].user_permissions
                                        &&& m.group_permissions == cat.rows@[j].group_permissions
                                        &&& m.others_permissions == cat.rows@[j].others_permissions
                                        &&& m.created_at == cat.rows@[j].created_at
                                        &&& m.is_directory == cat.rows@[j].is_directory
                                    })
                            },
                        })
                    } else {
                        r == Err::<(), FsError>(FsError::Invalid) && unchanged_fs(a, b)
                    }
                },
                None => {
                    let par = text::parent_part(path);
                    let base = text::base_part(path);
                    match a.spec_find(par) {
                        None => r == Err::<(), FsError>(FsError::NotFound) && unchanged_fs(a, b),
                        Some(p) => match a.dir_write_gate(p as int, user_id) {
                            Some(e) => r == Err::<(), FsError>(e) && unchanged_fs(a, b),
                            None => {
                                if !valid_name(base) {
                                    r == Err::<(), FsError>(FsError::Invalid) && unchanged_fs(a, b)
                                } else if !a.nodes@[p as int].is_dir() {
                                    r == Err::<(), FsError>(FsError::Invalid) && unchanged_fs(a, b)
                                } else if a.child_named(p as int, base) is Some {
                                    r == Err::<(), FsError>(FsError::Duplicate) && unchanged_fs(a, b)
                                } else {
                                    &&& added_child(a, b, p, base)
                                    &&& b.nodes@.last().is_file()
                                    &&& b.file_content(a.nodes@.len() as int)
                                        == content
                                    &&& (match a.catalog {
                                        None => b.catalog is None && r is Ok,
                                        Some(cat) => {
                                            let key = a.child_key(p as int, base);
                                            if contains_path(cat.rows@, key) {
                                                r is Ok && catalog_view(b) == catalog_view(a)
                                            } else {
                                                &&& r is Ok
                                                &&& b.catalog matches Some(c2)
                                                    && c2.rows@.len() == cat.rows@.len() + 1
                                                    && c2.rows@.drop_last() == cat.rows@
                                                    && new_row_ok(
                                                    c2.rows@.last(),
                                                    key,
                                                    user_id,
                                                    permissions,
                                                    now,
                                                    false,
                                                    size_i64(content.len() as int),
                                                )
                                            }
                                        },
                                    })
                                }
                            },
                        },
                    }
                },
            }))
}

/// What deleting `path` as `user_id` does to the tree and catalog: `a`
/// before, `b` after.
pub open spec fn delete_post(a: FileSystem, b: FileSystem, r: Result<(), FsError>, path: Seq<char>, user_id: i64) -> bool {
    &&& (a.spec_find(path) is None ==> r == Err::<(), FsError>(FsError::NotFound)
                && unchanged_fs(a, b))
    &&& (a.spec_find(path) matches Some(n) ==> (match a.spec_find(
                text::parent_part(path),
            ) {
                None => r == Err::<(), FsError>(FsError::NotFound) && unchanged_fs(a, b),
                Some(pd) => match a.dir_write_gate(pd as int, user_id) {
                    Some(e) => r == Err::<(), FsError>(e) && unchanged_fs(a, b),
                    None => {
                        &&& r is Ok
                        &&& (match a.catalog {
                            None => b.catalog is None,
                            Some(cat) => {
                                let key = a.canon_of(n as int);
                                b.catalog matches Some(c2) && c2.rows@ == (
                                if !contains_path(cat.rows@, key) {
                                    cat.rows@
                                } else if row_for(cat.rows@, key).is_directory {
                                    cat.rows@.filter(|m: FileMetadata| survives_delete(m, key))
                                } else {
                                    cat.rows@.filter(|m: FileMetadata| m.path@ != key)
                                })
                            },
                        })
                        &&& (if n == 0 {
                            b.nodes == a.nodes
                        } else {
                            let p = a.nodes@[n as int].spec_parent()->0;
                            &&& b.nodes@.len() == a.nodes@.len()
                            &&& (forall|j: int|
                                0 <= j < a.nodes@.len() && j != p ==> a.nodes@[j]
                                    == b.nodes@[j])
                            &&& b.nodes@[p as int].is_dir()
                            &&& b.nodes@[p as int].spec_name() == a.nodes@[p as int].spec_name()
                            &&& b.nodes@[p as int].spec_parent() == a.nodes@[p as int].spec_parent()
                            &&& b.nodes@[p as int].spec_children() == a.nodes@[p as int].spec_children().filter(crate::tree::keep_other(n))
                        })
                    },
                },
            }))
}


/// The fallback lookup record for a node without a catalog row: default
/// mode by kind, the in-tree size, no timestamp, and the requester as
/// owner.
pub open spec fn no_row_info(a: FileSystem, n: int, fi: crate::client::FileInfo, requester: Seq<char>) -> bool {
    &&& fi.permissions == (if a.nodes@[n].is_dir() {
        0o755u16
    } else {
        0o644u16
    })
    &&& fi.size as int == (match a.nodes@[n] {
        FSItem::File(f) => f.size as int,
        _ => 0int,
    })
    &&& fi.modified@ == Seq::<char>::empty()
    &&& fi.owner@ == requester
}

/// What a path lookup answers on the tree `a` for `requester`.
pub open spec fn lookup_post(a: FileSystem, r: Result<crate::client::FileInfo, FsError>, path: Seq<char>, requester: Seq<char>, users: Seq<User>) -> bool {
    &&& (a.spec_find(path) is None ==> r == Err::<crate::client::FileInfo, FsError>(
        FsError::NotFound,
    ))
    &&& (a.spec_find(path) matches Some(n) ==> (r matches Ok(fi) && {
        &&& fi.name@ == a.nodes@[n as int].spec_name()
        &&& fi.is_directory == a.nodes@[n as int].is_dir()
        &&& fi.links == 1
        &&& fi.group@ == "users"@
        &&& (match a.catalog {
            Some(cat) => {
                let key = a.canon_of(n as int);
                if contains_path(cat.rows@, key) {
                    let row = row_for(cat.rows@, key);
                    &&& fi.permissions as int == row.user_permissions * 64
                        + row.group_permissions * 8 + row.others_permissions
                    &&& fi.size as int == (if row.size < 0 {
                        0int
                    } else {
                        row.size as int
                    })
                    &&& fi.modified@ == row.last_modified@
                    &&& fi.owner@ == username_for(users, row.user_id as int)
                } else {
                    no_row_info(a, n as int, fi, requester)
                }
            },
            None => no_row_info(a, n as int, fi, requester),
        })
    }))
}

impl FileSystem {
    /// What the permission gate says about a mutation inside directory
    /// `d`: permitted when no catalog is attached or no row covers the
    /// directory (legacy data); otherwise the row must describe a
    /// directory and grant writing to the requester.
    pub open spec fn dir_write_gate(self, d: int, user_id: i64) -> Option<FsError> {
        match self.catalog {
            None => None,
            Some(cat) => {
                let key = self.canon_of(d);
                if !contains_path(cat.rows@, key) {
                    None
                } else {
                    let row = row_for(cat.rows@, key);
                    if !row.is_directory {
                        Some(FsError::Invalid)
                    } else if perm::spec_can_write(
                        row.user_id,
                        row.user_permissions,
                        row.others_permissions,
                        user_id,
                    ) {
                        None
                    } else {
                        Some(FsError::Denied)
                    }
                }
            },
        }
    }

    /// Decide whether `user_id` may mutate inside the directory
    /// `dir_path` resolves to: exactly the `dir_write_gate` verdict, or
    /// `NotFound` when the path does not resolve.
    pub fn check_dir_write_permission(&self, dir_path: &str, user_id: i64) -> (r: Result<
        (),
        FsError,
    >)
        requires
            self.wf(),
        ensures
            self.spec_find(dir_path@) is None ==> r == Err::<(), FsError>(FsError::NotFound),
            self.spec_find(dir_path@) matches Some(d) ==> r == (match self.dir_write_gate(
                d as int,
                user_id,
            ) {
                None => Ok::<(), FsError>(()),
                Some(e) => Err::<(), FsError>(e),
            }),
    {
        let d = match self.find(dir_path) {
            Some(d) => d,
            None => {
                return Err(FsError::NotFound);
            },
        };
        let cat = match &self.catalog {
            Some(c) => c,
            None => {
                return Ok(());
            },
        };
        let key = self.canonical_path(d);
        match cat.find_row(key.as_str()) {
            None => Ok(()),
            Some(i) => {
                proof {
                    crate::catalog::lemma_row_for_unique(cat.rows@, key@, i as int);
                }
                let row = &cat.rows[i];
                if !row.is_directory {
                    Err(FsError::Invalid)
                } else if perm::can_write(
                    row.user_id,
                    row.user_permissions,
                    row.others_permissions,
                    user_id,
                ) {
                    Ok(())
                } else {
                    Err(FsError::Denied)
                }
            },
        }
    }

    /// Read the content of the regular file `path` resolves to, gated by
    /// the catalog's read permission on its row; a path that exists but
    /// names no regular file is `Invalid`, and a missing row permits.
    pub fn read_file(&self, path: &str, user_id: i64) -> (r: Result<String, FsError>)
        requires
            self.wf(),
        ensures
            read_post(*self, r, path@, user_id),
    {
        let n = match self.find(path) {
            Some(n) => n,
            None => {
                return Err(FsError::NotFound);
            },
        };
        let is_file = match &self.nodes[n] {
            FSItem::File(_) => true,
            _ => false,
        };
        if !is_file {
            return Err(FsError::Invalid);
        }
        match &self.catalog {
            None => {},
            Some(cat) => {
                let key = self.canonical_path(n);
                match cat.find_row(key.as_str()) {
                    None => {},
                    Some(i) => {
                        proof {
                            crate::catalog::lemma_row_for_unique(cat.rows@, key@, i as int);
                        }
                        let row = &cat.rows[i];
                        if !perm::can_read(
                            row.user_id,
                            row.user_permissions,
                            row.others_permissions,
                            user_id,
                        ) {
                            return Err(FsError::Denied);
                        }
                    },
                }
            },
        }
        Ok(self.file_content_of(n))
    }
}

/// Whether `fi` is the listing entry for the catalog row `m`: the
/// rendered permission string, one link, the owner's username, the
/// "users" group, the recorded size and timestamp, the base name of the
/// row's key, and the row's kind.
pub open spec fn info_matches(m: FileMetadata, users: Seq<User>, fi: FileInfo) -> bool {
    &&& fi.permissions@ == perm::formatted_permissions(
        m.user_permissions,
        m.group_permissions,
        m.others_permissions,
        m.is_directory,
    )
    &&& fi.links == 1
    &&& fi.owner@ == username_for(users, m.user_id as int)
    &&& fi.group@ == "users"@
    &&& fi.size == m.size
    &&& fi.modified@ == m.last_modified@
    &&& fi.name@ == text::base_part(m.path@)
    &&& fi.is_directory == m.is_directory
}

/// Whether a fresh catalog row carries exactly these fields: the key, the
/// owner, the three permission digits read from the octal string, the
/// size, both timestamps at `now`, and the kind.
pub open spec fn new_row_ok(
    m: FileMetadata,
    key: Seq<char>,
    user_id: i64,
    perms: Seq<char>,
    now: Seq<char>,
    is_dir: bool,
    size: int,
) -> bool {
    &&& m.path@ == key
    &&& m.user_id == user_id
    &&& m.user_permissions == perm::octal_char_val(perms[0])
    &&& m.group_permissions == perm::octal_char_val(perms[1])
    &&& m.others_permissions == perm::octal_char_val(perms[2])
    &&& m.size == size
    &&& m.created_at@ == now
    &&& m.last_modified@ == now
    &&& m.is_directory == is_dir
}

/// The catalog's rows, when one is attached.
pub open spec fn catalog_view(fs: FileSystem) -> Option<Seq<FileMetadata>> {
    match fs.catalog {
        Some(c) => Some(c.rows@),
        None => None,
    }
}

/// Whether nothing observable changed: same arena and same catalog rows.
pub open spec fn unchanged_fs(a: FileSystem, b: FileSystem) -> bool {
    b.nodes@ == a.nodes@ && catalog_view(b) == catalog_view(a)
}

impl FileSystem {
    /// The catalog key a child named `name` of directory `d` gets.
    pub open spec fn child_key(self, d: int, name: Seq<char>) -> Seq<char> {
        if d == 0 {
            name
        } else {
            self.canon_of(d) + seq!['/'] + name
        }
    }

    /// Canonical keys read only names and parent edges, so they survive
    /// any change that preserves those on the original nodes.
    proof fn lemma_canon_stable(a: FileSystem, b: FileSystem, i: int)
        requires
            0 <= i < a.nodes@.len(),
            a.nodes@.len() <= b.nodes@.len(),
            forall|j: int|
                0 <= j < a.nodes@.len() ==> (#[trigger] b.nodes@[j]).spec_name()
                    == a.nodes@[j].spec_name() && b.nodes@[j].spec_parent()
                    == a.nodes@[j].spec_parent(),
        ensures
            b.canon_of(i) == a.canon_of(i),
        decreases i,
    {
        if i > 0 {
            match a.nodes@[i].spec_parent() {
                None => {},
                Some(p) => {
                    if (p as int) < i && p != 0 {
                        FileSystem::lemma_canon_stable(a, b, p as int);
                    }
                },
            }
        }
    }

    /// A non-root node's canonical key is non-empty and has no leading
    /// '/'.
    proof fn lemma_canon_valid(a: FileSystem, i: int)
        requires
            a.wf(),
            0 < i < a.nodes@.len(),
        ensures
            a.canon_of(i).len() > 0,
            a.canon_of(i)[0] != '/',
        decreases i,
    {
        assert(a.node_ok(i));
        match a.nodes@[i].spec_parent() {
            None => {},
            Some(p) => {
                let name = a.nodes@[i].spec_name();
                assert(valid_name(name));
                assert(name[0] != '/') by {
                    if name[0] == '/' {
                        assert(name.contains('/'));
                    }
                }
                if p != 0 {
                    FileSystem::lemma_canon_valid(a, p as int);
                }
            },
        }
    }

    /// List the catalog rows that are immediate children of the directory
    /// `dir_path` resolves to, filtered by the read gate, rendered as
    /// listing entries in catalog order.
    pub fn list_contents_with_metadata(
        &self,
        dir_path: &str,
        requesting_user_id: i64,
        users: &Vec<User>,
    ) -> (r: Result<Vec<FileInfo>, FsError>)
        requires
            self.wf(),
        ensures
            list_post(*self, r, dir_path@, requesting_user_id, users@),
    {
        let cat = match &self.catalog {
            Some(c) => c,
            None => {
                return Err(FsError::Internal);
            },
        };
        let d = match self.find(dir_path) {
            Some(d) => d,
            None => {
                return Err(FsError::NotFound);
            },
        };
        if !self.nodes[d].is_directory() {
            return Err(FsError::Invalid);
        }
        let ghost pred = |m: FileMetadata|
            is_immediate_child(m.path@, self.canon_of(d as int)) && perm::spec_can_read(
                m.user_id,
                m.user_permissions,
                m.others_permissions,
                requesting_user_id,
            );
        let dirkey = self.canonical_path(d);
        let prefix = text::concat_str(dirkey.as_str(), "/");
        proof {
            reveal_strlit("/");
            assert(prefix@ =~= dirkey@ + seq!['/']);
        }
        let dn = dirkey.as_str().unicode_len();
        let dn1 = prefix.as_str().unicode_len();
        let n: usize = cat.rows.len();
        let mut out: Vec<FileInfo> = Vec::new();
        let mut i: usize = 0;
        proof {
            reveal(Seq::filter);
            assert(cat.rows@.take(0).filter(pred) =~= Seq::<FileMetadata>::empty());
        }
        while i < n
            invariant
                i <= n,
                self.wf(),
                self.catalog matches Some(c) && cat == &c,
                n == cat.rows@.len(),
                (d as int) < self.nodes@.len(),
                dirkey@ == self.canon_of(d as int),
                prefix@ == dirkey@ + seq!['/'],
                dn == dirkey@.len(),
                dn1 == prefix@.len(),
                pred == (|m: FileMetadata|
                    is_immediate_child(m.path@, self.canon_of(d as int)) && perm::spec_can_read(
                        m.user_id,
                        m.user_permissions,
                        m.others_permissions,
                        requesting_user_id,
                    )),
                out@.len() == cat.rows@.take(i as int).filter(pred).len(),
                forall|k: int|
                    0 <= k < out@.len() ==> info_matches(
                        cat.rows@.take(i as int).filter(pred)[k],
                        users@,
                        #[trigger] out@[k],
                    ),
            decreases n - i,
        {
            let ghost prev = cat.rows@.take(i as int);
            let row = &cat.rows[i];
            let child_ok: bool;
            if dn == 0 {
                child_ok = !text::char_in(row.path.as_str(), '/');
            } else {
                if text::has_prefix(row.path.as_str(), prefix.as_str()) {
                    let plen = row.path.as_str().unicode_len();
                    let suffix = row.path.as_str().substring_char(dn1, plen);
                    child_ok = !text::char_in(suffix, '/');
                    proof {
                        assert(suffix@ =~= row.path@.skip(dirkey@.len() as int + 1));
                    }
                } else {
                    child_ok = false;
                }
            }
            let can = perm::can_read(
                row.user_id,
                row.user_permissions,
                row.others_permissions,
                requesting_user_id,
            );
            proof {
                reveal(Seq::filter);
                let cur = cat.rows@.take(i + 1);
                assert(cur.drop_last() =~= prev);
                assert(cur.last() == cat.rows@[i as int]);
                assert((child_ok && can) == pred(cur.last()));
                if child_ok && can {
                    assert(cur.filter(pred) =~= prev.filter(pred).push(cur.last()));
                } else {
                    assert(cur.filter(pred) =~= prev.filter(pred));
                }
            }
            if child_ok && can {
                let permstr = perm::format_permissions(
                    row.user_permissions,
                    row.group_permissions,
                    row.others_permissions,
                    row.is_directory,
                );
                let owner = get_username_by_id(users, row.user_id);
                let parts = text::split_at_last_slash(row.path.as_str());
                let info = FileInfo::new(
                    permstr,
                    owner,
                    row.size,
                    row.last_modified.clone(),
                    parts.1,
                    row.is_directory,
                );
                proof {
                    assert(info_matches(cat.rows@[i as int], users@, info));
                }
                out.push(info);
            }
            i = i + 1;
        }
        proof {
            assert(cat.rows@.take(n as int) =~= cat.rows@);
            assert(pred =~= listing_filter(*self, d as int, requesting_user_id));
        }
        Ok(out)
    }


    /// Append a row to the attached catalog: `None` when no catalog is
    /// attached, otherwise whether the key was fresh and the row added.
    fn catalog_insert_row(&mut self, row: FileMetadata) -> (r: Option<bool>)
        requires
            old(self).wf(),
            row.wf(),
        ensures
            final(self).wf(),
            final(self).nodes == old(self).nodes,
            final(self).current == old(self).current,
            final(self).real_path == old(self).real_path,
            final(self).side_effects == old(self).side_effects,
            old(self).catalog is None ==> r is None && final(self).catalog is None,
            old(self).catalog matches Some(cat) ==> {
                if contains_path(cat.rows@, row.path@) {
                    r == Some(false) && catalog_view(*final(self)) == catalog_view(*old(self))
                } else {
                    r == Some(true) && (final(self).catalog matches Some(c2) && c2.rows@
                        == cat.rows@.push(row))
                }
            },
    {
        let ins: Option<bool> = match &mut self.catalog {
            None => None,
            Some(cat) => Some(cat.insert(row)),
        };
        proof {
            FileSystem::lemma_nodes_ok_same(*old(self), *self);
        }
        ins
    }

    /// Update size and timestamp of the attached catalog's row for `key`.
    fn catalog_update_size(&mut self, key: &str, new_size: i64, now: &str)
        requires
            old(self).wf(),
        ensures
            final(self).wf(),
            final(self).nodes == old(self).nodes,
            final(self).current == old(self).current,
            final(self).real_path == old(self).real_path,
            final(self).side_effects == old(self).side_effects,
            old(self).catalog is None ==> final(self).catalog is None,
            old(self).catalog matches Some(cat) ==> final(self).catalog matches Some(c2)
                && c2.rows@.len() == cat.rows@.len() && (forall|j: int|
                0 <= j < cat.rows@.len() && cat.rows@[j].path@ != key@ ==> c2.rows@[j]
                    == cat.rows@[j]) && (forall|j: int|
                0 <= j < cat.rows@.len() && cat.rows@[j].path@ == key@ ==> {
                    let m = c2.rows@[j];
                    &&& m.size == new_size
                    &&& m.last_modified@ == now@
                    &&& m.path == cat.rows@[j].path
                    &&& m.user_id == cat.rows@[j].user_id
                    &&& m.user_permissions == cat.rows@[j].user_permissions
                    &&& m.group_permissions == cat.rows@[j].group_permissions
                    &&& m.others_permissions == cat.rows@[j].others_permissions
                    &&& m.created_at == cat.rows@[j].created_at
                    &&& m.is_directory == cat.rows@[j].is_directory
                }),
    {
        match &mut self.catalog {
            None => {},
            Some(cat) => {
                cat.update_size_mtime(key, new_size, now);
            },
        }
        proof {
            FileSystem::lemma_nodes_ok_same(*old(self), *self);
        }
    }

    /// Remove from the attached catalog what deleting `key` removes: the
    /// row itself and, when it describes a directory, every row under it.
    fn catalog_remove_for(&mut self, key: &str)
        requires
            old(self).wf(),
        ensures
            final(self).wf(),
            final(self).nodes == old(self).nodes,
            final(self).current == old(self).current,
            final(self).real_path == old(self).real_path,
            final(self).side_effects == old(self).side_effects,
            old(self).catalog is None ==> final(self).catalog is None,
            old(self).catalog matches Some(cat) ==> final(self).catalog matches Some(c2)
                && c2.rows@ == (if !contains_path(cat.rows@, key@) {
                cat.rows@
            } else if row_for(cat.rows@, key@).is_directory {
                cat.rows@.filter(|m: FileMetadata| survives_delete(m, key@))
            } else {
                cat.rows@.filter(|m: FileMetadata| m.path@ != key@)
            }),
    {
        match &mut self.catalog {
            None => {},
            Some(cat) => {
                match cat.find_row(key) {
                    None => {},
                    Some(i) => {
                        proof {
                            crate::catalog::lemma_row_for_unique(cat.rows@, key@, i as int);
                        }
                        if cat.rows[i].is_directory {
                            cat.delete_subtree(key);
                        } else {
                            cat.remove_single(key);
                        }
                    },
                }
            },
        }
        proof {
            FileSystem::lemma_nodes_ok_same(*old(self), *self);
        }
    }

    /// The record a path lookup answers, in the raw-mode form the mount
    /// client consumes: the node's own name and kind from the tree, and
    /// mode, owner, size and timestamp from its catalog row; a node
    /// without a row falls back to mode 755 or 644, its in-tree size,
    /// an empty timestamp and the requester as owner.
    pub fn lookup_info(&self, path: &str, requester: &str, users: &Vec<User>) -> (r: Result<
        crate::client::FileInfo,
        FsError,
    >)
        requires
            self.wf(),
        ensures
            lookup_post(*self, r, path@, requester@, users@),
    {
        let n = match self.find(path) {
            Some(n) => n,
            None => {
                return Err(FsError::NotFound);
            },
        };
        let is_dir = self.nodes[n].is_directory();
        let name = self.nodes[n].name().clone();
        let row: Option<FileMetadata> = match &self.catalog {
            Some(cat) => {
                let key = self.canonical_path(n);
                match cat.find_row(key.as_str()) {
                    Some(i) => {
                        proof {
                            crate::catalog::lemma_row_for_unique(cat.rows@, key@, i as int);
                        }
                        Some(cat.rows[i].duplicate())
                    },
                    None => None,
                }
            },
            None => None,
        };
        match row {
            Some(m) => Ok(
                crate::client::FileInfo {
                    permissions: (m.user_permissions * 64 + m.group_permissions * 8
                        + m.others_permissions) as u16,
                    links: 1,
                    owner: get_username_by_id(users, m.user_id),
                    group: "users".to_owned(),
                    size: if m.size < 0 {
                        0
                    } else {
                        m.size as u64
                    },
                    modified: m.last_modified,
                    name,
                    is_directory: is_dir,
                },
            ),
            None => {
                let size: u64 = match &self.nodes[n] {
                    FSItem::File(f) => f.size as u64,
                    _ => 0,
                };
                Ok(
                    crate::client::FileInfo {
                        permissions: if is_dir {
                            0o755
                        } else {
                            0o644
                        },
                        links: 1,
                        owner: requester.to_owned(),
                        group: "users".to_owned(),
                        size,
                        modified: String::new(),
                        name,
                        is_directory: is_dir,
                    },
                )
            },
        }
    }

    /// Create a directory and record its catalog row: the parent's write
    /// gate is consulted first, the permission string must be three octal
    /// digits, the tree refusals of `make_dir` apply, and on success the
    /// catalog (when attached) gains a row under the child's key.  A stale
    /// row already holding the key refuses the insert silently: the create
    /// is still reported successful, with the catalog unchanged.
    pub fn make_dir_metadata(
        &mut self,
        path: &str,
        name: &str,
        user_id: i64,
        permissions: &str,
        now: &str,
    ) -> (r: Result<(), FsError>)
        requires
            old(self).wf(),
        ensures
            final(self).wf(),
            final(self).current == old(self).current,
            final(self).real_path == old(self).real_path,
            final(self).side_effects == old(self).side_effects,
            mkdir_post(*old(self), *final(self), r, path@, name@, user_id, permissions@, now@),
    {
        match self.check_dir_write_permission(path, user_id) {
            Ok(()) => {},
            Err(e) => {
                return Err(e);
            },
        }
        let triple = match perm::parse_permissions(permissions) {
            Some(t) => t,
            None => {
                return Err(FsError::Invalid);
            },
        };
        let d = match self.find(path) {
            Some(x) => x,
            None => {
                return Err(FsError::NotFound);
            },
        };
        match self.make_dir(path, name) {
            Ok(()) => {},
            Err(e) => {
                return Err(e);
            },
        }
        let new_idx = self.nodes.len() - 1;
        proof {
            assert(added_child(*old(self), *self, d, name@));
            assert(new_idx as int == old(self).nodes@.len());
            FileSystem::lemma_canon_stable(*old(self), *self, d as int);
        }
        let key = self.canonical_path(new_idx);
        proof {
            assert(key@ == old(self).child_key(d as int, name@));
            FileSystem::lemma_canon_valid(*self, new_idx as int);
        }
        let mode = triple.0 * 64 + triple.1 * 8 + triple.2;
        proof {
            assert(perm::mode_user(mode) == triple.0 && perm::mode_group(mode) == triple.1
                && perm::mode_others(mode) == triple.2) by (nonlinear_arith)
                requires
                    triple.0 < 8,
                    triple.1 < 8,
                    triple.2 < 8,
                    mode == triple.0 * 64 + triple.1 * 8 + triple.2,
            ;
        }
        let row = FileMetadata::new(key.as_str(), user_id, mode, true, now);
        let ghost mid = *self;
        let _refused = self.catalog_insert_row(row);
        proof {
            assert(self.nodes@ == mid.nodes@);
            assert(added_child(*old(self), *self, d, name@));
            if old(self).catalog is Some {
                let cat = old(self).catalog->0;
                if !contains_path(cat.rows@, key@) {
                    assert(self.catalog is Some && self.catalog->0.rows@ == cat.rows@.push(row));
                    assert(self.catalog->0.rows@.drop_last() =~= cat.rows@);
                }
            }
        }
        Ok(())
    }

    /// Write `content` to `path`: an existing regular file is
    /// overwritten in place (no gate is consulted) and its row's size and
    /// timestamp updated; a path that resolves to anything else is
    /// `Invalid`; an unresolved path creates the file under its textual
    /// parent, gated by the parent's write permission, and records a
    /// fresh catalog row.  The permission string must always be three
    /// octal digits; it only shapes the row of a newly created file.
    pub fn write_file(
        &mut self,
        path: &str,
        content: &str,
        user_id: i64,
        permissions: &str,
        now: &str,
    ) -> (r: Result<(), FsError>)
        requires
            old(self).wf(),
        ensures
            final(self).wf(),
            final(self).current == old(self).current,
            final(self).real_path == old(self).real_path,
            final(self).side_effects == old(self).side_effects,
            write_post(*old(self), *final(self), r, path@, content@, user_id, permissions@, now@),
    {
        let triple = match perm::parse_permissions(permissions) {
            Some(t) => t,
            None => {
                return Err(FsError::Invalid);
            },
        };
        match self.find(path) {
            Some(n) => {
                let is_file = match &self.nodes[n] {
                    FSItem::File(_) => true,
                    _ => false,
                };
                if !is_file {
                    return Err(FsError::Invalid);
                }
                let key = self.canonical_path(n);
                self.set_file_content(n, content);
                let sz = clamp_size(content.unicode_len());
                self.catalog_update_size(key.as_str(), sz, now);
                Ok(())
            },
            None => {
                let parts = text::split_at_last_slash(path);
                match self.check_dir_write_permission(parts.0.as_str(), user_id) {
                    Ok(()) => {},
                    Err(e) => {
                        return Err(e);
                    },
                }
                let p = match self.find(parts.0.as_str()) {
                    Some(x) => x,
                    None => {
                        return Err(FsError::NotFound);
                    },
                };
                match self.make_file(parts.0.as_str(), parts.1.as_str()) {
                    Ok(()) => {},
                    Err(e) => {
                        return Err(e);
                    },
                }
                let ghost base = text::base_part(path@);
                let ghost t1 = *self;
                let new_idx = self.nodes.len() - 1;
                proof {
                    assert(added_child(*old(self), t1, p, base));
                    assert(new_idx as int == old(self).nodes@.len());
                }
                self.set_file_content(new_idx, content);
                proof {
                    assert forall|j: int|
                        0 <= j < old(self).nodes@.len() && j != p implies old(self).nodes@[j]
                        == self.nodes@[j] by {
                        assert(old(self).nodes@[j] == t1.nodes@[j]);
                        assert(t1.nodes@[j] == self.nodes@[j]);
                    }
                    assert((p as int) < new_idx as int);
                    assert(self.nodes@[p as int] == t1.nodes@[p as int]);
                    assert(added_child(*old(self), *self, p, base));
                    FileSystem::lemma_canon_stable(*old(self), *self, p as int);
                }
                let key = self.canonical_path(new_idx);
                proof {
                    assert(key@ == old(self).child_key(p as int, base));
                    FileSystem::lemma_canon_valid(*self, new_idx as int);
                }
                let sz = clamp_size(content.unicode_len());
                let mode = triple.0 * 64 + triple.1 * 8 + triple.2;
                proof {
                    assert(perm::mode_user(mode) == triple.0 && perm::mode_group(mode) == triple.1
                        && perm::mode_others(mode) == triple.2) by (nonlinear_arith)
                        requires
                            triple.0 < 8,
                            triple.1 < 8,
                            triple.2 < 8,
                            mode == triple.0 * 64 + triple.1 * 8 + triple.2,
                    ;
                }
                let mut row = FileMetadata::new(key.as_str(), user_id, mode, false, now);
                row.size = sz;
                let ghost mid = *self;
                let _refused = self.catalog_insert_row(row);
                proof {
                    assert(self.nodes@ == mid.nodes@);
                    assert(added_child(*old(self), *self, p, base));
                    if old(self).catalog is Some {
                        let cat = old(self).catalog->0;
                        if !contains_path(cat.rows@, key@) {
                            assert(self.catalog is Some && self.catalog->0.rows@ == cat.rows@.push(
                                row,
                            ));
                            assert(self.catalog->0.rows@.drop_last() =~= cat.rows@);
                        }
                    }
                }
                Ok(())
            },
        }
    }

    /// Delete the node `path` resolves to, gated by write permission on
    /// its textual parent: the catalog loses the node's row (and, for a
    /// directory row, every row under it), and the node leaves its
    /// parent's child list; deleting the root only runs the catalog side
    /// and leaves the tree alone.
    pub fn delete(&mut self, path: &str, user_id: i64) -> (r: Result<(), FsError>)
        requires
            old(self).wf(),
        ensures
            final(self).wf(),
            final(self).current == old(self).current,
            final(self).real_path == old(self).real_path,
            final(self).side_effects == old(self).side_effects,
            delete_post(*old(self), *final(self), r, path@, user_id),
    {
        let n = match self.find(path) {
            Some(n) => n,
            None => {
                return Err(FsError::NotFound);
            },
        };
        let parts = text::split_at_last_slash(path);
        match self.check_dir_write_permission(parts.0.as_str(), user_id) {
            Ok(()) => {},
            Err(e) => {
                return Err(e);
            },
        }
        let key = self.canonical_path(n);
        self.catalog_remove_for(key.as_str());
        proof {
            assert(self.nodes@ == old(self).nodes@);
            let gkey = old(self).canon_of(n as int);
            assert(key@ == gkey);
            assert((|m: FileMetadata| survives_delete(m, key@)) =~= (|m: FileMetadata|
                survives_delete(m, gkey)));
            assert((|m: FileMetadata| m.path@ != key@) =~= (|m: FileMetadata| m.path@ != gkey));
            if old(self).catalog is Some {
                let cat = old(self).catalog->0;
                assert(self.catalog is Some);
                let c2 = self.catalog->0;
                if !contains_path(cat.rows@, gkey) {
                    assert(c2.rows@ == cat.rows@);
                } else if row_for(cat.rows@, gkey).is_directory {
                    assert(c2.rows@ == cat.rows@.filter(|m: FileMetadata| survives_delete(m, gkey)));
                } else {
                    assert(c2.rows@ == cat.rows@.filter(|m: FileMetadata| m.path@ != gkey));
                }
            }
        }
        if n != 0 {
            proof {
                assert(self.node_ok(n as int));
            }
            match self.nodes[n].parent() {
                Some(p) => {
                    self.detach_child(p, n);
                },
                None => {},
            }
        }
        Ok(())
    }
}

/// PUT then GET: a write that created `path` fresh forces a later read
/// to return exactly the written body, provided the handlers run at the
/// root, the mode grants the writer reading back (as the default 644
/// does), and no stale catalog row hid under the new key.
pub proof fn lemma_put_then_get(
    a: FileSystem,
    b: FileSystem,
    path: Seq<char>,
    content: Seq<char>,
    user_id: i64,
    permissions: Seq<char>,
    now: Seq<char>,
    r2: Result<String, FsError>,
)
    requires
        a.wf(),
        b.wf(),
        a.current == 0,
        b.current == a.current,
        a.nodes@.len() < usize::MAX,
        write_post(a, b, Ok(()), path, content, user_id, permissions, now),
        perm::valid_permissions(permissions),
        a.spec_find(path) is None,
        perm::grants_read(perm::octal_char_val(permissions[0]) as u32),
        (match a.catalog {
            Some(cat) => !contains_path(
                cat.rows@,
                a.child_key(
                    a.spec_find(text::parent_part(path))->0 as int,
                    text::base_part(path),
                ),
            ),
            None => true,
        }),
        read_post(b, r2, path, user_id),
    ensures
        r2 matches Ok(c) && c@ == content,
{
    let par = text::parent_part(path);
    let base = text::base_part(path);
    let fuel = FileSystem::link_fuel();
    let pparts = text::split_slash(par);
    assert(a.spec_find(par) is Some);
    let p = a.spec_find(par)->0;
    assert(a.dir_write_gate(p as int, user_id) is None);
    assert(crate::tree::valid_name(base));
    assert(a.nodes@[p as int].is_dir());
    assert(a.child_named(p as int, base) is None);
    assert(added_child(a, b, p, base));
    assert(a.spec_find(par) == a.resolve_from(pparts, 0, 0, fuel));
    crate::tree::lemma_resolve_in_bounds(a, pparts, 0, 0, fuel);
    assert((p as int) < a.nodes@.len());
    let ni = a.nodes@.len() as usize;

    // the path still resolves through the (unchanged) parent route
    text::lemma_split_parent_base(path);
    if par.len() > 0 {
        crate::tree::lemma_find_preserved_after_add(a, b, p, base, par);
    }
    assert(b.spec_find(par) == Some(p)) by {
        if par.len() == 0 {
            assert(b.resolve_from(text::split_slash(par), 0, 0, fuel) == Some(0usize));
            assert(a.resolve_from(pparts, 0, 0, fuel) == Some(0usize));
        }
    }
    assert(b.resolve_from(pparts, 0, 0, fuel) == Some(p)) by {
        assert(b.spec_find(par) == b.resolve_from(pparts, 0, 0, fuel));
    }

    // one more segment from the parent directory is a child lookup there
    assert(b.nodes@[p as int].is_dir());
    crate::tree::lemma_resolve_append(b, pparts, base, 0, 0, fuel);
    let acs = a.nodes@[p as int].spec_children();
    assert forall|j: int|
        0 <= j < acs.len() implies b.nodes@[(#[trigger] acs[j]) as int].spec_name()
        == a.nodes@[acs[j] as int].spec_name() by {
        assert(a.node_ok(p as int));
        assert((acs[j] as int) < a.nodes@.len());
    }
    crate::tree::lemma_child_search_same(a, b, acs, base, 0);
    crate::tree::lemma_child_search_push(b, acs, ni, base, 0);
    assert(b.child_named(p as int, base) == Some(ni));
    assert(b.spec_find(path) == Some(ni)) by {
        assert(text::split_slash(path) == pparts.push(base));
        assert(b.spec_find(path) == b.resolve_from(pparts.push(base), 0, 0, fuel));
    }

    // the read now lands on the fresh file and its fresh row
    assert(b.nodes@[ni as int].is_file());
    assert(b.file_content(ni as int) == content);
    match a.catalog {
        None => {
            assert(b.catalog is None);
        },
        Some(cat) => {
            let key = a.child_key(p as int, base);
            let c2 = b.catalog->0;
            assert(c2.rows@.len() == cat.rows@.len() + 1 && c2.rows@.drop_last() == cat.rows@
                && new_row_ok(c2.rows@.last(), key, user_id, permissions, now, false, size_i64(
                content.len() as int,
            )));
            assert(b.canon_of(ni as int) == key) by {
                if p != 0 {
                    FileSystem::lemma_canon_stable(a, b, p as int);
                }
            }
            let last = c2.rows@.last();
            crate::catalog::lemma_row_for_unique(c2.rows@, key, c2.rows@.len() - 1);
            assert(row_for(c2.rows@, key) == last);
            assert(perm::spec_can_read(
                last.user_id,
                last.user_permissions,
                last.others_permissions,
                user_id,
            ));
        },
    }
}

/// PUT twice then GET: overwriting an existing file forces a later read
/// to return the second body — the write touches nothing the router
/// reads, so the path resolves to the same node, whose content is now
/// the last body, under the unchanged permissions of its row (which must
/// grant the reader, as they do when the same user wrote it with the
/// default 644).
pub proof fn lemma_overwrite_then_read(
    a: FileSystem,
    b: FileSystem,
    path: Seq<char>,
    content: Seq<char>,
    user_id: i64,
    permissions: Seq<char>,
    now: Seq<char>,
    r2: Result<String, FsError>,
)
    requires
        a.wf(),
        b.wf(),
        b.current == a.current,
        write_post(a, b, Ok(()), path, content, user_id, permissions, now),
        perm::valid_permissions(permissions),
        a.spec_find(path) matches Some(n) && a.nodes@[n as int].is_file(),
        (match a.catalog {
            Some(cat) => contains_path(cat.rows@, a.canon_of(a.spec_find(path)->0 as int))
                ==> perm::spec_can_read(
                row_for(cat.rows@, a.canon_of(a.spec_find(path)->0 as int)).user_id,
                row_for(cat.rows@, a.canon_of(a.spec_find(path)->0 as int)).user_permissions,
                row_for(cat.rows@, a.canon_of(a.spec_find(path)->0 as int)).others_permissions,
                user_id,
            ),
            None => true,
        }),
        read_post(b, r2, path, user_id),
    ensures
        r2 matches Ok(c) && c@ == content,
{
    let n = a.spec_find(path)->0;
    let fuel = FileSystem::link_fuel();
    if path.len() > 0 && path[0] == '/' {
        crate::tree::lemma_resolve_in_bounds(a, text::split_slash(path), 0, 0, fuel);
    } else {
        crate::tree::lemma_resolve_in_bounds(a, text::split_slash(path), 0, a.current, fuel);
    }
    assert((n as int) < a.nodes@.len());
    assert(crate::tree::same_route_shape(a, b)) by {
        assert forall|j: int|
            0 <= j < a.nodes@.len() implies {
            let x = #[trigger] b.nodes@[j];
            let y = a.nodes@[j];
            &&& x.spec_name() == y.spec_name()
            &&& x.spec_parent() == y.spec_parent()
            &&& x.spec_children() == y.spec_children()
            &&& x.is_dir() == y.is_dir()
            &&& x.is_file() == y.is_file()
            &&& (x matches FSItem::SymLink(l) ==> y matches FSItem::SymLink(m) && l.target
                == m.target)
        } by {
            if j == n as int {
                assert(b.nodes@[j].is_file());
                assert(b.nodes@[j].spec_children() =~= a.nodes@[j].spec_children());
            } else {
                assert(a.nodes@[j] == b.nodes@[j]);
            }
        }
    }
    crate::tree::lemma_find_same_shape(a, b, path);
    assert(b.spec_find(path) == Some(n));
    assert(b.nodes@[n as int].is_file());
    assert(b.file_content(n as int) == content);
    match a.catalog {
        None => {
            assert(b.catalog is None);
        },
        Some(cat) => {
            let key = a.canon_of(n as int);
            FileSystem::lemma_canon_stable(a, b, n as int);
            assert(b.canon_of(n as int) == key);
            let c2 = b.catalog->0;
            assert(c2.rows@.len() == cat.rows@.len());
            assert forall|j: int|
                0 <= j < cat.rows@.len() implies (#[trigger] c2.rows@[j]).path
                == cat.rows@[j].path by {
                if cat.rows@[j].path@ == key {
                } else {
                    assert(c2.rows@[j] == cat.rows@[j]);
                }
            }
            if contains_path(cat.rows@, key) {
                let i = choose|i: int| 0 <= i < cat.rows@.len() && (#[trigger] cat.rows@[i]).path@
                    == key;
                crate::catalog::lemma_row_for_unique(cat.rows@, key, i);
                assert(c2.rows@[i].path@ == key);
                crate::catalog::lemma_row_for_unique(c2.rows@, key, i);
                assert(row_for(c2.rows@, key).user_id == row_for(cat.rows@, key).user_id);
                assert(row_for(c2.rows@, key).user_permissions == row_for(
                    cat.rows@,
                    key,
                ).user_permissions);
                assert(row_for(c2.rows@, key).others_permissions == row_for(
                    cat.rows@,
                    key,
                ).others_permissions);
            } else {
                assert(!contains_path(c2.rows@, key)) by {
                    if contains_path(c2.rows@, key) {
                        let i = choose|i: int|
                            0 <= i < c2.rows@.len() && (#[trigger] c2.rows@[i]).path@ == key;
                        assert(cat.rows@[i].path@ == key);
                    }
                }
            }
        },
    }
}

/// mkdir twice: once a directory was created under a path, repeating the
/// same request as the same user is refused as a duplicate — the name now
/// hangs under the parent, whose write permission verdict is unchanged.
pub proof fn lemma_mkdir_twice(
    a: FileSystem,
    b: FileSystem,
    c: FileSystem,
    path: Seq<char>,
    name: Seq<char>,
    user_id: i64,
    permissions: Seq<char>,
    permissions2: Seq<char>,
    now: Seq<char>,
    now2: Seq<char>,
    r2: Result<(), FsError>,
)
    requires
        a.wf(),
        b.wf(),
        b.current == a.current,
        a.nodes@.len() < usize::MAX,
        mkdir_post(a, b, Ok(()), path, name, user_id, permissions, now),
        perm::valid_permissions(permissions2),
        mkdir_post(b, c, r2, path, name, user_id, permissions2, now2),
    ensures
        r2 == Err::<(), FsError>(FsError::Duplicate),
{
    let fuel = FileSystem::link_fuel();
    assert(a.spec_find(path) is Some);
    let d = a.spec_find(path)->0;
    assert(crate::tree::valid_name(name));
    assert(a.nodes@[d as int].is_dir());
    assert(a.child_named(d as int, name) is None);
    assert(added_child(a, b, d, name));
    if path.len() > 0 && path[0] == '/' {
        crate::tree::lemma_resolve_in_bounds(a, text::split_slash(path), 0, 0, fuel);
    } else {
        crate::tree::lemma_resolve_in_bounds(a, text::split_slash(path), 0, a.current, fuel);
    }
    assert((d as int) < a.nodes@.len());
    let ni = a.nodes@.len() as usize;

    crate::tree::lemma_find_preserved_after_add(a, b, d, name, path);
    assert(b.spec_find(path) == Some(d));

    // the parent's write verdict is unchanged by the first call
    match a.catalog {
        None => {
            assert(b.catalog is None);
        },
        Some(cat) => {
            let key = a.child_key(d as int, name);
            let gkey = a.canon_of(d as int);
            FileSystem::lemma_canon_stable(a, b, d as int);
            assert(b.canon_of(d as int) == gkey);
            assert(key != gkey) by {
                if d == 0 {
                } else {
                    FileSystem::lemma_canon_valid(a, d as int);
                    assert(key.len() > gkey.len());
                }
            }
            let c2 = b.catalog->0;
            if contains_path(cat.rows@, key) {
                assert(c2.rows@ == cat.rows@);
            } else {
                assert(c2.rows@.drop_last() == cat.rows@);
                assert(c2.rows@.last().path@ == key);
                assert forall|j: int|
                    0 <= j < cat.rows@.len() implies #[trigger] c2.rows@[j] == cat.rows@[j] by {
                    assert(c2.rows@.drop_last()[j] == cat.rows@[j]);
                }
                assert(contains_path(c2.rows@, gkey) == contains_path(cat.rows@, gkey)) by {
                    if contains_path(cat.rows@, gkey) {
                        let i = choose|i: int|
                            0 <= i < cat.rows@.len() && (#[trigger] cat.rows@[i]).path@ == gkey;
                        assert(c2.rows@[i].path@ == gkey);
                    }
                    if contains_path(c2.rows@, gkey) {
                        let i = choose|i: int|
                            0 <= i < c2.rows@.len() && (#[trigger] c2.rows@[i]).path@ == gkey;
                        assert(i < cat.rows@.len());
                        assert(cat.rows@[i].path@ == gkey);
                    }
                }
                if contains_path(cat.rows@, gkey) {
                    let i = choose|i: int|
                        0 <= i < cat.rows@.len() && (#[trigger] cat.rows@[i]).path@ == gkey;
                    crate::catalog::lemma_row_for_unique(cat.rows@, gkey, i);
                    assert(c2.rows@[i].path@ == gkey);
                    crate::catalog::lemma_row_for_unique(c2.rows@, gkey, i);
                }
            }
        },
    }
    assert(b.dir_write_gate(d as int, user_id) is None);

    // the name is now a child of the parent
    let acs = a.nodes@[d as int].spec_children();
    assert forall|j: int|
        0 <= j < acs.len() implies b.nodes@[(#[trigger] acs[j]) as int].spec_name()
        == a.nodes@[acs[j] as int].spec_name() by {
        assert(a.node_ok(d as int));
        assert((acs[j] as int) < a.nodes@.len());
    }
    crate::tree::lemma_child_search_same(a, b, acs, name, 0);
    crate::tree::lemma_child_search_push(b, acs, ni, name, 0);
    assert(b.child_named(d as int, name) == Some(ni));
}

/// PUT then list the parent: a write that created `path` fresh forces a
/// later listing of its parent directory to carry an entry rendered from
/// the new row — its name, size, mode string and owner.
pub proof fn lemma_write_then_list(
    a: FileSystem,
    b: FileSystem,
    path: Seq<char>,
    content: Seq<char>,
    user_id: i64,
    permissions: Seq<char>,
    now: Seq<char>,
    users: Seq<User>,
    r2: Result<Vec<FileInfo>, FsError>,
)
    requires
        a.wf(),
        b.wf(),
        a.current == 0,
        b.current == a.current,
        a.nodes@.len() < usize::MAX,
        write_post(a, b, Ok(()), path, content, user_id, permissions, now),
        perm::valid_permissions(permissions),
        a.spec_find(path) is None,
        a.catalog is Some,
        !contains_path(
            a.catalog->0.rows@,
            a.child_key(a.spec_find(text::parent_part(path))->0 as int, text::base_part(path)),
        ),
        perm::grants_read(perm::octal_char_val(permissions[0]) as u32),
        list_post(b, r2, text::parent_part(path), user_id, users),
    ensures
        r2 matches Ok(v) && exists|k: int|
            0 <= k < v@.len() && info_matches(b.catalog->0.rows@.last(), users, #[trigger] v@[k]),
{
    broadcast use vstd::seq_lib::group_filter_ensures;

    let par = text::parent_part(path);
    let base = text::base_part(path);
    let fuel = FileSystem::link_fuel();
    let pparts = text::split_slash(par);
    assert(a.spec_find(par) is Some);
    let p = a.spec_find(par)->0;
    assert(crate::tree::valid_name(base));
    assert(a.nodes@[p as int].is_dir());
    assert(added_child(a, b, p, base));
    assert(a.spec_find(par) == a.resolve_from(pparts, 0, 0, fuel));
    crate::tree::lemma_resolve_in_bounds(a, pparts, 0, 0, fuel);
    assert((p as int) < a.nodes@.len());

    // the parent still resolves, to the same directory
    if par.len() > 0 {
        crate::tree::lemma_find_preserved_after_add(a, b, p, base, par);
    }
    assert(b.spec_find(par) == Some(p)) by {
        if par.len() == 0 {
            assert(b.resolve_from(text::split_slash(par), 0, 0, fuel) == Some(0usize));
            assert(a.resolve_from(pparts, 0, 0, fuel) == Some(0usize));
        }
    }
    assert(b.nodes@[p as int].is_dir());

    // the fresh row passes the listing filter for its writer
    let cat = a.catalog->0;
    let key = a.child_key(p as int, base);
    let c2 = b.catalog->0;
    assert(c2.rows@.len() == cat.rows@.len() + 1 && c2.rows@.drop_last() == cat.rows@
        && new_row_ok(c2.rows@.last(), key, user_id, permissions, now, false, size_i64(
        content.len() as int,
    )));
    let last = c2.rows@.last();
    assert(b.canon_of(p as int) == a.canon_of(p as int)) by {
        if p != 0 {
            FileSystem::lemma_canon_stable(a, b, p as int);
        }
    }
    assert(is_immediate_child(last.path@, b.canon_of(p as int))) by {
        let dir = a.canon_of(p as int);
        if p == 0 {
            assert(last.path@ == base);
        } else {
            assert(last.path@ == dir + seq!['/'] + base);
            assert(text::has_prefix_spec(last.path@, dir + seq!['/'])) by {
                assert(last.path@.subrange(0, dir.len() as int + 1) =~= dir + seq!['/']);
            }
            assert(last.path@.skip(dir.len() as int + 1) =~= base);
        }
    }
    assert(listing_filter(b, p as int, user_id)(last));
    assert(last == c2.rows@[c2.rows@.len() - 1]);
    assert(c2.rows@.filter(listing_filter(b, p as int, user_id)).contains(last));
    let flt = c2.rows@.filter(listing_filter(b, p as int, user_id));
    let k = choose|k: int| 0 <= k < flt.len() && flt[k] == last;
    assert(r2 matches Ok(v) && 0 <= k < v@.len() && info_matches(last, users, v@[k]));
}

/// DELETE twice: once a non-root node was deleted, repeating the request
/// refuses with `NotFound` — the detached node is unreachable from the
/// root, and a removal never redirects any route that still answers.
/// (A path resolving to the root itself deletes as a no-op and answers
/// success twice, as the original service did.)
pub proof fn lemma_delete_twice(
    a: FileSystem,
    b: FileSystem,
    c: FileSystem,
    path: Seq<char>,
    user_id: i64,
    user_id2: i64,
    r2: Result<(), FsError>,
)
    requires
        a.wf(),
        b.wf(),
        a.current == 0,
        b.current == a.current,
        delete_post(a, b, Ok(()), path, user_id),
        a.spec_find(path) matches Some(n) && n != 0,
        delete_post(b, c, r2, path, user_id2),
    ensures
        r2 == Err::<(), FsError>(FsError::NotFound),
{
    let fuel = FileSystem::link_fuel();
    let parts = text::split_slash(path);
    let n = a.spec_find(path)->0;
    assert(a.spec_find(path) == a.resolve_from(parts, 0, 0, fuel));
    crate::tree::lemma_resolve_in_bounds(a, parts, 0, 0, fuel);
    assert((n as int) < a.nodes@.len());
    assert(a.node_ok(n as int));
    let p = a.nodes@[n as int].spec_parent()->0;
    assert(a.nodes@[n as int].spec_parent() == Some(p));
    assert(a.nodes@[p as int].is_dir());
    assert(crate::tree::removed_child(a, b, p, n));
    assert(b.spec_find(path) is None) by {
        if b.spec_find(path) is Some {
            let m = b.spec_find(path)->0;
            assert(b.spec_find(path) == b.resolve_from(parts, 0, 0, fuel));
            crate::tree::lemma_resolve_reverse_after_remove(a, b, p, n, parts, 0, 0, fuel);
            assert(a.spec_find(path) == Some(m));
            assert(m == n);
            assert(!crate::tree::in_parent_chain(b, 0, n)) by {
                assert(b.node_ok(0));
            }
            crate::tree::lemma_resolve_avoids_removed(a, b, p, n, parts, 0, 0, fuel);
            assert(!crate::tree::in_parent_chain(b, m, n));
            assert(crate::tree::in_parent_chain(b, n, n));
        }
    }
}

} // verus!
