use vstd::prelude::*;
use vstd::string::*;
use crate::error::FsError;
use crate::text;

verus! {

/// A regular file node: its name, its content, the content's length, and
/// the arena index of its parent directory.
pub struct File {
    pub name: String,
    pub size: usize,
    pub content: String,
    pub parent: Option<usize>,
}

/// A directory node: its name, the arena index of its parent, and the
/// arena indices of its children in creation order.
pub struct Directory {
    pub name: String,
    pub parent: Option<usize>,
    pub children: Vec<usize>,
}

/// A symbolic link node: its name, the target path recorded literally,
/// and the arena index of its parent.
pub struct SymLink {
    pub name: String,
    pub target: String,
    pub parent: Option<usize>,
}

/// The child-list filter that drops one index: everything but `n` stays.
pub open spec fn keep_other(n: usize) -> spec_fn(usize) -> bool {
    |x: usize| x != n
}

/// One node of the namespace tree.  Nodes live in an arena owned by the
/// `FileSystem` and refer to each other by index; the parent edge is the
/// weak back-reference of the tree shape.
pub enum FSItem {
    File(File),
    Directory(Directory),
    SymLink(SymLink),
}

impl FSItem {
    /// The node's name.
    pub open spec fn spec_name(self) -> Seq<char> {
        match self {
            FSItem::File(f) => f.name@,
            FSItem::Directory(d) => d.name@,
            FSItem::SymLink(s) => s.name@,
        }
    }

    /// The node's parent index.
    pub open spec fn spec_parent(self) -> Option<usize> {
        match self {
            FSItem::File(f) => f.parent,
            FSItem::Directory(d) => d.parent,
            FSItem::SymLink(s) => s.parent,
        }
    }

    /// The node's child indices; empty for anything but a directory.
    pub open spec fn spec_children(self) -> Seq<usize> {
        match self {
            FSItem::Directory(d) => d.children@,
            _ => Seq::empty(),
        }
    }

    pub open spec fn is_dir(self) -> bool {
        self is Directory
    }

    pub open spec fn is_file(self) -> bool {
        self is File
    }

    pub open spec fn is_link(self) -> bool {
        self is SymLink
    }

    /// The name of the node, whichever variant it is.
    pub fn name(&self) -> (r: &String)
        ensures
            r@ == self.spec_name(),
    {
        match self {
            FSItem::File(f) => &f.name,
            FSItem::Directory(d) => &d.name,
            FSItem::SymLink(s) => &s.name,
        }
    }

    /// The parent index of the node, whichever variant it is.
    pub fn parent(&self) -> (r: Option<usize>)
        ensures
            r == self.spec_parent(),
    {
        match self {
            FSItem::File(f) => f.parent,
            FSItem::Directory(d) => d.parent,
            FSItem::SymLink(s) => s.parent,
        }
    }

    /// The children of a directory node, `None` for any other kind.
    pub fn get_children(&self) -> (r: Option<&Vec<usize>>)
        ensures
            r is Some <==> self.is_dir(),
            r matches Some(v) ==> v@ == self.spec_children(),
    {
        match self {
            FSItem::Directory(d) => Some(&d.children),
            _ => None,
        }
    }

    /// Whether the node is a directory.
    pub fn is_directory(&self) -> (r: bool)
        ensures
            r == self.is_dir(),
    {
        match self {
            FSItem::Directory(_) => true,
            _ => false,
        }
    }

    /// Append a child index to a directory node.
    pub fn add(&mut self, child: usize)
        requires
            old(self).is_dir(),
        ensures
            final(self).is_dir(),
            final(self).spec_name() == old(self).spec_name(),
            final(self).spec_parent() == old(self).spec_parent(),
            final(self).spec_children() == old(self).spec_children().push(child),
    {
        match self {
            FSItem::Directory(d) => {
                d.children.push(child);
            },
            _ => {},
        }
    }

    /// Remove every occurrence of a child index from a directory node.
    pub fn remove(&mut self, child: usize)
        requires
            old(self).is_dir(),
        ensures
            final(self).is_dir(),
            final(self).spec_name() == old(self).spec_name(),
            final(self).spec_parent() == old(self).spec_parent(),
            final(self).spec_children() == old(self).spec_children().filter(keep_other(child)),
    {
        match self {
            FSItem::Directory(d) => {
                let ghost pred = |c: usize| c != child;
                let n: usize = d.children.len();
                let mut out: Vec<usize> = Vec::new();
                let mut i: usize = 0;
                proof {
                    reveal(Seq::filter);
                    assert(d.children@.take(0).filter(pred) =~= Seq::<usize>::empty());
                }
                while i < n
                    invariant
                        i <= n,
                        n == d.children@.len(),
                        pred == (|c: usize| c != child),
                        out@ == d.children@.take(i as int).filter(pred),
                    decreases n - i,
                {
                    let c = d.children[i];
                    proof {
                        reveal(Seq::filter);
                        let cur = d.children@.take(i + 1);
                        assert(cur.drop_last() =~= d.children@.take(i as int));
                        assert(cur.last() == d.children@[i as int]);
                        if c != child {
                            assert(cur.filter(pred) =~= d.children@.take(i as int).filter(
                                pred,
                            ).push(c));
                        } else {
                            assert(cur.filter(pred) =~= d.children@.take(i as int).filter(pred));
                        }
                    }
                    if c != child {
                        out.push(c);
                    }
                    i = i + 1;
                }
                proof {
                    assert(d.children@.take(n as int) =~= d.children@);
                    assert(pred =~= keep_other(child));
                }
                d.children = out;
            },
            _ => {},
        }
    }

    /// Rename the node in place.
    pub fn set_name(&mut self, name: &str)
        ensures
            final(self).spec_name() == name@,
            final(self).spec_parent() == old(self).spec_parent(),
            final(self).spec_children() == old(self).spec_children(),
            final(self).is_dir() == old(self).is_dir(),
            final(self).is_file() == old(self).is_file(),
            final(self).is_link() == old(self).is_link(),
            (*final(self)) matches FSItem::File(f) ==> (*old(self)) matches FSItem::File(g)
                && f.size == g.size && f.content == g.content,
            (*final(self)) matches FSItem::SymLink(l) ==> (*old(self)) matches FSItem::SymLink(m)
                && l.target == m.target,
    {
        match self {
            FSItem::File(f) => {
                f.name = name.to_owned();
            },
            FSItem::Directory(d) => {
                d.name = name.to_owned();
            },
            FSItem::SymLink(s) => {
                s.name = name.to_owned();
            },
        }
    }
}

/// The in-memory namespace tree: an arena of nodes rooted at index 0, a
/// `current` node for relative resolution, the on-disk root used by the
/// host mirror, the mirror switch, and an optional handle to the metadata
/// catalog.
pub struct FileSystem {
    pub nodes: Vec<FSItem>,
    pub current: usize,
    pub real_path: String,
    pub side_effects: bool,
    pub catalog: Option<crate::catalog::Catalog>,
}

impl FileSystem {
    /// One node's structural obligations: the root (index 0) alone has no
    /// parent; every parent edge points down to an earlier directory; a
    /// directory's children are in-bounds nodes whose parent edge points
    /// back at it, and no two children share a name.
    pub open spec fn node_ok(self, i: int) -> bool {
        let n = self.nodes@[i];
        &&& match n.spec_parent() {
            Some(p) => i > 0 && (p as int) < i && self.nodes@[p as int].is_dir() && valid_name(
                n.spec_name(),
            ),
            None => i == 0,
        }
        &&& forall|k: int|
            0 <= k < n.spec_children().len() ==> {
                let c = #[trigger] n.spec_children()[k];
                &&& (c as int) < self.nodes@.len()
                &&& self.nodes@[c as int].spec_parent() == Some(i as usize)
            }
        &&& forall|k1: int, k2: int|
            0 <= k1 < k2 < n.spec_children().len() ==> self.nodes@[n.spec_children()[k1] as int].spec_name()
                != self.nodes@[n.spec_children()[k2] as int].spec_name()
    }

    /// The tree invariant: a rooted arena of well-linked nodes with unique
    /// child names, a directory as the current node, and a well-formed
    /// catalog when one is attached.
    pub open spec fn wf(self) -> bool {
        &&& 1 <= self.nodes@.len()
        &&& self.nodes@[0].is_dir()
        &&& self.nodes@[0].spec_name() == Seq::<char>::empty()
        &&& (self.current as int) < self.nodes@.len()
        &&& self.nodes@[self.current as int].is_dir()
        &&& forall|i: int| 0 <= i < self.nodes@.len() ==> self.node_ok(i)
        &&& match self.catalog {
            Some(c) => c.wf(),
            None => true,
        }
    }

    /// Search a child list from position `k` for a node with this name.
    pub open spec fn child_search(self, cs: Seq<usize>, k: int, name: Seq<char>) -> Option<usize>
        decreases cs.len() - k,
    {
        if k < 0 || k >= cs.len() {
            None
        } else if self.nodes@[cs[k] as int].spec_name() == name {
            Some(cs[k])
        } else {
            self.child_search(cs, k + 1, name)
        }
    }

    /// The child of directory `d` named `name`, if any.
    pub open spec fn child_named(self, d: int, name: Seq<char>) -> Option<usize> {
        self.child_search(self.nodes@[d].spec_children(), 0, name)
    }

    /// Find the child of directory `d` named `name`.
    fn find_child(&self, d: usize, name: &str) -> (r: Option<usize>)
        requires
            self.wf(),
            (d as int) < self.nodes@.len(),
            self.nodes@[d as int].is_dir(),
        ensures
            r == self.child_named(d as int, name@),
            r matches Some(c) ==> (c as int) < self.nodes@.len(),
    {
        let cs: &Vec<usize> = match &self.nodes[d] {
            FSItem::Directory(dir) => &dir.children,
            _ => {
                return None;
            },
        };
        proof {
            assert(self.node_ok(d as int));
            assert forall|j: int| 0 <= j < cs@.len() implies (#[trigger] cs@[j] as int)
                < self.nodes@.len() by {
                assert(self.nodes@[d as int].spec_children()[j] == cs@[j]);
            }
        }
        let n: usize = cs.len();
        let mut k: usize = 0;
        while k < n
            invariant
                k <= n,
                n == cs@.len(),
                self.wf(),
                (d as int) < self.nodes@.len(),
                cs@ == self.nodes@[d as int].spec_children(),
                forall|j: int|
                    0 <= j < cs@.len() ==> (#[trigger] cs@[j] as int) < self.nodes@.len(),
                self.child_search(cs@, k as int, name@) == self.child_named(d as int, name@),
            decreases n - k,
        {
            let c: usize = cs[k];
            if text::str_eq(self.nodes[c].name().as_str(), name) {
                return Some(c);
            }
            k = k + 1;
        }
        None
    }

    /// The fuel bound on symbolic-link indirections during resolution.
    pub open spec fn link_fuel() -> nat {
        32
    }

    /// Resolution of the path segments `parts[k..]` from node `cur`: '.'
    /// stays, '..' steps to the parent and refuses to leave the root, a
    /// named segment steps into the matching child, a symbolic link met on
    /// the way is resolved from its own parent (or the root for an
    /// absolute target) and resolution continues from the link's target,
    /// and a regular file met before the last segment fails.
    pub open spec fn resolve_from(self, parts: Seq<Seq<char>>, k: int, cur: usize, fuel: nat) -> Option<
        usize,
    >
        decreases fuel, parts.len() - k,
    {
        if k < 0 || k >= parts.len() {
            Some(cur)
        } else {
            match self.nodes@[cur as int] {
                FSItem::Directory(_) => {
                    let part = parts[k];
                    if part == "."@ {
                        self.resolve_from(parts, k + 1, cur, fuel)
                    } else if part == ".."@ {
                        match self.nodes@[cur as int].spec_parent() {
                            Some(p) => self.resolve_from(parts, k + 1, p, fuel),
                            None => None,
                        }
                    } else {
                        match self.child_named(cur as int, part) {
                            Some(c) => self.resolve_from(parts, k + 1, c, fuel),
                            None => None,
                        }
                    }
                },
                FSItem::SymLink(link) => {
                    if fuel == 0 {
                        None
                    } else {
                        match self.nodes@[cur as int].spec_parent() {
                            Some(p) => {
                                let start: usize = if link.target@.len() > 0 && link.target@[0]
                                    == '/' {
                                    0
                                } else {
                                    p
                                };
                                match self.resolve_from(
                                    text::split_slash(link.target@),
                                    0,
                                    start,
                                    (fuel - 1) as nat,
                                ) {
                                    Some(t) => self.resolve_from(parts, k, t, (fuel - 1) as nat),
                                    None => None,
                                }
                            },
                            None => None,
                        }
                    }
                },
                FSItem::File(_) => None,
            }
        }
    }

    /// Resolution of a whole path string from a starting node.
    pub open spec fn resolve_path(self, path: Seq<char>, start: usize) -> Option<usize> {
        self.resolve_from(text::split_slash(path), 0, start, Self::link_fuel())
    }

    /// What `find` yields: absolute paths resolve from the root, relative
    /// ones from the current node.
    pub open spec fn spec_find(self, path: Seq<char>) -> Option<usize> {
        if path.len() > 0 && path[0] == '/' {
            self.resolve_path(path, 0)
        } else {
            self.resolve_path(path, self.current)
        }
    }

    /// What `find_full` yields: with a base path, relative paths resolve
    /// from wherever the base resolves.
    pub open spec fn spec_find_full(self, path: Seq<char>, base: Option<Seq<char>>) -> Option<
        usize,
    > {
        if path.len() > 0 && path[0] == '/' {
            self.resolve_path(path, 0)
        } else {
            match base {
                Some(b) => match self.spec_find(b) {
                    Some(s) => self.resolve_path(path, s),
                    None => None,
                },
                None => self.resolve_path(path, self.current),
            }
        }
    }

    /// Exact resolution of already-split segments, mirroring
    /// `resolve_from`.
    fn resolve_parts(&self, parts: &Vec<String>, k: usize, cur: usize, fuel: u32) -> (r: Option<
        usize,
    >)
        requires
            self.wf(),
            (cur as int) < self.nodes@.len(),
            k <= parts@.len(),
        ensures
            r == self.resolve_from(text::views_of(parts@), k as int, cur, fuel as nat),
            r matches Some(i) ==> (i as int) < self.nodes@.len(),
        decreases fuel, parts@.len() - k,
    {
        if k >= parts.len() {
            return Some(cur);
        }
        proof {
            assert(text::views_of(parts@)[k as int] == parts@[k as int]@);
            assert(self.node_ok(cur as int));
        }
        match &self.nodes[cur] {
            FSItem::Directory(_) => {
                let part = &parts[k];
                if text::str_eq(part.as_str(), ".") {
                    self.resolve_parts(parts, k + 1, cur, fuel)
                } else if text::str_eq(part.as_str(), "..") {
                    match self.nodes[cur].parent() {
                        Some(p) => self.resolve_parts(parts, k + 1, p, fuel),
                        None => None,
                    }
                } else {
                    match self.find_child(cur, part.as_str()) {
                        Some(c) => self.resolve_parts(parts, k + 1, c, fuel),
                        None => None,
                    }
                }
            },
            FSItem::SymLink(link) => {
                if fuel == 0 {
                    None
                } else {
                    match self.nodes[cur].parent() {
                        Some(p) => {
                            let absolute = link.target.as_str().unicode_len() > 0
                                && link.target.as_str().get_char(0) == '/';
                            let start: usize = if absolute {
                                0
                            } else {
                                p
                            };
                            let target_parts = text::split_path(link.target.as_str());
                            match self.resolve_parts(&target_parts, 0, start, fuel - 1) {
                                Some(t) => self.resolve_parts(parts, k, t, fuel - 1),
                                None => None,
                            }
                        },
                        None => None,
                    }
                }
            },
            FSItem::File(_) => None,
        }
    }

    /// Resolve a path, absolute or relative, optionally from a base path:
    /// the result is exactly what `spec_find_full` describes.
    pub fn find_full(&self, path: &str, base: Option<&str>) -> (r: Option<usize>)
        requires
            self.wf(),
        ensures
            r == self.spec_find_full(
                path@,
                match base {
                    Some(b) => Some(b@),
                    None => None,
                },
            ),
            r matches Some(i) ==> (i as int) < self.nodes@.len(),
    {
        let absolute = path.unicode_len() > 0 && path.get_char(0) == '/';
        let parts = text::split_path(path);
        if absolute {
            return self.resolve_parts(&parts, 0, 0, 32);
        }
        match base {
            Some(b) => {
                let start = match self.find(b) {
                    Some(s) => s,
                    None => {
                        return None;
                    },
                };
                self.resolve_parts(&parts, 0, start, 32)
            },
            None => self.resolve_parts(&parts, 0, self.current, 32),
        }
    }

    /// Resolve a path, absolute or relative to the current node.
    pub fn find(&self, path: &str) -> (r: Option<usize>)
        requires
            self.wf(),
        ensures
            r == self.spec_find(path@),
            r matches Some(i) ==> (i as int) < self.nodes@.len(),
    {
        let absolute = path.unicode_len() > 0 && path.get_char(0) == '/';
        let parts = text::split_path(path);
        if absolute {
            self.resolve_parts(&parts, 0, 0, 32)
        } else {
            self.resolve_parts(&parts, 0, self.current, 32)
        }
    }
}


/// Within any directory of a well-formed tree, child names are unique:
/// two distinct positions in a directory's child list always carry
/// different names.
pub proof fn lemma_child_names_unique(fs: FileSystem, d: int, k1: int, k2: int)
    requires
        fs.wf(),
        0 <= d < fs.nodes@.len(),
        0 <= k1 < k2 < fs.nodes@[d].spec_children().len(),
    ensures
        fs.nodes@[fs.nodes@[d].spec_children()[k1] as int].spec_name()
            != fs.nodes@[fs.nodes@[d].spec_children()[k2] as int].spec_name(),
{
    assert(fs.node_ok(d));
}

/// A ".." segment met at the root refuses resolution rather than
/// escaping into anything above the namespace.
pub proof fn lemma_dotdot_at_root(fs: FileSystem, parts: Seq<Seq<char>>, k: int, fuel: nat)
    requires
        fs.wf(),
        0 <= k < parts.len(),
        parts[k] == ".."@,
    ensures
        fs.resolve_from(parts, k, 0, fuel) is None,
{
    reveal_strlit(".");
    reveal_strlit("..");
    assert("."@.len() == 1 && ".."@.len() == 2);
    assert(parts[k] != "."@);
    assert(fs.node_ok(0));
    assert(fs.nodes@[0].spec_parent() is None);
}

/// A legal node name: non-empty, free of '/', and neither of the two
/// special path segments.
pub open spec fn valid_name(name: Seq<char>) -> bool {
    name.len() > 0 && !name.contains('/') && name != "."@ && name != ".."@
}

/// Whether the two trees agree on everything but the node arena: the
/// current node, the on-disk root, the mirror switch and the catalog.
pub open spec fn same_config(a: FileSystem, b: FileSystem) -> bool {
    &&& a.current == b.current
    &&& a.real_path == b.real_path
    &&& a.side_effects == b.side_effects
    &&& a.catalog == b.catalog
}

/// Whether `b`'s arena is `a`'s with one fresh leaf appended under the
/// directory `p`: every other node is untouched, `p` keeps its identity
/// and gains exactly the new index at the end of its child list, and the
/// new node is a leaf named `name` with parent `p`.
pub open spec fn added_child(a: FileSystem, b: FileSystem, p: usize, name: Seq<char>) -> bool {
    let ni = a.nodes@.len() as int;
    &&& b.nodes@.len() == a.nodes@.len() + 1
    &&& forall|j: int| 0 <= j < a.nodes@.len() && j != p ==> a.nodes@[j] == b.nodes@[j]
    &&& b.nodes@[p as int].is_dir()
    &&& b.nodes@[p as int].spec_name() == a.nodes@[p as int].spec_name()
    &&& b.nodes@[p as int].spec_parent() == a.nodes@[p as int].spec_parent()
    &&& b.nodes@[p as int].spec_children() == a.nodes@[p as int].spec_children().push(
        a.nodes@.len() as usize,
    )
    &&& b.nodes@[ni].spec_name() == name
    &&& b.nodes@[ni].spec_parent() == Some(p)
    &&& b.nodes@[ni].spec_children() == Seq::<usize>::empty()
}

impl FileSystem {
    /// What `child_search` finding or missing a name means for the list it
    /// searched.
    proof fn lemma_child_search_props(self, cs: Seq<usize>, k: int, name: Seq<char>)
        requires
            0 <= k,
        ensures
            match self.child_search(cs, k, name) {
                Some(c) => exists|j: int|
                    k <= j < cs.len() && cs[j] == c && self.nodes@[c as int].spec_name() == name,
                None => forall|j: int|
                    k <= j < cs.len() ==> self.nodes@[(#[trigger] cs[j]) as int].spec_name()
                        != name,
            },
        decreases cs.len() - k,
    {
        if k < cs.len() {
            if self.nodes@[cs[k] as int].spec_name() == name {
            } else {
                self.lemma_child_search_props(cs, k + 1, name);
            }
        }
    }

    /// The node arena of `b` is that of `a`: every structural obligation
    /// carries over.
    pub(crate) proof fn lemma_nodes_ok_same(a: FileSystem, b: FileSystem)
        requires
            b.nodes@ == a.nodes@,
            forall|i: int| 0 <= i < a.nodes@.len() ==> a.node_ok(i),
        ensures
            forall|i: int| 0 <= i < b.nodes@.len() ==> b.node_ok(i),
    {
        assert forall|i: int| 0 <= i < b.nodes@.len() implies b.node_ok(i) by {
            assert(a.node_ok(i));
            let n = a.nodes@[i];
            assert(b.nodes@[i] == n);
            assert forall|k: int| 0 <= k < n.spec_children().len() implies {
                let c = #[trigger] n.spec_children()[k];
                &&& (c as int) < b.nodes@.len()
                &&& b.nodes@[c as int].spec_parent() == Some(i as usize)
            } by {
                let c = n.spec_children()[k];
                assert(a.nodes@[c as int].spec_parent() == Some(i as usize));
                assert(b.nodes@[c as int] == a.nodes@[c as int]);
            }
            assert forall|k1: int, k2: int|
                0 <= k1 < k2 < n.spec_children().len() implies b.nodes@[n.spec_children()[k1] as int].spec_name()
                != b.nodes@[n.spec_children()[k2] as int].spec_name() by {
                let c1 = n.spec_children()[k1];
                let c2 = n.spec_children()[k2];
                assert(a.nodes@[c1 as int].spec_name() != a.nodes@[c2 as int].spec_name());
                assert(b.nodes@[c1 as int] == a.nodes@[c1 as int]);
                assert(b.nodes@[c2 as int] == a.nodes@[c2 as int]);
            }
        }
    }

    /// Appending a fresh leaf with an unused name under a directory keeps
    /// the tree invariant.
    proof fn lemma_wf_after_add(a: FileSystem, b: FileSystem, p: usize, name: Seq<char>)
        requires
            a.wf(),
            a.nodes@.len() <= usize::MAX,
            (p as int) < a.nodes@.len(),
            a.nodes@[p as int].is_dir(),
            a.child_named(p as int, name) is None,
            valid_name(name),
            added_child(a, b, p, name),
            same_config(a, b),
        ensures
            b.wf(),
    {
        let ni = a.nodes@.len() as int;
        let oldcs = a.nodes@[p as int].spec_children();
        let newcs = b.nodes@[p as int].spec_children();
        a.lemma_child_search_props(oldcs, 0, name);
        assert(a.node_ok(p as int));
        assert forall|i: int| 0 <= i < b.nodes@.len() implies b.node_ok(i) by {
            if i == ni {
                assert(b.nodes@[ni].spec_parent() == Some(p));
                assert(b.nodes@[ni].spec_children().len() == 0);
                assert(b.node_ok(i));
            } else {
                assert(a.node_ok(i));
                if i == p {
                    assert forall|k: int| 0 <= k < newcs.len() implies ((#[trigger] newcs[k]
                        as int) < b.nodes@.len() && b.nodes@[newcs[k] as int].spec_parent()
                        == Some(p)) by {
                        if k < oldcs.len() {
                            let c = oldcs[k];
                            assert(newcs[k] == c);
                            assert((c as int) < a.nodes@.len() && a.nodes@[c as int].spec_parent()
                                == Some(p as usize));
                            assert(a.node_ok(c as int));
                            assert((p as int) < c as int);
                            assert(b.nodes@[c as int] == a.nodes@[c as int]);
                        } else {
                            assert(newcs[k] == a.nodes@.len() as usize);
                        }
                    }
                    assert forall|k1: int, k2: int|
                        0 <= k1 < k2 < newcs.len() implies b.nodes@[newcs[k1] as int].spec_name()
                        != b.nodes@[newcs[k2] as int].spec_name() by {
                        let c1 = oldcs[k1];
                        assert(newcs[k1] == c1);
                        assert((c1 as int) < a.nodes@.len() && a.nodes@[c1 as int].spec_parent()
                            == Some(p as usize));
                        assert(a.node_ok(c1 as int));
                        assert((p as int) < c1 as int);
                        assert(b.nodes@[c1 as int] == a.nodes@[c1 as int]);
                        if k2 < oldcs.len() {
                            let c2 = oldcs[k2];
                            assert(newcs[k2] == c2);
                            assert((c2 as int) < a.nodes@.len() && a.nodes@[c2 as int].spec_parent()
                                == Some(p as usize));
                            assert(a.node_ok(c2 as int));
                            assert((p as int) < c2 as int);
                            assert(b.nodes@[c2 as int] == a.nodes@[c2 as int]);
                            assert(a.nodes@[c1 as int].spec_name() != a.nodes@[c2 as int].spec_name());
                        } else {
                            assert(newcs[k2] == a.nodes@.len() as usize);
                            assert(a.nodes@[c1 as int].spec_name() != name);
                            assert(b.nodes@[newcs[k2] as int].spec_name() == name);
                        }
                    }
                    assert(b.node_ok(i));
                } else {
                    let cs = a.nodes@[i].spec_children();
                    assert(b.nodes@[i] == a.nodes@[i]);
                    assert forall|k: int| 0 <= k < cs.len() implies ((#[trigger] cs[k] as int)
                        < b.nodes@.len() && b.nodes@[cs[k] as int].spec_parent() == Some(
                        i as usize,
                    )) by {
                        let c = cs[k];
                        assert((c as int) < a.nodes@.len() && a.nodes@[c as int].spec_parent()
                            == Some(i as usize));
                        if c as int == p {
                            assert(b.nodes@[p as int].spec_parent() == a.nodes@[p as int].spec_parent());
                        } else {
                            assert(b.nodes@[c as int] == a.nodes@[c as int]);
                        }
                    }
                    assert forall|k1: int, k2: int|
                        0 <= k1 < k2 < cs.len() implies b.nodes@[cs[k1] as int].spec_name()
                        != b.nodes@[cs[k2] as int].spec_name() by {
                        let c1 = cs[k1];
                        let c2 = cs[k2];
                        assert((c1 as int) < a.nodes@.len());
                        assert((c2 as int) < a.nodes@.len());
                        assert(a.nodes@[c1 as int].spec_name() != a.nodes@[c2 as int].spec_name());
                        if c1 as int == p {
                            assert(b.nodes@[c1 as int].spec_name() == a.nodes@[c1 as int].spec_name());
                        } else {
                            assert(b.nodes@[c1 as int] == a.nodes@[c1 as int]);
                        }
                        if c2 as int == p {
                            assert(b.nodes@[c2 as int].spec_name() == a.nodes@[c2 as int].spec_name());
                        } else {
                            assert(b.nodes@[c2 as int] == a.nodes@[c2 as int]);
                        }
                    }
                    assert(b.node_ok(i));
                }
            }
        }
        assert(b.nodes@[0].is_dir() && b.nodes@[0].spec_name() == Seq::<char>::empty()) by {
            if p == 0 {
                assert(b.nodes@[0].spec_name() == a.nodes@[0].spec_name());
            } else {
                assert(b.nodes@[0] == a.nodes@[0]);
            }
        }
        assert(b.nodes@[b.current as int].is_dir()) by {
            if b.current as int == p as int {
            } else {
                assert(b.nodes@[b.current as int] == a.nodes@[b.current as int]);
            }
        }
    }

    /// A fresh tree: one empty root directory, the current node at the
    /// root, mirroring off, the on-disk root at ".", and no catalog.
    pub fn new() -> (r: Self)
        ensures
            r.wf(),
            r.nodes@.len() == 1,
            r.nodes@[0].spec_children().len() == 0,
            r.current == 0,
            r.side_effects == false,
            r.catalog is None,
            r.real_path@ == "."@,
    {
        let mut nodes: Vec<FSItem> = Vec::new();
        nodes.push(
            FSItem::Directory(Directory { name: String::new(), parent: None, children: Vec::new() }),
        );
        let fs = FileSystem {
            nodes,
            current: 0,
            real_path: ".".to_owned(),
            side_effects: false,
            catalog: None,
        };
        proof {
            assert forall|i: int| 0 <= i < fs.nodes@.len() implies fs.node_ok(i) by {
                assert(fs.nodes@[i].spec_children().len() == 0);
            }
        }
        fs
    }

    /// Attach the metadata catalog.
    pub fn set_database(&mut self, catalog: crate::catalog::Catalog)
        requires
            old(self).wf(),
            catalog.wf(),
        ensures
            final(self).wf(),
            final(self).catalog == Some(catalog),
            final(self).nodes == old(self).nodes,
            final(self).current == old(self).current,
            final(self).real_path == old(self).real_path,
            final(self).side_effects == old(self).side_effects,
    {
        self.catalog = Some(catalog);
        proof {
            FileSystem::lemma_nodes_ok_same(*old(self), *self);
        }
    }

    /// Set the on-disk root the host mirror works under.
    pub fn set_real_path(&mut self, path: &str)
        requires
            old(self).wf(),
        ensures
            final(self).wf(),
            final(self).real_path@ == path@,
            final(self).nodes == old(self).nodes,
            final(self).current == old(self).current,
            final(self).catalog == old(self).catalog,
            final(self).side_effects == old(self).side_effects,
    {
        self.real_path = path.to_owned();
        proof {
            FileSystem::lemma_nodes_ok_same(*old(self), *self);
        }
    }

    /// Switch the host mirror on or off.
    pub fn set_side_effects(&mut self, side_effects: bool)
        requires
            old(self).wf(),
        ensures
            final(self).wf(),
            final(self).side_effects == side_effects,
            final(self).nodes == old(self).nodes,
            final(self).current == old(self).current,
            final(self).catalog == old(self).catalog,
            final(self).real_path == old(self).real_path,
    {
        self.side_effects = side_effects;
        proof {
            FileSystem::lemma_nodes_ok_same(*old(self), *self);
        }
    }

    /// Change the current node to where `path` resolves, refusing
    /// anything but a directory.
    pub fn change_dir(&mut self, path: &str) -> (r: Result<(), FsError>)
        requires
            old(self).wf(),
        ensures
            final(self).wf(),
            final(self).nodes == old(self).nodes,
            final(self).real_path == old(self).real_path,
            final(self).side_effects == old(self).side_effects,
            final(self).catalog == old(self).catalog,
            match old(self).spec_find(path@) {
                Some(n) => {
                    if old(self).nodes@[n as int].is_dir() {
                        r is Ok && final(self).current == n
                    } else {
                        r == Err::<(), FsError>(FsError::NotFound) && final(self).current == old(
                            self,
                        ).current
                    }
                },
                None => r == Err::<(), FsError>(FsError::NotFound) && final(self).current == old(
                    self,
                ).current,
            },
    {
        match self.find(path) {
            Some(n) => {
                if self.nodes[n].is_directory() {
                    self.current = n;
                    proof {
                        FileSystem::lemma_nodes_ok_same(*old(self), *self);
                    }
                    Ok(())
                } else {
                    Err(FsError::NotFound)
                }
            },
            None => Err(FsError::NotFound),
        }
    }

    /// The names of the current node's children, or `None` when the
    /// current node is not a directory.
    pub fn list_contents(&self) -> (r: Option<Vec<String>>)
        requires
            self.wf(),
        ensures
            r is Some <==> self.nodes@[self.current as int].is_dir(),
            r matches Some(v) ==> text::views_of(v@) == self.nodes@[self.current as int].spec_children().map_values(
                |c: usize| self.nodes@[c as int].spec_name(),
            ),
    {
        let cs: &Vec<usize> = match &self.nodes[self.current] {
            FSItem::Directory(dir) => &dir.children,
            _ => {
                return None;
            },
        };
        proof {
            assert(self.node_ok(self.current as int));
            assert forall|j: int| 0 <= j < cs@.len() implies (#[trigger] cs@[j] as int)
                < self.nodes@.len() by {
                assert(self.nodes@[self.current as int].spec_children()[j] == cs@[j]);
            }
        }
        let ghost names = self.nodes@[self.current as int].spec_children().map_values(
            |c: usize| self.nodes@[c as int].spec_name(),
        );
        let n: usize = cs.len();
        let mut out: Vec<String> = Vec::new();
        let mut k: usize = 0;
        while k < n
            invariant
                k <= n,
                n == cs@.len(),
                self.wf(),
                cs@ == self.nodes@[self.current as int].spec_children(),
                forall|j: int|
                    0 <= j < cs@.len() ==> (#[trigger] cs@[j] as int) < self.nodes@.len(),
                names == self.nodes@[self.current as int].spec_children().map_values(
                    |c: usize| self.nodes@[c as int].spec_name(),
                ),
                text::views_of(out@) == names.take(k as int),
            decreases n - k,
        {
            let c: usize = cs[k];
            let name = self.nodes[c].name().clone();
            proof {
                assert(names[k as int] == self.nodes@[c as int].spec_name());
                assert(text::views_of(out@.push(name)) =~= text::views_of(out@) + seq![name@]);
                assert(names.take(k as int) + seq![names[k as int]] =~= names.take(k + 1));
            }
            out.push(name);
            k = k + 1;
        }
        proof {
            assert(names.take(n as int) =~= names);
        }
        Some(out)
    }

    /// Create an empty directory named `name` under the directory `path`
    /// resolves to: `NotFound` when it does not resolve, `Invalid` when it
    /// is not a directory, `Duplicate` when a child already bears the
    /// name; on success the tree gains exactly that leaf.
    pub fn make_dir(&mut self, path: &str, name: &str) -> (r: Result<(), FsError>)
        requires
            old(self).wf(),
        ensures
            final(self).wf(),
            same_config(*old(self), *final(self)),
            !valid_name(name@) ==> r == Err::<(), FsError>(FsError::Invalid) && final(self).nodes
                == old(self).nodes,
            valid_name(name@) && old(self).spec_find(path@) is None ==> r == Err::<(), FsError>(
                FsError::NotFound,
            ) && final(self).nodes == old(self).nodes,
            valid_name(name@) ==> (old(self).spec_find(path@) matches Some(p) ==> {
                if !old(self).nodes@[p as int].is_dir() {
                    r == Err::<(), FsError>(FsError::Invalid) && final(self).nodes == old(
                        self,
                    ).nodes
                } else if old(self).child_named(p as int, name@) is Some {
                    r == Err::<(), FsError>(FsError::Duplicate) && final(self).nodes == old(
                        self,
                    ).nodes
                } else {
                    &&& r is Ok
                    &&& added_child(*old(self), *final(self), p, name@)
                    &&& final(self).nodes@.last().is_dir()
                }
            }),
    {
        if name.unicode_len() == 0 || text::char_in(name, '/') || text::str_eq(name, ".")
            || text::str_eq(name, "..") {
            return Err(FsError::Invalid);
        }
        let p = match self.find(path) {
            Some(p) => p,
            None => {
                return Err(FsError::NotFound);
            },
        };
        if !self.nodes[p].is_directory() {
            return Err(FsError::Invalid);
        }
        if self.find_child(p, name).is_some() {
            return Err(FsError::Duplicate);
        }
        let new_idx = self.nodes.len();
        self.nodes.push(
            FSItem::Directory(
                Directory { name: name.to_owned(), parent: Some(p), children: Vec::new() },
            ),
        );
        let parent_ref = &mut self.nodes[p];
        parent_ref.add(new_idx);
        proof {
            assert(old(self).nodes@.len() == new_idx as int);
            assert(added_child(*old(self), *self, p, name@));
            FileSystem::lemma_wf_after_add(*old(self), *self, p, name@);
        }
        Ok(())
    }

    /// Create an empty regular file named `name` under the directory
    /// `path` resolves to, with the same refusals as `make_dir`.
    pub fn make_file(&mut self, path: &str, name: &str) -> (r: Result<(), FsError>)
        requires
            old(self).wf(),
        ensures
            final(self).wf(),
            same_config(*old(self), *final(self)),
            !valid_name(name@) ==> r == Err::<(), FsError>(FsError::Invalid) && final(self).nodes
                == old(self).nodes,
            valid_name(name@) && old(self).spec_find(path@) is None ==> r == Err::<(), FsError>(
                FsError::NotFound,
            ) && final(self).nodes == old(self).nodes,
            valid_name(name@) ==> (old(self).spec_find(path@) matches Some(p) ==> {
                if !old(self).nodes@[p as int].is_dir() {
                    r == Err::<(), FsError>(FsError::Invalid) && final(self).nodes == old(
                        self,
                    ).nodes
                } else if old(self).child_named(p as int, name@) is Some {
                    r == Err::<(), FsError>(FsError::Duplicate) && final(self).nodes == old(
                        self,
                    ).nodes
                } else {
                    &&& r is Ok
                    &&& added_child(*old(self), *final(self), p, name@)
                    &&& final(self).nodes@.last() matches FSItem::File(f) && f.size == 0
                        && f.content@.len() == 0
                }
            }),
    {
        if name.unicode_len() == 0 || text::char_in(name, '/') || text::str_eq(name, ".")
            || text::str_eq(name, "..") {
            return Err(FsError::Invalid);
        }
        let p = match self.find(path) {
            Some(p) => p,
            None => {
                return Err(FsError::NotFound);
            },
        };
        if !self.nodes[p].is_directory() {
            return Err(FsError::Invalid);
        }
        if self.find_child(p, name).is_some() {
            return Err(FsError::Duplicate);
        }
        let new_idx = self.nodes.len();
        self.nodes.push(
            FSItem::File(
                File { name: name.to_owned(), size: 0, content: String::new(), parent: Some(p) },
            ),
        );
        let parent_ref = &mut self.nodes[p];
        parent_ref.add(new_idx);
        proof {
            assert(old(self).nodes@.len() == new_idx as int);
            assert(added_child(*old(self), *self, p, name@));
            FileSystem::lemma_wf_after_add(*old(self), *self, p, name@);
        }
        Ok(())
    }

    /// Create a symbolic link named `name` under the directory `path`
    /// resolves to, recording `target` literally, with the same refusals
    /// as `make_dir`.
    pub fn make_link(&mut self, path: &str, name: &str, target: &str) -> (r: Result<(), FsError>)
        requires
            old(self).wf(),
        ensures
            final(self).wf(),
            same_config(*old(self), *final(self)),
            !valid_name(name@) ==> r == Err::<(), FsError>(FsError::Invalid) && final(self).nodes
                == old(self).nodes,
            valid_name(name@) && old(self).spec_find(path@) is None ==> r == Err::<(), FsError>(
                FsError::NotFound,
            ) && final(self).nodes == old(self).nodes,
            valid_name(name@) ==> (old(self).spec_find(path@) matches Some(p) ==> {
                if !old(self).nodes@[p as int].is_dir() {
                    r == Err::<(), FsError>(FsError::Invalid) && final(self).nodes == old(
                        self,
                    ).nodes
                } else if old(self).child_named(p as int, name@) is Some {
                    r == Err::<(), FsError>(FsError::Duplicate) && final(self).nodes == old(
                        self,
                    ).nodes
                } else {
                    &&& r is Ok
                    &&& added_child(*old(self), *final(self), p, name@)
                    &&& final(self).nodes@.last() matches FSItem::SymLink(l) && l.target@
                        == target@
                }
            }),
    {
        if name.unicode_len() == 0 || text::char_in(name, '/') || text::str_eq(name, ".")
            || text::str_eq(name, "..") {
            return Err(FsError::Invalid);
        }
        let p = match self.find(path) {
            Some(p) => p,
            None => {
                return Err(FsError::NotFound);
            },
        };
        if !self.nodes[p].is_directory() {
            return Err(FsError::Invalid);
        }
        if self.find_child(p, name).is_some() {
            return Err(FsError::Duplicate);
        }
        let new_idx = self.nodes.len();
        self.nodes.push(
            FSItem::SymLink(
                SymLink { name: name.to_owned(), target: target.to_owned(), parent: Some(p) },
            ),
        );
        let parent_ref = &mut self.nodes[p];
        parent_ref.add(new_idx);
        proof {
            assert(old(self).nodes@.len() == new_idx as int);
            assert(added_child(*old(self), *self, p, name@));
            FileSystem::lemma_wf_after_add(*old(self), *self, p, name@);
        }
        Ok(())
    }
}

/// Whether `b`'s arena is `a`'s with node `n` renamed to `name` and
/// nothing else changed: same length, every other node untouched, and
/// node `n` keeping its kind, parent, children and payload.
pub open spec fn renamed_node(a: FileSystem, b: FileSystem, n: usize, name: Seq<char>) -> bool {
    &&& b.nodes@.len() == a.nodes@.len()
    &&& forall|j: int| 0 <= j < a.nodes@.len() && j != n ==> a.nodes@[j] == b.nodes@[j]
    &&& b.nodes@[n as int].spec_name() == name
    &&& b.nodes@[n as int].spec_parent() == a.nodes@[n as int].spec_parent()
    &&& b.nodes@[n as int].spec_children() == a.nodes@[n as int].spec_children()
    &&& b.nodes@[n as int].is_dir() == a.nodes@[n as int].is_dir()
    &&& b.nodes@[n as int].is_file() == a.nodes@[n as int].is_file()
    &&& (b.nodes@[n as int] matches FSItem::File(f) ==> a.nodes@[n as int] matches FSItem::File(g)
        && f.size == g.size && f.content == g.content)
    &&& (b.nodes@[n as int] matches FSItem::SymLink(l) ==> a.nodes@[n as int] matches
        FSItem::SymLink(m) && l.target == m.target)
}

impl FileSystem {
    /// Node names, parents, children and kinds all unchanged: the tree
    /// invariant carries over to the new arena and catalog.
    proof fn lemma_wf_same_shape(a: FileSystem, b: FileSystem)
        requires
            a.wf(),
            b.nodes@.len() == a.nodes@.len(),
            forall|j: int|
                0 <= j < a.nodes@.len() ==> {
                    let x = #[trigger] b.nodes@[j];
                    let y = a.nodes@[j];
                    &&& x.spec_name() == y.spec_name()
                    &&& x.spec_parent() == y.spec_parent()
                    &&& x.spec_children() == y.spec_children()
                    &&& x.is_dir() == y.is_dir()
                },
            b.current == a.current,
            match b.catalog {
                Some(c) => c.wf(),
                None => true,
            },
        ensures
            b.wf(),
    {
        assert forall|i: int| 0 <= i < b.nodes@.len() implies b.node_ok(i) by {
            assert(a.node_ok(i));
            let n = a.nodes@[i];
            let m = b.nodes@[i];
            assert forall|k: int| 0 <= k < m.spec_children().len() implies ((#[trigger] m.spec_children()[k] as int)
                < b.nodes@.len() && b.nodes@[m.spec_children()[k] as int].spec_parent() == Some(
                i as usize,
            )) by {
                let c = n.spec_children()[k];
                assert(m.spec_children()[k] == c);
                assert((c as int) < a.nodes@.len() && a.nodes@[c as int].spec_parent() == Some(
                    i as usize,
                ));
                assert(b.nodes@[c as int].spec_parent() == a.nodes@[c as int].spec_parent());
            }
            assert forall|k1: int, k2: int|
                0 <= k1 < k2 < m.spec_children().len() implies b.nodes@[m.spec_children()[k1] as int].spec_name()
                != b.nodes@[m.spec_children()[k2] as int].spec_name() by {
                let c1 = n.spec_children()[k1];
                let c2 = n.spec_children()[k2];
                assert((c1 as int) < a.nodes@.len());
                assert((c2 as int) < a.nodes@.len());
                assert(a.nodes@[c1 as int].spec_name() != a.nodes@[c2 as int].spec_name());
                assert(b.nodes@[c1 as int].spec_name() == a.nodes@[c1 as int].spec_name());
                assert(b.nodes@[c2 as int].spec_name() == a.nodes@[c2 as int].spec_name());
            }
        }
    }

    /// Renaming a node to a name no sibling bears keeps the tree
    /// invariant.
    proof fn lemma_wf_after_rename(a: FileSystem, b: FileSystem, n: usize, name: Seq<char>)
        requires
            a.wf(),
            a.nodes@.len() <= usize::MAX,
            0 < (n as int) < a.nodes@.len(),
            valid_name(name),
            renamed_node(a, b, n, name),
            same_config(a, b),
            ({
                let pn = a.nodes@[n as int].spec_parent()->0;
                a.child_named(pn as int, name) is None || a.child_named(pn as int, name) == Some(n)
            }),
        ensures
            b.wf(),
    {
        let pn = a.nodes@[n as int].spec_parent()->0;
        assert(a.node_ok(n as int));
        a.lemma_child_search_props(a.nodes@[pn as int].spec_children(), 0, name);
        assert forall|i: int| 0 <= i < b.nodes@.len() implies b.node_ok(i) by {
            assert(a.node_ok(i));
            let cs = a.nodes@[i].spec_children();
            assert(b.nodes@[i].spec_children() == cs);
            assert(b.nodes@[i].spec_parent() == a.nodes@[i].spec_parent());
            assert forall|k: int| 0 <= k < cs.len() implies ((#[trigger] cs[k] as int)
                < b.nodes@.len() && b.nodes@[cs[k] as int].spec_parent() == Some(i as usize)) by {
                let c = cs[k];
                assert((c as int) < a.nodes@.len() && a.nodes@[c as int].spec_parent() == Some(
                    i as usize,
                ));
                assert(b.nodes@[c as int].spec_parent() == a.nodes@[c as int].spec_parent());
            }
            assert forall|k1: int, k2: int|
                0 <= k1 < k2 < cs.len() implies b.nodes@[cs[k1] as int].spec_name()
                != b.nodes@[cs[k2] as int].spec_name() by {
                let c1 = cs[k1];
                let c2 = cs[k2];
                assert((c1 as int) < a.nodes@.len());
                assert((c2 as int) < a.nodes@.len());
                assert(a.nodes@[c1 as int].spec_name() != a.nodes@[c2 as int].spec_name());
                if c1 == n || c2 == n {
                    assert(a.nodes@[c1 as int].spec_parent() == Some(i as usize));
                    assert(a.nodes@[c2 as int].spec_parent() == Some(i as usize));
                    assert(a.nodes@[n as int].spec_parent() == Some(i as usize));
                    assert(pn == i as usize);
                    assert(i == pn);
                    if a.child_named(pn as int, name) is None {
                        assert(a.nodes@[(cs[k1]) as int].spec_name() != name);
                        assert(a.nodes@[(cs[k2]) as int].spec_name() != name);
                    } else {
                        assert(a.nodes@[n as int].spec_name() == name) by {
                            let j = choose|j: int|
                                0 <= j < a.nodes@[pn as int].spec_children().len()
                                    && a.nodes@[pn as int].spec_children()[j] == n
                                    && a.nodes@[n as int].spec_name() == name;
                        }
                    }
                }
            }
            assert(b.node_ok(i));
        }
        assert(b.nodes@[0] == a.nodes@[0]);
        assert(b.nodes@[b.current as int].is_dir()) by {
            if b.current == n {
            } else {
                assert(b.nodes@[b.current as int] == a.nodes@[b.current as int]);
            }
        }
    }

    /// The canonical catalog key of a node: the '/'-joined names on the
    /// path from the root down to it, with no leading '/'; the root's key
    /// is the empty path.
    pub open spec fn canon_of(self, i: int) -> Seq<char>
        decreases i,
    {
        if i <= 0 {
            Seq::empty()
        } else {
            match self.nodes@[i].spec_parent() {
                None => Seq::empty(),
                Some(p) => if p as int >= i {
                    Seq::empty()
                } else if p == 0 {
                    self.nodes@[i].spec_name()
                } else {
                    self.canon_of(p as int) + seq!['/'] + self.nodes@[i].spec_name()
                },
            }
        }
    }

    /// Compute a node's canonical catalog key.
    pub fn canonical_path(&self, i: usize) -> (r: String)
        requires
            self.wf(),
            (i as int) < self.nodes@.len(),
        ensures
            r@ == self.canon_of(i as int),
        decreases i,
    {
        if i == 0 {
            return String::new();
        }
        proof {
            assert(self.node_ok(i as int));
        }
        match self.nodes[i].parent() {
            None => String::new(),
            Some(p) => {
                if p == 0 {
                    self.nodes[i].name().clone()
                } else {
                    let pre = self.canonical_path(p);
                    text::join_slash(pre.as_str(), self.nodes[i].name().as_str())
                }
            },
        }
    }

    /// The absolute path of a node's parent directory, with a leading '/'
    /// (the root itself yields "/").
    pub fn abs_path(&self, i: usize) -> (r: String)
        requires
            self.wf(),
            (i as int) < self.nodes@.len(),
        ensures
            r@ == seq!['/'] + match self.nodes@[i as int].spec_parent() {
                Some(p) => self.canon_of(p as int),
                None => Seq::<char>::empty(),
            },
    {
        match self.nodes[i].parent() {
            None => {
                let r = "/".to_owned();
                proof {
                    reveal_strlit("/");
                    assert(r@ =~= seq!['/'] + Seq::<char>::empty());
                }
                r
            },
            Some(p) => {
                proof {
                    assert(self.node_ok(i as int));
                }
                let pre = self.canonical_path(p);
                let r = text::concat_str("/", pre.as_str());
                proof {
                    reveal_strlit("/");
                    assert(r@ =~= seq!['/'] + self.canon_of(p as int));
                }
                r
            },
        }
    }

    /// The on-disk path of a node under the mirror root.
    pub open spec fn spec_real_path(self, i: int) -> Seq<char> {
        let dir = match self.nodes@[i].spec_parent() {
            Some(p) => self.canon_of(p as int),
            None => Seq::<char>::empty(),
        };
        if dir.len() == 0 {
            self.real_path@ + seq!['/'] + self.nodes@[i].spec_name()
        } else {
            self.real_path@ + seq!['/'] + dir + seq!['/'] + self.nodes@[i].spec_name()
        }
    }

    /// Compute a node's on-disk path under the mirror root.
    pub fn make_real_path(&self, i: usize) -> (r: String)
        requires
            self.wf(),
            (i as int) < self.nodes@.len(),
        ensures
            r@ == self.spec_real_path(i as int),
    {
        let dir = match self.nodes[i].parent() {
            Some(p) => {
                proof {
                    assert(self.node_ok(i as int));
                }
                self.canonical_path(p)
            },
            None => String::new(),
        };
        if dir.as_str().unicode_len() == 0 {
            let r = text::join_slash(self.real_path.as_str(), self.nodes[i].name().as_str());
            r
        } else {
            let head = text::join_slash(self.real_path.as_str(), dir.as_str());
            let r = text::join_slash(head.as_str(), self.nodes[i].name().as_str());
            proof {
                assert(r@ =~= self.spec_real_path(i as int));
            }
            r
        }
    }

    /// The content of a regular file node.
    pub open spec fn file_content(self, i: int) -> Seq<char> {
        match self.nodes@[i] {
            FSItem::File(f) => f.content@,
            _ => Seq::empty(),
        }
    }

    /// Overwrite the content of a regular file node, keeping its size
    /// field equal to the content's length.
    pub fn set_file_content(&mut self, i: usize, content: &str)
        requires
            old(self).wf(),
            (i as int) < old(self).nodes@.len(),
            old(self).nodes@[i as int].is_file(),
        ensures
            final(self).wf(),
            same_config(*old(self), *final(self)),
            final(self).nodes@.len() == old(self).nodes@.len(),
            forall|j: int|
                0 <= j < old(self).nodes@.len() && j != i
                    ==> old(self).nodes@[j] == final(self).nodes@[j],
            final(self).nodes@[i as int].spec_name() == old(self).nodes@[i as int].spec_name(),
            final(self).nodes@[i as int].spec_parent() == old(self).nodes@[i as int].spec_parent(),
            final(self).nodes@[i as int].is_file(),
            final(self).file_content(i as int) == content@,
            final(self).nodes@[i as int] matches FSItem::File(f) && f.size == content@.len(),
    {
        let size = content.unicode_len();
        let node_ref = &mut self.nodes[i];
        match node_ref {
            FSItem::File(f) => {
                f.content = content.to_owned();
                f.size = size;
            },
            _ => {},
        }
        proof {
            FileSystem::lemma_wf_same_shape(*old(self), *self);
        }
    }

    /// Read the content of a node, which must be a regular file.
    pub fn file_content_of(&self, i: usize) -> (r: String)
        requires
            self.wf(),
            (i as int) < self.nodes@.len(),
            self.nodes@[i as int].is_file(),
        ensures
            r@ == self.file_content(i as int),
    {
        match &self.nodes[i] {
            FSItem::File(f) => f.content.clone(),
            _ => String::new(),
        }
    }

    /// Rename the node `path` resolves to, refusing the root and a name a
    /// sibling already bears.  No permission check is consulted and no
    /// catalog row is touched: renaming is not reachable over the HTTP
    /// surface, and an endpoint exposing it would need the parent write
    /// check and a catalog re-key first.
    pub fn rename(&mut self, path: &str, new_name: &str) -> (r: Result<(), FsError>)
        requires
            old(self).wf(),
        ensures
            final(self).wf(),
            same_config(*old(self), *final(self)),
            !valid_name(new_name@) ==> r == Err::<(), FsError>(FsError::Invalid)
                && final(self).nodes == old(self).nodes,
            valid_name(new_name@) && old(self).spec_find(path@) is None ==> r == Err::<(), FsError>(
                FsError::NotFound,
            ) && final(self).nodes == old(self).nodes,
            valid_name(new_name@) ==> (old(self).spec_find(path@) matches Some(n) ==> {
                if n == 0 {
                    r == Err::<(), FsError>(FsError::Invalid) && final(self).nodes == old(
                        self,
                    ).nodes
                } else {
                    let pn = old(self).nodes@[n as int].spec_parent()->0;
                    let hit = old(self).child_named(pn as int, new_name@);
                    if hit is Some && hit != Some(n) {
                        r == Err::<(), FsError>(FsError::Duplicate) && final(self).nodes == old(
                            self,
                        ).nodes
                    } else {
                        r is Ok && renamed_node(*old(self), *final(self), n, new_name@)
                    }
                }
            }),
    {
        if new_name.unicode_len() == 0 || text::char_in(new_name, '/') || text::str_eq(
            new_name,
            ".",
        ) || text::str_eq(new_name, "..") {
            return Err(FsError::Invalid);
        }
        let n = match self.find(path) {
            Some(n) => n,
            None => {
                return Err(FsError::NotFound);
            },
        };
        if n == 0 {
            return Err(FsError::Invalid);
        }
        proof {
            assert(self.node_ok(n as int));
        }
        let pn = match self.nodes[n].parent() {
            Some(p) => p,
            None => {
                return Err(FsError::Invalid);
            },
        };
        match self.find_child(pn, new_name) {
            Some(c) => {
                if c != n {
                    return Err(FsError::Duplicate);
                }
            },
            None => {},
        }
        let ghost glen = self.nodes.len();
        let node_ref = &mut self.nodes[n];
        node_ref.set_name(new_name);
        proof {
            assert(old(self).nodes@.len() == glen as int);
            assert(renamed_node(*old(self), *self, n, new_name@));
            FileSystem::lemma_wf_after_rename(*old(self), *self, n, new_name@);
        }
        Ok(())
    }

    /// Detaching children from a directory keeps the tree invariant.
    proof fn lemma_wf_after_detach(a: FileSystem, b: FileSystem, p: usize, c: usize)
        requires
            a.wf(),
            (p as int) < a.nodes@.len(),
            a.nodes@[p as int].is_dir(),
            b.nodes@.len() == a.nodes@.len(),
            forall|j: int| 0 <= j < a.nodes@.len() && j != p ==> a.nodes@[j] == b.nodes@[j],
            b.nodes@[p as int].is_dir(),
            b.nodes@[p as int].spec_name() == a.nodes@[p as int].spec_name(),
            b.nodes@[p as int].spec_parent() == a.nodes@[p as int].spec_parent(),
            b.nodes@[p as int].spec_children() == a.nodes@[p as int].spec_children().filter(
                keep_other(c),
            ),
            same_config(a, b),
        ensures
            b.wf(),
    {
        let oldcs = a.nodes@[p as int].spec_children();
        let newcs = b.nodes@[p as int].spec_children();
        let pred = keep_other(c);
        assert(a.node_ok(p as int));
        text::lemma_filter_elems(oldcs, pred);
        FileSystem::lemma_filter_children_unique(a, oldcs, pred);
        assert forall|i: int| 0 <= i < b.nodes@.len() implies b.node_ok(i) by {
            assert(a.node_ok(i));
            if i == p {
                assert forall|k: int| 0 <= k < newcs.len() implies ((#[trigger] newcs[k] as int)
                    < b.nodes@.len() && b.nodes@[newcs[k] as int].spec_parent() == Some(p)) by {
                    let j = choose|j: int| 0 <= j < oldcs.len() && oldcs[j] == newcs[k];
                    let x = oldcs[j];
                    assert((x as int) < a.nodes@.len() && a.nodes@[x as int].spec_parent() == Some(
                        p as usize,
                    ));
                    assert(a.node_ok(x as int));
                    assert((p as int) < x as int);
                    assert(b.nodes@[x as int] == a.nodes@[x as int]);
                }
                assert(b.node_ok(i));
            } else {
                let cs = a.nodes@[i].spec_children();
                assert(b.nodes@[i] == a.nodes@[i]);
                assert forall|k: int| 0 <= k < cs.len() implies ((#[trigger] cs[k] as int)
                    < b.nodes@.len() && b.nodes@[cs[k] as int].spec_parent() == Some(i as usize))
                    by {
                    let x = cs[k];
                    assert((x as int) < a.nodes@.len() && a.nodes@[x as int].spec_parent() == Some(
                        i as usize,
                    ));
                    if x as int == p {
                        assert(b.nodes@[p as int].spec_parent() == a.nodes@[p as int].spec_parent());
                    } else {
                        assert(b.nodes@[x as int] == a.nodes@[x as int]);
                    }
                }
                assert forall|k1: int, k2: int|
                    0 <= k1 < k2 < cs.len() implies b.nodes@[cs[k1] as int].spec_name()
                    != b.nodes@[cs[k2] as int].spec_name() by {
                    let c1 = cs[k1];
                    let c2 = cs[k2];
                    assert((c1 as int) < a.nodes@.len());
                    assert((c2 as int) < a.nodes@.len());
                    assert(a.nodes@[c1 as int].spec_name() != a.nodes@[c2 as int].spec_name());
                    if c1 as int == p {
                        assert(b.nodes@[c1 as int].spec_name() == a.nodes@[c1 as int].spec_name());
                    } else {
                        assert(b.nodes@[c1 as int] == a.nodes@[c1 as int]);
                    }
                    if c2 as int == p {
                        assert(b.nodes@[c2 as int].spec_name() == a.nodes@[c2 as int].spec_name());
                    } else {
                        assert(b.nodes@[c2 as int] == a.nodes@[c2 as int]);
                    }
                }
                assert(b.node_ok(i));
            }
        }
        assert(b.nodes@[0].is_dir() && b.nodes@[0].spec_name() == Seq::<char>::empty()) by {
            if p == 0 {
            } else {
                assert(b.nodes@[0] == a.nodes@[0]);
            }
        }
        assert(b.nodes@[b.current as int].is_dir()) by {
            if b.current as int == p as int {
            } else {
                assert(b.nodes@[b.current as int] == a.nodes@[b.current as int]);
            }
        }
    }

    /// Names stay pairwise distinct on any sublist of a child list.
    proof fn lemma_filter_children_unique(a: FileSystem, cs: Seq<usize>, pred: spec_fn(usize) -> bool)
        requires
            forall|k1: int, k2: int|
                0 <= k1 < k2 < cs.len() ==> a.nodes@[cs[k1] as int].spec_name()
                    != a.nodes@[cs[k2] as int].spec_name(),
        ensures
            forall|k1: int, k2: int|
                0 <= k1 < k2 < cs.filter(pred).len() ==> a.nodes@[cs.filter(pred)[k1] as int].spec_name()
                    != a.nodes@[cs.filter(pred)[k2] as int].spec_name(),
        decreases cs.len(),
    {
        reveal(Seq::filter);
        if cs.len() > 0 {
            let head = cs.drop_last();
            assert(forall|k1: int, k2: int|
                0 <= k1 < k2 < head.len() ==> a.nodes@[head[k1] as int].spec_name()
                    != a.nodes@[head[k2] as int].spec_name());
            FileSystem::lemma_filter_children_unique(a, head, pred);
            text::lemma_filter_elems(head, pred);
            let f = cs.filter(pred);
            let fh = head.filter(pred);
            if pred(cs.last()) {
                assert(f =~= fh.push(cs.last()));
                assert forall|k: int| 0 <= k < fh.len() implies a.nodes@[fh[k] as int].spec_name()
                    != a.nodes@[cs.last() as int].spec_name() by {
                    let j = choose|j: int| 0 <= j < head.len() && head[j] == fh[k];
                    assert(a.nodes@[cs[j] as int].spec_name()
                        != a.nodes@[cs[cs.len() - 1] as int].spec_name());
                }
            } else {
                assert(f =~= fh);
            }
        }
    }

    /// Remove the child `c` from the directory `p`'s child list; the node
    /// itself stays in the arena but is no longer reachable through `p`.
    pub fn detach_child(&mut self, p: usize, c: usize)
        requires
            old(self).wf(),
            (p as int) < old(self).nodes@.len(),
            old(self).nodes@[p as int].is_dir(),
        ensures
            final(self).wf(),
            same_config(*old(self), *final(self)),
            final(self).nodes@.len() == old(self).nodes@.len(),
            forall|j: int|
                0 <= j < old(self).nodes@.len() && j != p
                    ==> old(self).nodes@[j] == final(self).nodes@[j],
            final(self).nodes@[p as int].is_dir(),
            final(self).nodes@[p as int].spec_name() == old(self).nodes@[p as int].spec_name(),
            final(self).nodes@[p as int].spec_parent() == old(self).nodes@[p as int].spec_parent(),
            final(self).nodes@[p as int].spec_children() == old(
                self,
            ).nodes@[p as int].spec_children().filter(keep_other(c)),
    {
        let node_ref = &mut self.nodes[p];
        node_ref.remove(c);
        proof {
            FileSystem::lemma_wf_after_detach(*old(self), *self, p, c);
        }
    }
}

/// A directory's child found by name is an in-bounds node bearing that
/// name, with its parent edge pointing back.
pub proof fn lemma_child_named_found(a: FileSystem, d: int, name: Seq<char>)
    requires
        a.wf(),
        0 <= d < a.nodes@.len(),
    ensures
        a.child_named(d, name) matches Some(c) ==> (c as int) < a.nodes@.len()
            && a.nodes@[c as int].spec_name() == name && a.nodes@[c as int].spec_parent() == Some(
            d as usize,
        ),
{
    if a.child_named(d, name) is Some {
        a.lemma_child_search_props(a.nodes@[d].spec_children(), 0, name);
        let c = a.child_named(d, name)->0;
        let j = choose|j: int|
            0 <= j < a.nodes@[d].spec_children().len() && a.nodes@[d].spec_children()[j] == c
                && a.nodes@[c as int].spec_name() == name;
        assert(a.node_ok(d));
        assert(a.nodes@[d].spec_children()[j] == c);
    }
}

/// A resolution that answers stays inside the arena.
pub proof fn lemma_resolve_in_bounds(
    a: FileSystem,
    parts: Seq<Seq<char>>,
    k: int,
    cur: usize,
    fuel: nat,
)
    requires
        a.wf(),
        (cur as int) < a.nodes@.len(),
    ensures
        a.resolve_from(parts, k, cur, fuel) matches Some(m) ==> (m as int) < a.nodes@.len(),
    decreases fuel, parts.len() - k,
{
    if k < 0 || k >= parts.len() {
    } else {
        assert(a.node_ok(cur as int));
        match a.nodes@[cur as int] {
            FSItem::Directory(_) => {
                let part = parts[k];
                if part == "."@ {
                    lemma_resolve_in_bounds(a, parts, k + 1, cur, fuel);
                } else if part == ".."@ {
                    match a.nodes@[cur as int].spec_parent() {
                        Some(p) => {
                            lemma_resolve_in_bounds(a, parts, k + 1, p, fuel);
                        },
                        None => {},
                    }
                } else {
                    match a.child_named(cur as int, part) {
                        Some(c) => {
                            lemma_child_named_found(a, cur as int, part);
                            lemma_resolve_in_bounds(a, parts, k + 1, c, fuel);
                        },
                        None => {},
                    }
                }
            },
            FSItem::SymLink(link) => {
                if fuel > 0 {
                    match a.nodes@[cur as int].spec_parent() {
                        Some(p) => {
                            let start: usize = if link.target@.len() > 0 && link.target@[0]
                                == '/' {
                                0
                            } else {
                                p
                            };
                            let inner = text::split_slash(link.target@);
                            lemma_resolve_in_bounds(a, inner, 0, start, (fuel - 1) as nat);
                            match a.resolve_from(inner, 0, start, (fuel - 1) as nat) {
                                Some(t) => {
                                    lemma_resolve_in_bounds(a, parts, k, t, (fuel - 1) as nat);
                                },
                                None => {},
                            }
                        },
                        None => {},
                    }
                }
            },
            FSItem::File(_) => {},
        }
    }
}

/// Appending one child index leaves every earlier search result in
/// place, and a previously missing name is found on the appended child
/// exactly when it bears the name.
pub proof fn lemma_child_search_push(
    fs: FileSystem,
    cs: Seq<usize>,
    x: usize,
    name: Seq<char>,
    k: int,
)
    requires
        0 <= k <= cs.len(),
    ensures
        fs.child_search(cs.push(x), k, name) == (match fs.child_search(cs, k, name) {
            Some(c) => Some(c),
            None => if fs.nodes@[x as int].spec_name() == name {
                Some(x)
            } else {
                None::<usize>
            },
        }),
    decreases cs.len() - k,
{
    if k < cs.len() {
        assert(cs.push(x)[k] == cs[k]);
        lemma_child_search_push(fs, cs, x, name, k + 1);
    } else {
        assert(cs.push(x)[k] == x);
        if fs.nodes@[x as int].spec_name() != name {
            assert(fs.child_search(cs.push(x), k + 1, name) is None);
        }
    }
}

/// Two trees that agree on the names of the listed children search a
/// child list identically.
pub proof fn lemma_child_search_same(
    a: FileSystem,
    b: FileSystem,
    cs: Seq<usize>,
    name: Seq<char>,
    k: int,
)
    requires
        forall|j: int|
            0 <= j < cs.len() ==> b.nodes@[(#[trigger] cs[j]) as int].spec_name()
                == a.nodes@[cs[j] as int].spec_name(),
        0 <= k,
    ensures
        b.child_search(cs, k, name) == a.child_search(cs, k, name),
    decreases cs.len() - k,
{
    if k < cs.len() {
        lemma_child_search_same(a, b, cs, name, k + 1);
    }
}

/// Whether two trees route identically: equal arenas up to file content
/// and sizes — names, parent edges, child lists, kinds and link targets
/// all agree.
pub open spec fn same_route_shape(a: FileSystem, b: FileSystem) -> bool {
    &&& b.nodes@.len() == a.nodes@.len()
    &&& forall|j: int|
        0 <= j < a.nodes@.len() ==> {
            let x = #[trigger] b.nodes@[j];
            let y = a.nodes@[j];
            &&& x.spec_name() == y.spec_name()
            &&& x.spec_parent() == y.spec_parent()
            &&& x.spec_children() == y.spec_children()
            &&& x.is_dir() == y.is_dir()
            &&& x.is_file() == y.is_file()
            &&& (x matches FSItem::SymLink(l) ==> y matches FSItem::SymLink(m) && l.target
                == m.target)
        }
}

/// Routing reads only what `same_route_shape` fixes, so two such trees
/// resolve every path alike.
pub proof fn lemma_resolve_same_shape(
    a: FileSystem,
    b: FileSystem,
    parts: Seq<Seq<char>>,
    k: int,
    cur: usize,
    fuel: nat,
)
    requires
        a.wf(),
        same_route_shape(a, b),
        (cur as int) < a.nodes@.len(),
    ensures
        b.resolve_from(parts, k, cur, fuel) == a.resolve_from(parts, k, cur, fuel),
    decreases fuel, parts.len() - k,
{
    if k < 0 || k >= parts.len() {
    } else {
        assert(a.node_ok(cur as int));
        let an = a.nodes@[cur as int];
        let bn = b.nodes@[cur as int];
        match an {
            FSItem::Directory(_) => {
                assert(bn.is_dir());
                let part = parts[k];
                if part == "."@ {
                    lemma_resolve_same_shape(a, b, parts, k + 1, cur, fuel);
                } else if part == ".."@ {
                    match an.spec_parent() {
                        Some(p) => {
                            lemma_resolve_same_shape(a, b, parts, k + 1, p, fuel);
                        },
                        None => {},
                    }
                } else {
                    let cs = an.spec_children();
                    assert forall|j: int|
                        0 <= j < cs.len() implies b.nodes@[(#[trigger] cs[j]) as int].spec_name()
                        == a.nodes@[cs[j] as int].spec_name() by {
                        assert((cs[j] as int) < a.nodes@.len());
                    }
                    lemma_child_search_same(a, b, cs, part, 0);
                    match a.child_named(cur as int, part) {
                        Some(c) => {
                            lemma_child_named_found(a, cur as int, part);
                            lemma_resolve_same_shape(a, b, parts, k + 1, c, fuel);
                        },
                        None => {},
                    }
                }
            },
            FSItem::SymLink(link) => {
                assert(bn matches FSItem::SymLink(l2) && l2.target == link.target);
                if fuel > 0 {
                    match an.spec_parent() {
                        Some(p) => {
                            let start: usize = if link.target@.len() > 0 && link.target@[0]
                                == '/' {
                                0
                            } else {
                                p
                            };
                            let inner = text::split_slash(link.target@);
                            lemma_resolve_same_shape(a, b, inner, 0, start, (fuel - 1) as nat);
                            match a.resolve_from(inner, 0, start, (fuel - 1) as nat) {
                                Some(t) => {
                                    lemma_resolve_in_bounds(a, inner, 0, start, (fuel - 1) as nat);
                                    lemma_resolve_same_shape(a, b, parts, k, t, (fuel - 1) as nat);
                                },
                                None => {},
                            }
                        },
                        None => {},
                    }
                }
            },
            FSItem::File(_) => {
                assert(bn.is_file());
            },
        }
    }
}

/// A whole-path corollary: two same-shaped trees with the same current
/// node find every path alike.
pub proof fn lemma_find_same_shape(a: FileSystem, b: FileSystem, q: Seq<char>)
    requires
        a.wf(),
        same_route_shape(a, b),
        b.current == a.current,
    ensures
        b.spec_find(q) == a.spec_find(q),
{
    if q.len() > 0 && q[0] == '/' {
        lemma_resolve_same_shape(a, b, text::split_slash(q), 0, 0, FileSystem::link_fuel());
    } else {
        lemma_resolve_same_shape(
            a,
            b,
            text::split_slash(q),
            0,
            a.current,
            FileSystem::link_fuel(),
        );
    }
}

/// Growing the tree by one fresh leaf never changes a resolution that
/// already answered: every step of the old route still takes the same
/// turn, because child lists only gained an entry at their end.
pub proof fn lemma_resolve_preserved_after_add(
    a: FileSystem,
    b: FileSystem,
    p: usize,
    name: Seq<char>,
    parts: Seq<Seq<char>>,
    k: int,
    cur: usize,
    fuel: nat,
)
    requires
        a.wf(),
        a.nodes@.len() < usize::MAX,
        added_child(a, b, p, name),
        (p as int) < a.nodes@.len(),
        a.nodes@[p as int].is_dir(),
        (cur as int) < a.nodes@.len(),
        a.resolve_from(parts, k, cur, fuel) is Some,
    ensures
        b.resolve_from(parts, k, cur, fuel) == a.resolve_from(parts, k, cur, fuel),
    decreases fuel, parts.len() - k,
{
    if k < 0 || k >= parts.len() {
    } else {
        assert(a.node_ok(cur as int));
        let an = a.nodes@[cur as int];
        let bn = b.nodes@[cur as int];
        match an {
            FSItem::Directory(_) => {
                assert(bn.is_dir());
                let part = parts[k];
                if part == "."@ {
                    lemma_resolve_preserved_after_add(a, b, p, name, parts, k + 1, cur, fuel);
                } else if part == ".."@ {
                    match an.spec_parent() {
                        Some(q) => {
                            assert(bn.spec_parent() == an.spec_parent());
                            lemma_resolve_preserved_after_add(a, b, p, name, parts, k + 1, q, fuel);
                        },
                        None => {},
                    }
                } else {
                    let cs = an.spec_children();
                    assert forall|j: int|
                        0 <= j < cs.len() implies b.nodes@[(#[trigger] cs[j]) as int].spec_name()
                        == a.nodes@[cs[j] as int].spec_name() by {
                        assert((cs[j] as int) < a.nodes@.len());
                    }
                    lemma_child_search_same(a, b, cs, part, 0);
                    match a.child_named(cur as int, part) {
                        Some(c) => {
                            lemma_child_named_found(a, cur as int, part);
                            if cur as int == p as int {
                                lemma_child_search_push(b, cs, a.nodes@.len() as usize, part, 0);
                            } else {
                                assert(bn.spec_children() == cs);
                            }
                            assert(b.child_named(cur as int, part) == Some(c));
                            lemma_resolve_preserved_after_add(a, b, p, name, parts, k + 1, c, fuel);
                        },
                        None => {},
                    }
                }
            },
            FSItem::SymLink(link) => {
                if fuel > 0 {
                    match an.spec_parent() {
                        Some(q) => {
                            assert(cur as int != p as int);
                            assert(bn == an);
                            let start: usize = if link.target@.len() > 0 && link.target@[0]
                                == '/' {
                                0
                            } else {
                                q
                            };
                            let inner = text::split_slash(link.target@);
                            match a.resolve_from(inner, 0, start, (fuel - 1) as nat) {
                                Some(t) => {
                                    lemma_resolve_preserved_after_add(
                                        a,
                                        b,
                                        p,
                                        name,
                                        inner,
                                        0,
                                        start,
                                        (fuel - 1) as nat,
                                    );
                                    lemma_resolve_in_bounds(a, inner, 0, start, (fuel - 1) as nat);
                                    lemma_resolve_preserved_after_add(
                                        a,
                                        b,
                                        p,
                                        name,
                                        parts,
                                        k,
                                        t,
                                        (fuel - 1) as nat,
                                    );
                                },
                                None => {},
                            }
                        },
                        None => {},
                    }
                }
            },
            FSItem::File(_) => {},
        }
    }
}

/// A whole-path corollary: a path that resolved before a fresh leaf was
/// added resolves to the same node after it.
pub proof fn lemma_find_preserved_after_add(
    a: FileSystem,
    b: FileSystem,
    p: usize,
    name: Seq<char>,
    q: Seq<char>,
)
    requires
        a.wf(),
        a.nodes@.len() < usize::MAX,
        added_child(a, b, p, name),
        (p as int) < a.nodes@.len(),
        a.nodes@[p as int].is_dir(),
        b.current == a.current,
        a.spec_find(q) is Some,
    ensures
        b.spec_find(q) == a.spec_find(q),
{
    if q.len() > 0 && q[0] == '/' {
        lemma_resolve_preserved_after_add(
            a,
            b,
            p,
            name,
            text::split_slash(q),
            0,
            0,
            FileSystem::link_fuel(),
        );
    } else {
        lemma_resolve_preserved_after_add(
            a,
            b,
            p,
            name,
            text::split_slash(q),
            0,
            a.current,
            FileSystem::link_fuel(),
        );
    }
}

/// Resolving one more segment from a directory the shorter route reached
/// is exactly a child lookup there.
pub proof fn lemma_resolve_append(
    a: FileSystem,
    parts: Seq<Seq<char>>,
    seg: Seq<char>,
    k: int,
    cur: usize,
    fuel: nat,
)
    requires
        a.wf(),
        0 <= k <= parts.len(),
        (cur as int) < a.nodes@.len(),
        seg != "."@,
        seg != ".."@,
        a.resolve_from(parts, k, cur, fuel) matches Some(m) && a.nodes@[m as int].is_dir(),
    ensures
        a.resolve_from(parts.push(seg), k, cur, fuel) == a.child_named(
            (a.resolve_from(parts, k, cur, fuel)->0) as int,
            seg,
        ),
    decreases fuel, parts.len() - k,
{
    lemma_resolve_in_bounds(a, parts, k, cur, fuel);
    let m = a.resolve_from(parts, k, cur, fuel)->0;
    if k >= parts.len() {
        assert(m == cur);
        assert(parts.push(seg)[k] == seg);
        match a.child_named(cur as int, seg) {
            Some(c) => {
                assert(a.resolve_from(parts.push(seg), k + 1, c, fuel) == Some(c));
            },
            None => {},
        }
    } else {
        assert(a.node_ok(cur as int));
        assert(parts.push(seg)[k] == parts[k]);
        match a.nodes@[cur as int] {
            FSItem::Directory(_) => {
                let part = parts[k];
                if part == "."@ {
                    lemma_resolve_append(a, parts, seg, k + 1, cur, fuel);
                } else if part == ".."@ {
                    match a.nodes@[cur as int].spec_parent() {
                        Some(q) => {
                            lemma_resolve_append(a, parts, seg, k + 1, q, fuel);
                        },
                        None => {},
                    }
                } else {
                    match a.child_named(cur as int, part) {
                        Some(c) => {
                            lemma_child_named_found(a, cur as int, part);
                            lemma_resolve_append(a, parts, seg, k + 1, c, fuel);
                        },
                        None => {},
                    }
                }
            },
            FSItem::SymLink(link) => {
                if fuel > 0 {
                    match a.nodes@[cur as int].spec_parent() {
                        Some(q) => {
                            let start: usize = if link.target@.len() > 0 && link.target@[0]
                                == '/' {
                                0
                            } else {
                                q
                            };
                            let inner = text::split_slash(link.target@);
                            match a.resolve_from(inner, 0, start, (fuel - 1) as nat) {
                                Some(t) => {
                                    lemma_resolve_in_bounds(a, inner, 0, start, (fuel - 1) as nat);
                                    lemma_resolve_append(a, parts, seg, k, t, (fuel - 1) as nat);
                                },
                                None => {},
                            }
                        },
                        None => {},
                    }
                }
            },
            FSItem::File(_) => {},
        }
    }
}

/// Whether node `n` lies on the parent chain of `cur`, `cur` included.
pub open spec fn in_parent_chain(a: FileSystem, cur: usize, n: usize) -> bool
    decreases cur,
{
    if cur == n {
        true
    } else {
        match a.nodes@[cur as int].spec_parent() {
            Some(q) => if (q as int) < cur as int {
                in_parent_chain(a, q, n)
            } else {
                false
            },
            None => false,
        }
    }
}

/// The shape left by detaching child `n` from its parent `p`: every
/// other node untouched, `p` keeping its identity with `n` filtered out
/// of its child list.
pub open spec fn removed_child(a: FileSystem, b: FileSystem, p: usize, n: usize) -> bool {
    &&& b.nodes@.len() == a.nodes@.len()
    &&& (forall|j: int| 0 <= j < a.nodes@.len() && j != p ==> a.nodes@[j] == b.nodes@[j])
    &&& b.nodes@[p as int].is_dir()
    &&& b.nodes@[p as int].spec_name() == a.nodes@[p as int].spec_name()
    &&& b.nodes@[p as int].spec_parent() == a.nodes@[p as int].spec_parent()
    &&& b.nodes@[p as int].spec_children() == a.nodes@[p as int].spec_children().filter(
        keep_other(n),
    )
}

/// A name found among the remaining children was already the unique
/// match before the removal.
proof fn lemma_child_search_filter_rev(
    a: FileSystem,
    b: FileSystem,
    cs: Seq<usize>,
    n: usize,
    name: Seq<char>,
)
    requires
        forall|j: int|
            0 <= j < cs.len() ==> b.nodes@[(#[trigger] cs[j]) as int].spec_name()
                == a.nodes@[cs[j] as int].spec_name(),
        forall|j1: int, j2: int|
            0 <= j1 < j2 < cs.len() ==> a.nodes@[cs[j1] as int].spec_name()
                != a.nodes@[cs[j2] as int].spec_name(),
    ensures
        b.child_search(cs.filter(keep_other(n)), 0, name) matches Some(c)
            ==> a.child_search(cs, 0, name) == Some(c),
{
    let fcs = cs.filter(keep_other(n));
    if b.child_search(fcs, 0, name) is Some {
        let c = b.child_search(fcs, 0, name)->0;
        b.lemma_child_search_props(fcs, 0, name);
        let jf = choose|jf: int|
            0 <= jf < fcs.len() && fcs[jf] == c && b.nodes@[c as int].spec_name() == name;
        text::lemma_filter_elems(cs, keep_other(n));
        let j = choose|j: int| 0 <= j < cs.len() && cs[j] == fcs[jf];
        assert(a.nodes@[c as int].spec_name() == name);
        a.lemma_child_search_props(cs, 0, name);
        match a.child_search(cs, 0, name) {
            Some(c2) => {
                let j2 = choose|j2: int|
                    0 <= j2 < cs.len() && cs[j2] == c2 && a.nodes@[c2 as int].spec_name() == name;
                if j != j2 {
                    if j < j2 {
                        assert(a.nodes@[cs[j] as int].spec_name()
                            != a.nodes@[cs[j2] as int].spec_name());
                    } else {
                        assert(a.nodes@[cs[j2] as int].spec_name()
                            != a.nodes@[cs[j] as int].spec_name());
                    }
                }
            },
            None => {
                assert(a.nodes@[(cs[j]) as int].spec_name() != name);
            },
        }
    }
}

/// After detaching a child, any route that still answers answered the
/// same way before: removal never redirects a resolution, it can only
/// refuse it.
pub proof fn lemma_resolve_reverse_after_remove(
    a: FileSystem,
    b: FileSystem,
    p: usize,
    n: usize,
    parts: Seq<Seq<char>>,
    k: int,
    cur: usize,
    fuel: nat,
)
    requires
        a.wf(),
        removed_child(a, b, p, n),
        (p as int) < a.nodes@.len(),
        a.nodes@[p as int].is_dir(),
        (cur as int) < a.nodes@.len(),
    ensures
        b.resolve_from(parts, k, cur, fuel) matches Some(m) ==> a.resolve_from(parts, k, cur, fuel)
            == Some(m),
    decreases fuel, parts.len() - k,
{
    if k < 0 || k >= parts.len() {
    } else {
        assert(a.node_ok(cur as int));
        let an = a.nodes@[cur as int];
        let bn = b.nodes@[cur as int];
        match an {
            FSItem::Directory(_) => {
                assert(bn.is_dir());
                let part = parts[k];
                if part == "."@ {
                    lemma_resolve_reverse_after_remove(a, b, p, n, parts, k + 1, cur, fuel);
                } else if part == ".."@ {
                    match an.spec_parent() {
                        Some(q) => {
                            assert(bn.spec_parent() == an.spec_parent());
                            lemma_resolve_reverse_after_remove(a, b, p, n, parts, k + 1, q, fuel);
                        },
                        None => {},
                    }
                } else {
                    let cs = an.spec_children();
                    assert forall|j: int|
                        0 <= j < cs.len() implies b.nodes@[(#[trigger] cs[j]) as int].spec_name()
                        == a.nodes@[cs[j] as int].spec_name() by {
                        assert((cs[j] as int) < a.nodes@.len());
                    }
                    if cur as int == p as int {
                        assert forall|j1: int, j2: int|
                            0 <= j1 < j2 < cs.len() implies a.nodes@[cs[j1] as int].spec_name()
                            != a.nodes@[cs[j2] as int].spec_name() by {
                            assert(a.node_ok(cur as int));
                        }
                        lemma_child_search_filter_rev(a, b, cs, n, part);
                    } else {
                        assert(bn.spec_children() == cs);
                        lemma_child_search_same(a, b, cs, part, 0);
                    }
                    match b.child_named(cur as int, part) {
                        Some(c) => {
                            assert(a.child_named(cur as int, part) == Some(c));
                            lemma_child_named_found(a, cur as int, part);
                            lemma_resolve_reverse_after_remove(a, b, p, n, parts, k + 1, c, fuel);
                        },
                        None => {},
                    }
                }
            },
            FSItem::SymLink(link) => {
                if fuel > 0 {
                    match an.spec_parent() {
                        Some(q) => {
                            assert(cur as int != p as int);
                            assert(bn == an);
                            let start: usize = if link.target@.len() > 0 && link.target@[0]
                                == '/' {
                                0
                            } else {
                                q
                            };
                            let inner = text::split_slash(link.target@);
                            lemma_resolve_reverse_after_remove(
                                a,
                                b,
                                p,
                                n,
                                inner,
                                0,
                                start,
                                (fuel - 1) as nat,
                            );
                            match b.resolve_from(inner, 0, start, (fuel - 1) as nat) {
                                Some(t) => {
                                    lemma_resolve_in_bounds(a, inner, 0, start, (fuel - 1) as nat);
                                    lemma_resolve_reverse_after_remove(
                                        a,
                                        b,
                                        p,
                                        n,
                                        parts,
                                        k,
                                        t,
                                        (fuel - 1) as nat,
                                    );
                                },
                                None => {},
                            }
                        },
                        None => {},
                    }
                }
            },
            FSItem::File(_) => {},
        }
    }
}

/// After detaching child `n`, no route that starts outside `n`'s parent
/// chain ever reaches `n`: only its parent listed it, and the list entry
/// is gone.
pub proof fn lemma_resolve_avoids_removed(
    a: FileSystem,
    b: FileSystem,
    p: usize,
    n: usize,
    parts: Seq<Seq<char>>,
    k: int,
    cur: usize,
    fuel: nat,
)
    requires
        a.wf(),
        b.wf(),
        removed_child(a, b, p, n),
        0 < (n as int) < a.nodes@.len(),
        a.nodes@[n as int].spec_parent() == Some(p),
        (p as int) < a.nodes@.len(),
        a.nodes@[p as int].is_dir(),
        (cur as int) < a.nodes@.len(),
        !in_parent_chain(b, cur, n),
    ensures
        b.resolve_from(parts, k, cur, fuel) matches Some(m) ==> !in_parent_chain(b, m, n),
    decreases fuel, parts.len() - k,
{
    if k < 0 || k >= parts.len() {
    } else {
        assert(a.node_ok(cur as int));
        let an = a.nodes@[cur as int];
        let bn = b.nodes@[cur as int];
        match an {
            FSItem::Directory(_) => {
                let part = parts[k];
                if part == "."@ {
                    lemma_resolve_avoids_removed(a, b, p, n, parts, k + 1, cur, fuel);
                } else if part == ".."@ {
                    match an.spec_parent() {
                        Some(q) => {
                            assert(!in_parent_chain(b, q, n));
                            lemma_resolve_avoids_removed(a, b, p, n, parts, k + 1, q, fuel);
                        },
                        None => {},
                    }
                } else {
                    match b.child_named(cur as int, part) {
                        Some(c) => {
                            assert(b.node_ok(cur as int));
                            b.lemma_child_search_props(bn.spec_children(), 0, part);
                            let j = choose|j: int|
                                0 <= j < bn.spec_children().len() && bn.spec_children()[j] == c
                                    && b.nodes@[c as int].spec_name() == part;
                            assert(b.nodes@[c as int].spec_parent() == Some(cur));
                            assert((c as int) < b.nodes@.len());
                            assert(c != n) by {
                                if c == n {
                                    if cur as int == p as int {
                                        text::lemma_filter_elems(
                                            an.spec_children(),
                                            keep_other(n),
                                        );
                                        let j0 = choose|j0: int|
                                            0 <= j0 < an.spec_children().len()
                                                && an.spec_children()[j0] == bn.spec_children()[j];
                                        assert(bn.spec_children()[j] != n);
                                    } else {
                                        assert(b.nodes@[n as int].spec_parent() == Some(p));
                                    }
                                }
                            }
                            assert(!in_parent_chain(b, c, n)) by {
                                assert((cur as int) < c as int) by {
                                    assert(b.node_ok(c as int));
                                }
                            }
                            lemma_resolve_avoids_removed(a, b, p, n, parts, k + 1, c, fuel);
                        },
                        None => {},
                    }
                }
            },
            FSItem::SymLink(link) => {
                if fuel > 0 {
                    match an.spec_parent() {
                        Some(q) => {
                            assert(cur as int != p as int);
                            assert(bn == an);
                            let start: usize = if link.target@.len() > 0 && link.target@[0]
                                == '/' {
                                0
                            } else {
                                q
                            };
                            assert(!in_parent_chain(b, start, n)) by {
                                if start == q {
                                    assert(!in_parent_chain(b, q, n));
                                } else {
                                    assert(b.node_ok(0));
                                }
                            }
                            let inner = text::split_slash(link.target@);
                            lemma_resolve_avoids_removed(
                                a,
                                b,
                                p,
                                n,
                                inner,
                                0,
                                start,
                                (fuel - 1) as nat,
                            );
                            match b.resolve_from(inner, 0, start, (fuel - 1) as nat) {
                                Some(t) => {
                                    lemma_resolve_in_bounds(b, inner, 0, start, (fuel - 1) as nat);
                                    lemma_resolve_avoids_removed(
                                        a,
                                        b,
                                        p,
                                        n,
                                        parts,
                                        k,
                                        t,
                                        (fuel - 1) as nat,
                                    );
                                },
                                None => {},
                            }
                        },
                        None => {},
                    }
                }
            },
            FSItem::File(_) => {},
        }
    }
}

} // verus!
