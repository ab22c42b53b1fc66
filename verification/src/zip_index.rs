//! An in-memory snapshot of a zip archive's directory structure, built
//! once from its central directory so that every lookup afterward —
//! listing a directory, reading metadata, following a symlink — is answered
//! from memory.
//!
//! Keys are normalized, `/`-joined paths with no leading slash (the root is
//! the empty key), matching zip's own entry naming. Directories are
//! implied by file paths when the archive has no explicit entry for them.

use vstd::prelude::*;

use crate::strorder::{Cmp, compare_chars, insert_sorted, sorted_strs, strs_view};
use std::collections::VecDeque;

use crate::error::{ErrorKind, SourceError};
use crate::text::{append_chars, chars_eq, chars_of, nonempty_parts, split_nonempty, string_of};

verus! {

/// Maximum symlink hops [`Index::resolve`] follows before giving up,
/// mirroring the ELOOP threshold real filesystems use.
pub const MAX_SYMLINK_HOPS: u32 = 40;

/// One archive entry that is not a directory: a regular file or a symlink.
#[derive(Debug)]
pub struct FileEntry {
    /// Index into the archive's central directory, used to reach this
    /// entry's data when its bytes are actually needed.
    pub archive_index: usize,
    /// Uncompressed size — for a symlink, the length of its target text.
    pub size: u64,
    /// Last-modified time, in whole seconds relative to the Unix epoch.
    pub modified: Option<i64>,
    pub is_symlink: bool,
    /// `Some` exactly for a symlink: the text of its target path.
    pub symlink_target: Option<String>,
}

/// A node of the index: a directory with the names of its immediate
/// children (a `Vec` kept sorted and free of repeats, which `wf` states,
/// standing for a `BTreeSet`), or a file entry.
#[derive(Debug)]
pub enum Node {
    Dir {
        children: Vec<Vec<char>>,
        /// `Some` only when the archive has an explicit entry for this
        /// directory.
        modified: Option<i64>,
    },
    File(FileEntry),
}

pub struct FileView {
    pub archive_index: usize,
    pub size: u64,
    pub modified: Option<i64>,
    pub is_symlink: bool,
    pub target: Option<Seq<char>>,
}

pub enum NodeView {
    Dir { children: Set<Seq<char>>, modified: Option<i64> },
    File(FileView),
}

impl FileEntry {
    pub open spec fn view(&self) -> FileView {
        FileView {
            archive_index: self.archive_index,
            size: self.size,
            modified: self.modified,
            is_symlink: self.is_symlink,
            target: match self.symlink_target {
                Some(t) => Some(t@),
                None => None,
            },
        }
    }
}

impl Node {
    pub open spec fn view(&self) -> NodeView {
        match self {
            Node::Dir { children, modified } => NodeView::Dir {
                children: strs_view(children@).to_set(),
                modified: *modified,
            },
            Node::File(f) => NodeView::File(f.view()),
        }
    }

    pub open spec fn wf(&self) -> bool {
        match self {
            Node::Dir { children, .. } => sorted_strs(strs_view(children@)),
            Node::File(_) => true,
        }
    }
}

/// A path-keyed snapshot of an archive's structure.
///
/// The map from key to node is held as two parallel vectors, keys and
/// nodes, with distinct keys as part of `wf`, rather than as a
/// `BTreeMap<String, Node>`: vstd states what a `BTreeMap` holds only for
/// key types known to obey its ordering model, and nothing establishes
/// that for `String` without an assumption, while `Vec`'s specification
/// is complete. `view` turns the vectors back into the map the contracts
/// speak of.
pub struct Index {
    keys: Vec<Vec<char>>,
    nodes: Vec<Node>,
}

/// `join(base, name)`: `name` under `base`, or `name` itself under the root.
pub open spec fn spec_join(base: Seq<char>, name: Seq<char>) -> Seq<char> {
    if base.len() == 0 {
        name
    } else {
        base + seq!['/'] + name
    }
}

pub open spec fn no_leading_slash(k: Seq<char>) -> bool {
    !(k.len() > 0 && k[0] == '/')
}

/// `k` without its leading `/`s.
pub open spec fn strip_leading_slashes(k: Seq<char>) -> Seq<char>
    decreases k.len(),
{
    if k.len() > 0 && k[0] == '/' { strip_leading_slashes(k.drop_first()) } else { k }
}

proof fn lemma_strip_no_lead(k: Seq<char>)
    ensures
        no_leading_slash(strip_leading_slashes(k)),
    decreases k.len(),
{
    if k.len() > 0 && k[0] == '/' {
        lemma_strip_no_lead(k.drop_first());
    }
}

fn strip_leading_slash_chars(k: &[char]) -> (r: Vec<char>)
    ensures
        r@ == strip_leading_slashes(k@),
{
    let mut i: usize = 0;
    proof {
        assert(k@.skip(0) =~= k@);
    }
    while i < k.len() && k[i] == '/'
        invariant
            i <= k@.len(),
            strip_leading_slashes(k@) == strip_leading_slashes(k@.skip(i as int)),
        decreases k.len() - i,
    {
        proof {
            assert(k@.skip(i as int).drop_first() =~= k@.skip(i + 1));
        }
        i = i + 1;
    }
    let n = k.len();
    let r = crate::text::slice_chars(k, i, n);
    proof {
        assert(r@ =~= k@.skip(i as int));
    }
    r
}

/// Every child a directory lists is itself a key of the index.
pub open spec fn children_linked(m: Map<Seq<char>, NodeView>) -> bool {
    forall|k: Seq<char>, n: Seq<char>|
        #![trigger m[k], spec_join(k, n)]
        m.contains_key(k) && (m[k] matches NodeView::Dir { children, .. } && children.contains(n))
            ==> m.contains_key(spec_join(k, n))
}

/// The position of the last `/` in `s`, if any.
pub open spec fn last_slash(s: Seq<char>) -> Option<int>
    decreases s.len(),
{
    if s.len() == 0 {
        None
    } else if s.last() == '/' {
        Some(s.len() - 1)
    } else {
        last_slash(s.drop_last())
    }
}

pub proof fn lemma_last_slash(s: Seq<char>)
    ensures
        last_slash(s) matches Some(i) ==> 0 <= i < s.len() && s[i] == '/' && forall|j: int| i < j < s.len() ==> s[j] != '/',
        last_slash(s) is None ==> forall|j: int| 0 <= j < s.len() ==> s[j] != '/',
    decreases s.len(),
{
    if s.len() > 0 && s.last() != '/' {
        lemma_last_slash(s.drop_last());
        assert forall|j: int| 0 <= j < s.len() - 1 implies s[j] == s.drop_last()[j] by {}
    }
}

/// The parent key of `key` and `key`'s own name within it.
pub open spec fn parent_and_name(key: Seq<char>) -> (Seq<char>, Seq<char>) {
    match last_slash(key) {
        Some(i) => (key.subrange(0, i), key.subrange(i + 1, key.len() as int)),
        None => (Seq::empty(), key),
    }
}

pub open spec fn empty_dir() -> NodeView {
    NodeView::Dir { children: Set::empty(), modified: None }
}

/// Links `key` into its parent's children, first creating the parent (and,
/// recursively, its own ancestors) as an implicit directory if missing.
/// Nothing is linked into a parent that is a file.
pub open spec fn spec_register(m: Map<Seq<char>, NodeView>, key: Seq<char>) -> Map<Seq<char>, NodeView>
    decreases key.len(), 0nat,
{
    if key.len() == 0 {
        m
    } else {
        let (p, n) = parent_and_name(key);
        if p.len() < key.len() {
            let m1 = spec_ensure_dir(m, p);
            if m1.contains_key(p) {
                match m1[p] {
                    NodeView::Dir { children, modified } => m1.insert(p, NodeView::Dir { children: children.insert(n), modified }),
                    NodeView::File(_) => m1,
                }
            } else {
                m1
            }
        } else {
            m
        }
    }
}

/// Makes sure `key` exists, creating it as an implicit, empty directory
/// linked into its ancestors if it does not.
pub open spec fn spec_ensure_dir(m: Map<Seq<char>, NodeView>, key: Seq<char>) -> Map<Seq<char>, NodeView>
    decreases key.len(), 1nat,
{
    if m.contains_key(key) {
        m
    } else {
        spec_register(m.insert(key, empty_dir()), key)
    }
}

/// The index after recording a directory entry at `key`: any children it
/// already had (from an implicit creation) are kept.
pub open spec fn spec_insert_dir(m: Map<Seq<char>, NodeView>, key: Seq<char>, modified: Option<i64>) -> Map<Seq<char>, NodeView> {
    let children = if m.contains_key(key) {
        match m[key] {
            NodeView::Dir { children, .. } => children,
            NodeView::File(_) => Set::empty(),
        }
    } else {
        Set::empty()
    };
    spec_register(m.insert(key, NodeView::Dir { children, modified }), key)
}

/// The index after recording a file entry at `key`.
pub open spec fn spec_insert_file(m: Map<Seq<char>, NodeView>, key: Seq<char>, f: FileView) -> Map<Seq<char>, NodeView> {
    spec_register(m.insert(key, NodeView::File(f)), key)
}

/// `b` extends `a`: no key is lost, a file stays the same file, and a
/// directory keeps its timestamp and every child it had.
pub open spec fn map_grows(a: Map<Seq<char>, NodeView>, b: Map<Seq<char>, NodeView>) -> bool {
    forall|k: Seq<char>| #![trigger b[k]] #![trigger a.contains_key(k)] a.contains_key(k) ==> {
        &&& b.contains_key(k)
        &&& (a[k] matches NodeView::File(f) ==> b[k] == NodeView::File(f))
        &&& (a[k] matches NodeView::Dir { children: c1, modified: m1 } ==> (b[k] matches NodeView::Dir { children: c2, modified: m2 } && m2 == m1 && c1.subset_of(c2)))
    }
}

pub proof fn lemma_parent_name(key: Seq<char>)
    requires
        key.len() > 0,
        no_leading_slash(key),
    ensures
        parent_and_name(key).0.len() < key.len(),
        no_leading_slash(parent_and_name(key).0),
        spec_join(parent_and_name(key).0, parent_and_name(key).1) == key,
{
    lemma_last_slash(key);
    match last_slash(key) {
        Some(i) => {
            let p = key.subrange(0, i);
            let n = key.subrange(i + 1, key.len() as int);
            assert(i > 0);
            assert(p + seq!['/'] + n =~= key);
        },
        None => {},
    }
}

impl Index {
    pub closed spec fn kv_contains(&self, k: Seq<char>) -> bool {
        exists|i: int| 0 <= i < self.keys@.len() && #[trigger] self.keys@[i]@ == k
    }

    pub closed spec fn kv_index(&self, k: Seq<char>) -> int {
        choose|i: int| 0 <= i < self.keys@.len() && #[trigger] self.keys@[i]@ == k
    }

    /// The index as a map from key to node.
    pub closed spec fn view(&self) -> Map<Seq<char>, NodeView> {
        Map::new(|k: Seq<char>| self.kv_contains(k), |k: Seq<char>| self.nodes@[self.kv_index(k)].view())
    }

    pub closed spec fn keys_ok(&self) -> bool {
        &&& self.keys@.len() == self.nodes@.len()
        &&& forall|i: int, j: int| 0 <= i < j < self.keys@.len() ==> #[trigger] self.keys@[i]@ != #[trigger] self.keys@[j]@
    }

    /// The representation invariant: one node per distinct key, sorted
    /// child lists, no key with a leading `/`, and every listed child
    /// present as a key of its own.
    pub closed spec fn wf(&self) -> bool {
        &&& self.keys@.len() == self.nodes@.len()
        &&& forall|i: int, j: int| 0 <= i < j < self.keys@.len() ==> #[trigger] self.keys@[i]@ != #[trigger] self.keys@[j]@
        &&& forall|i: int| 0 <= i < self.nodes@.len() ==> #[trigger] self.nodes@[i].wf()
        &&& forall|i: int| 0 <= i < self.keys@.len() ==> no_leading_slash(#[trigger] self.keys@[i]@)
        &&& children_linked(self.view())
    }

    proof fn lemma_view_at(&self, i: int)
        requires
            self.keys_ok(),
            0 <= i < self.keys@.len(),
        ensures
            self.view().contains_key(self.keys@[i]@),
            self.view()[self.keys@[i]@] == self.nodes@[i].view(),
            self.kv_index(self.keys@[i]@) == i,
    {
        let k = self.keys@[i]@;
        assert(self.kv_contains(k));
        let j = self.kv_index(k);
        if j != i {
            if j < i {
                assert(self.keys@[j]@ != self.keys@[i]@);
            } else {
                assert(self.keys@[i]@ != self.keys@[j]@);
            }
        }
    }

    /// Every child a directory of a well-formed index lists is a key of
    /// its own.
    pub proof fn lemma_child_present(&self, k: Seq<char>, n: Seq<char>)
        requires
            self.wf(),
            self.view().contains_key(k),
            self.view()[k] matches NodeView::Dir { children, .. } && children.contains(n),
        ensures
            self.view().contains_key(spec_join(k, n)),
    {
        assert(children_linked(self.view()));
        assert(self.view()[k] == self.view()[k]);
    }

    /// An index holding only the (implicit, empty) root directory.
    pub fn new() -> (idx: Index)
        ensures
            idx.wf(),
            idx.view() == Map::<Seq<char>, NodeView>::empty().insert(Seq::<char>::empty(), empty_dir()),
    {
        let mut keys: Vec<Vec<char>> = Vec::new();
        let mut nodes: Vec<Node> = Vec::new();
        keys.push(Vec::new());
        nodes.push(Node::Dir { children: Vec::new(), modified: None });
        let idx = Index { keys, nodes };
        proof {
            idx.lemma_view_at(0);
            assert(strs_view(Seq::<Vec<char>>::empty()).to_set() =~= Set::<Seq<char>>::empty());
            assert(idx.view() =~= Map::<Seq<char>, NodeView>::empty().insert(Seq::<char>::empty(), empty_dir()));
            assert forall|k: Seq<char>, n: Seq<char>|
                #![trigger idx.view()[k], spec_join(k, n)]
                idx.view().contains_key(k) && (idx.view()[k] matches NodeView::Dir { children, .. } && children.contains(n))
                    implies idx.view().contains_key(spec_join(k, n)) by {
                assert(idx.view()[k] == empty_dir());
            }
        }
        idx
    }

    /// The position of `key` among the keys, if present.
    fn find(&self, key: &[char]) -> (r: Option<usize>)
        requires
            self.wf(),
        ensures
            r matches Some(i) ==> i < self.keys@.len() && self.keys@[i as int]@ == key@,
            r is None ==> !self.view().contains_key(key@),
    {
        let mut i: usize = 0;
        while i < self.keys.len()
            invariant
                self.wf(),
                i <= self.keys@.len(),
                forall|j: int| 0 <= j < i ==> #[trigger] self.keys@[j]@ != key@,
            decreases self.keys.len() - i,
        {
            if chars_eq(self.keys[i].as_slice(), key) {
                return Some(i);
            }
            i = i + 1;
        }
        None
    }

    /// The node recorded at `key`, if any.
    pub fn get(&self, key: &str) -> (r: Option<&Node>)
        requires
            self.wf(),
        ensures
            r matches Some(n) ==> self.view().contains_key(key@) && self.view()[key@] == n.view(),
            r is None ==> !self.view().contains_key(key@),
    {
        let k = chars_of(key);
        match self.find(k.as_slice()) {
            Some(i) => {
                proof {
                    self.lemma_view_at(i as int);
                }
                Some(&self.nodes[i])
            },
            None => None,
        }
    }

    pub(crate) fn get_chars(&self, key: &[char]) -> (r: Option<&Node>)
        requires
            self.wf(),
        ensures
            r matches Some(n) ==> self.view().contains_key(key@) && self.view()[key@] == n.view() && n.wf(),
            r is None ==> !self.view().contains_key(key@),
    {
        match self.find(key) {
            Some(i) => {
                proof {
                    self.lemma_view_at(i as int);
                }
                Some(&self.nodes[i])
            },
            None => None,
        }
    }

    /// Whether `key` is present.
    fn contains_key(&self, key: &[char]) -> (r: bool)
        requires
            self.wf(),
        ensures
            r == self.view().contains_key(key@),
    {
        match self.find(key) {
            Some(i) => {
                proof {
                    self.lemma_view_at(i as int);
                }
                true
            },
            None => false,
        }
    }

    /// Records `node` at `key`, replacing whatever was there.
    fn put(&mut self, key: &[char], node: Node)
        requires
            old(self).wf(),
            node.wf(),
            no_leading_slash(key@),
            children_linked(old(self).view().insert(key@, node.view())),
        ensures
            final(self).wf(),
            final(self).view() == old(self).view().insert(key@, node.view()),
    {
        let ghost old_view = self.view();
        match self.find(key) {
            Some(i) => {
                proof {
                    old(self).lemma_view_at(i as int);
                }
                self.nodes.set(i, node);
                proof {
                    assert forall|a: int, b: int| 0 <= a < b < self.keys@.len() implies #[trigger] self.keys@[a]@ != #[trigger] self.keys@[b]@ by {
                        assert(old(self).keys@[a]@ != old(self).keys@[b]@);
                    }
                    assert(self.view() =~= old_view.insert(key@, node.view())) by {
                        assert forall|k: Seq<char>| #[trigger] self.view().contains_key(k) == old_view.insert(key@, node.view()).contains_key(k) by {
                            if old_view.contains_key(k) {
                                let j = old(self).kv_index(k);
                                assert(self.keys@[j]@ == k);
                            }
                            if self.view().contains_key(k) {
                                let j = self.kv_index(k);
                                assert(old(self).keys@[j]@ == k);
                            }
                        }
                        assert forall|k: Seq<char>| self.view().contains_key(k) implies #[trigger] self.view()[k] == old_view.insert(key@, node.view())[k] by {
                            let j = self.kv_index(k);
                            self.lemma_view_at(j);
                            if j == i {
                            } else {
                                old(self).lemma_view_at(j);
                            }
                        }
                    }
                }
            },
            None => {
                let mut kv: Vec<char> = Vec::new();
                let mut j: usize = 0;
                while j < key.len()
                    invariant
                        j <= key@.len(),
                        kv@ == key@.subrange(0, j as int),
                    decreases key.len() - j,
                {
                    kv.push(key[j]);
                    j = j + 1;
                }
                proof {
                    assert(key@.subrange(0, key@.len() as int) == key@);
                }
                self.keys.push(kv);
                self.nodes.push(node);
                proof {
                    let n = self.keys@.len() - 1;
                    assert forall|a: int, b: int| 0 <= a < b < self.keys@.len() implies #[trigger] self.keys@[a]@ != #[trigger] self.keys@[b]@ by {
                        if b == n {
                            assert(old(self).keys@[a]@ != key@) by {
                                if old(self).keys@[a]@ == key@ {
                                    assert(old_view.contains_key(key@));
                                }
                            }
                        } else {
                            assert(old(self).keys@[a]@ != old(self).keys@[b]@);
                        }
                    }
                    assert(self.view() =~= old_view.insert(key@, node.view())) by {
                        assert forall|k: Seq<char>| #[trigger] self.view().contains_key(k) == old_view.insert(key@, node.view()).contains_key(k) by {
                            if old_view.contains_key(k) {
                                let j = old(self).kv_index(k);
                                assert(self.keys@[j]@ == k);
                            }
                            if k == key@ {
                                assert(self.keys@[n]@ == k);
                            }
                            if self.view().contains_key(k) {
                                let j = self.kv_index(k);
                                if j < n {
                                    assert(old(self).keys@[j]@ == k);
                                }
                            }
                        }
                        assert forall|k: Seq<char>| self.view().contains_key(k) implies #[trigger] self.view()[k] == old_view.insert(key@, node.view())[k] by {
                            let j = self.kv_index(k);
                            self.lemma_view_at(j);
                            if j < n {
                                old(self).lemma_view_at(j);
                            }
                        }
                    }
                }
            },
        }
    }

    /// Makes sure `key` exists, auto-vivifying it (and its ancestors) as an
    /// implicit directory if it does not.
    fn ensure_dir(&mut self, key: &[char])
        requires
            old(self).wf(),
            no_leading_slash(key@),
        ensures
            final(self).wf(),
            final(self).view() == spec_ensure_dir(old(self).view(), key@),
            map_grows(old(self).view(), final(self).view()),
            final(self).view().contains_key(key@),
        decreases key@.len(), 1nat,
    {
        if self.contains_key(key) {
            return;
        }
        let ghost v0 = self.view();
        proof {
            assert(strs_view(Seq::<Vec<char>>::empty()).to_set() =~= Set::<Seq<char>>::empty());
            let m = v0.insert(key@, empty_dir());
            assert forall|k: Seq<char>, n: Seq<char>|
                #![trigger m[k], spec_join(k, n)]
                m.contains_key(k) && (m[k] matches NodeView::Dir { children, .. } && children.contains(n))
                    implies m.contains_key(spec_join(k, n)) by {
                if k != key@ {
                    assert(v0[k] == m[k]);
                }
            }
        }
        self.put(key, Node::Dir { children: Vec::new(), modified: None });
        let ghost v1 = self.view();
        self.register_in_parent(key);
        proof {
            let vv = self.view();
            assert(v1.contains_key(key@));
            assert(map_grows(v1, vv));
            assert(vv[key@] == vv[key@]);
            assert(vv.contains_key(key@));
            assert(map_grows(v0, self.view())) by {
                assert forall|k: Seq<char>| #![trigger self.view()[k]] v0.contains_key(k) implies {
                    &&& self.view().contains_key(k)
                    &&& (v0[k] matches NodeView::File(f) ==> self.view()[k] == NodeView::File(f))
                    &&& (v0[k] matches NodeView::Dir { children: c1, modified: m1 } ==> (self.view()[k] matches NodeView::Dir { children: c2, modified: m2 } && m2 == m1 && c1.subset_of(c2)))
                } by {
                    assert(v1[k] == v0[k]);
                }
            }
        }
    }

    /// Links `key` (already present) into its parent's children.
    fn register_in_parent(&mut self, key: &[char])
        requires
            old(self).wf(),
            no_leading_slash(key@),
            old(self).view().contains_key(key@),
        ensures
            final(self).wf(),
            final(self).view() == spec_register(old(self).view(), key@),
            map_grows(old(self).view(), final(self).view()),
        decreases key@.len(), 0nat,
    {
        if key.len() == 0 {
            return;
        }
        let ghost v0 = self.view();
        proof {
            lemma_parent_name(key@);
            lemma_last_slash(key@);
        }
        let (parent, name) = split_last_slash(key);
        self.ensure_dir(parent.as_slice());
        let ghost v1 = self.view();
        match self.find(parent.as_slice()) {
            Some(i) => {
                proof {
                    self.lemma_view_at(i as int);
                }
                let node2 = match &self.nodes[i] {
                    Node::Dir { children, modified } => {
                        proof {
                            assert(self.nodes@[i as int].wf());
                        }
                        let mut c = clone_strs(children);
                        insert_sorted(&mut c, name.as_slice());
                        Some(Node::Dir { children: c, modified: *modified })
                    },
                    Node::File(_) => None,
                };
                match node2 {
                    Some(node2) => {
                        proof {
                            let c1 = match v1[parent@] { NodeView::Dir { children, .. } => children, _ => Set::empty() };
                            let m = v1.insert(parent@, node2.view());
                            assert(spec_join(parent@, name@) == key@);
                            assert(map_grows(v0, v1));
                            assert(v1[key@] == v1[key@]);
                            assert(v1.contains_key(key@));
                            assert(children_linked(v1));
                            assert(v1[parent@] matches NodeView::Dir { .. });
                            assert(node2.view() matches NodeView::Dir { children, .. } && children == c1.insert(name@));
                            assert forall|k: Seq<char>, n: Seq<char>|
                                #![trigger m[k], spec_join(k, n)]
                                m.contains_key(k) && (m[k] matches NodeView::Dir { children, .. } && children.contains(n))
                                    implies m.contains_key(spec_join(k, n)) by {
                                if k != parent@ {
                                    assert(v1[k] == m[k]);
                                } else if n != name@ {
                                    assert(c1.contains(n));
                                }
                            }
                        }
                        self.put(parent.as_slice(), node2);
                        proof {
                            assert(self.view() == spec_register(v0, key@));
                        }
                    },
                    None => {
                        proof {
                            assert(self.view() == spec_register(v0, key@));
                        }
                    },
                }
            },
            None => {},
        }
        proof {
            assert(map_grows(v0, self.view())) by {
                assert forall|k: Seq<char>| #![trigger self.view()[k]] v0.contains_key(k) implies {
                    &&& self.view().contains_key(k)
                    &&& (v0[k] matches NodeView::File(f) ==> self.view()[k] == NodeView::File(f))
                    &&& (v0[k] matches NodeView::Dir { children: c1, modified: m1 } ==> (self.view()[k] matches NodeView::Dir { children: c2, modified: m2 } && m2 == m1 && c1.subset_of(c2)))
                } by {
                    assert(v1.contains_key(k));
                    if k == parent@ {
                        match v1[k] {
                            NodeView::Dir { children, .. } => {
                                assert(children.subset_of(children.insert(name@)));
                            },
                            _ => {},
                        }
                    }
                }
            }
        }
    }

    /// Records a directory entry at `key` (leading `/`s dropped: keys are
    /// relative to the root), auto-vivifying (and linking into their own
    /// parent) any ancestor directories not yet seen. Keeps any
    /// children already recorded under `key` from an earlier, implicit
    /// creation.
    pub fn insert_dir(&mut self, key: &str, modified: Option<i64>)
        requires
            old(self).wf(),
        ensures
            final(self).wf(),
            final(self).view() == spec_insert_dir(old(self).view(), strip_leading_slashes(key@), modified),
            map_grows(old(self).view().remove(strip_leading_slashes(key@)), final(self).view()),
    {
        let kc = chars_of(key);
        let k = strip_leading_slash_chars(kc.as_slice());
        proof {
            lemma_strip_no_lead(key@);
        }
        let ghost v0 = self.view();
        let children: Vec<Vec<char>> = match self.find(k.as_slice()) {
            Some(i) => {
                proof {
                    self.lemma_view_at(i as int);
                }
                proof {
                    assert(self.nodes@[i as int].wf());
                }
                let c = match &self.nodes[i] {
                    Node::Dir { children, .. } => clone_strs(children),
                    Node::File(_) => Vec::new(),
                };
                proof {
                    assert(strs_view(Seq::<Vec<char>>::empty()).to_set() =~= Set::<Seq<char>>::empty());
                    assert(sorted_strs(strs_view(Seq::<Vec<char>>::empty())));
                }
                c
            },
            None => Vec::new(),
        };
        let ghost cset = strs_view(children@).to_set();
        proof {
            assert(strs_view(Seq::<Vec<char>>::empty()).to_set() =~= Set::<Seq<char>>::empty());
            assert(cset == (if v0.contains_key(k@) {
                match v0[k@] {
                    NodeView::Dir { children, .. } => children,
                    NodeView::File(_) => Set::empty(),
                }
            } else {
                Set::empty()
            }));
        }
        proof {
            let m = v0.insert(k@, NodeView::Dir { children: cset, modified });
            assert forall|q: Seq<char>, n: Seq<char>|
                #![trigger m[q], spec_join(q, n)]
                m.contains_key(q) && (m[q] matches NodeView::Dir { children, .. } && children.contains(n))
                    implies m.contains_key(spec_join(q, n)) by {
                if q != k@ {
                    assert(v0[q] == m[q]);
                } else {
                    assert(v0[q] matches NodeView::Dir { children, .. } && children.contains(n));
                }
            }
        }
        self.put(k.as_slice(), Node::Dir { children, modified });
        let ghost v1 = self.view();
        self.register_in_parent(k.as_slice());
        proof {
            assert(map_grows(v0.remove(k@), self.view())) by {
                assert forall|q: Seq<char>| #![trigger self.view()[q]] v0.remove(k@).contains_key(q) implies {
                    &&& self.view().contains_key(q)
                    &&& (v0.remove(k@)[q] matches NodeView::File(f) ==> self.view()[q] == NodeView::File(f))
                    &&& (v0.remove(k@)[q] matches NodeView::Dir { children: c1, modified: m1 } ==> (self.view()[q] matches NodeView::Dir { children: c2, modified: m2 } && m2 == m1 && c1.subset_of(c2)))
                } by {
                    assert(v1[q] == v0[q]);
                }
            }
        }
    }

    /// Records a file (or symlink) entry at `key` (leading `/`s dropped),
    /// auto-vivifying any
    /// ancestor directories not yet seen.
    pub fn insert_file(&mut self, key: &str, entry: FileEntry)
        requires
            old(self).wf(),
        ensures
            final(self).wf(),
            final(self).view() == spec_insert_file(old(self).view(), strip_leading_slashes(key@), entry.view()),
            map_grows(old(self).view().remove(strip_leading_slashes(key@)), final(self).view()),
    {
        let kc = chars_of(key);
        let k = strip_leading_slash_chars(kc.as_slice());
        proof {
            lemma_strip_no_lead(key@);
        }
        let ghost v0 = self.view();
        let ghost fv = entry.view();
        proof {
            let m = v0.insert(k@, NodeView::File(fv));
            assert forall|q: Seq<char>, n: Seq<char>|
                #![trigger m[q], spec_join(q, n)]
                m.contains_key(q) && (m[q] matches NodeView::Dir { children, .. } && children.contains(n))
                    implies m.contains_key(spec_join(q, n)) by {
                assert(v0[q] == m[q]);
            }
        }
        self.put(k.as_slice(), Node::File(entry));
        let ghost v1 = self.view();
        self.register_in_parent(k.as_slice());
        proof {
            assert(map_grows(v0.remove(k@), self.view())) by {
                assert forall|q: Seq<char>| #![trigger self.view()[q]] v0.remove(k@).contains_key(q) implies {
                    &&& self.view().contains_key(q)
                    &&& (v0.remove(k@)[q] matches NodeView::File(f) ==> self.view()[q] == NodeView::File(f))
                    &&& (v0.remove(k@)[q] matches NodeView::Dir { children: c1, modified: m1 } ==> (self.view()[q] matches NodeView::Dir { children: c2, modified: m2 } && m2 == m1 && c1.subset_of(c2)))
                } by {
                    assert(v1[q] == v0[q]);
                }
            }
        }
    }
}

/// A copy of the strings in `v`.
fn clone_strs(v: &Vec<Vec<char>>) -> (r: Vec<Vec<char>>)
    ensures
        strs_view(r@) == strs_view(v@),
{
    let mut r: Vec<Vec<char>> = Vec::new();
    let mut i: usize = 0;
    while i < v.len()
        invariant
            i <= v@.len(),
            r@.len() == i,
            forall|k: int| 0 <= k < i ==> #[trigger] r@[k]@ == v@[k]@,
        decreases v.len() - i,
    {
        let src = &v[i];
        let mut c: Vec<char> = Vec::new();
        let mut j: usize = 0;
        while j < src.len()
            invariant
                j <= src@.len(),
                c@ == src@.subrange(0, j as int),
            decreases src.len() - j,
        {
            c.push(src[j]);
            j = j + 1;
        }
        proof {
            assert(src@.subrange(0, src@.len() as int) == src@);
        }
        r.push(c);
        i = i + 1;
    }
    proof {
        assert(strs_view(r@) =~= strs_view(v@));
    }
    r
}

/// Splits `key` at its last `/` into its parent key and its own name.
fn split_last_slash(key: &[char]) -> (r: (Vec<char>, Vec<char>))
    ensures
        r.0@ == parent_and_name(key@).0,
        r.1@ == parent_and_name(key@).1,
{
    let mut i: usize = key.len();
    proof {
        assert(key@.subrange(0, key@.len() as int) == key@);
    }
    while i > 0 && key[i - 1] != '/'
        invariant
            i <= key@.len(),
            last_slash(key@) == last_slash(key@.subrange(0, i as int)),
        decreases i,
    {
        proof {
            assert(key@.subrange(0, i as int).drop_last() == key@.subrange(0, i - 1));
        }
        i = i - 1;
    }
    proof {
        assert(key@.subrange(0, key@.len() as int) == key@);
    }
    if i == 0 {
        proof {
            assert(key@.subrange(0, 0).len() == 0);
        }
        let mut n: Vec<char> = Vec::new();
        let mut j: usize = 0;
        while j < key.len()
            invariant
                j <= key@.len(),
                n@ == key@.subrange(0, j as int),
            decreases key.len() - j,
        {
            n.push(key[j]);
            j = j + 1;
        }
        (Vec::new(), n)
    } else {
        proof {
            assert(key@.subrange(0, i as int).last() == '/');
            assert(last_slash(key@) == Some(i - 1));
        }
        let mut p: Vec<char> = Vec::new();
        let mut j: usize = 0;
        while j < i - 1
            invariant
                j <= i - 1,
                i <= key@.len(),
                p@ == key@.subrange(0, j as int),
            decreases i - 1 - j,
        {
            p.push(key[j]);
            j = j + 1;
        }
        let mut n: Vec<char> = Vec::new();
        let mut j2: usize = i;
        while j2 < key.len()
            invariant
                i <= j2 <= key@.len(),
                n@ == key@.subrange(i as int, j2 as int),
            decreases key.len() - j2,
        {
            n.push(key[j2]);
            j2 = j2 + 1;
        }
        (p, n)
    }
}


/// How walking a key through the index ends.
pub enum Walk {
    /// The fully resolved key, which names a node.
    Found(Seq<char>),
    /// A key the walk needed that the index does not hold.
    Missing(Seq<char>),
    /// More than [`MAX_SYMLINK_HOPS`] symlinks were followed.
    TooManyLinks,
    /// A file (not a symlink that may be followed) met with components
    /// still left after it.
    NotADir(Seq<char>),
}

/// The text a symlink entry points to (empty when none was recorded).
pub open spec fn target_of(f: FileView) -> Seq<char> {
    match f.target {
        Some(t) => t,
        None => Seq::empty(),
    }
}

/// Walks the components in `queue` from the already resolved key
/// `resolved`: `.` is skipped, `..` steps to the parent, a symlink met
/// mid-path (or last, when `follow` holds) has its target's components
/// spliced in front of the rest (restarting from the root for an absolute
/// target), and anything else is joined on.
pub open spec fn walk(m: Map<Seq<char>, NodeView>, resolved: Seq<char>, queue: Seq<Seq<char>>, hops: nat, follow: bool) -> Walk
    decreases (if hops <= MAX_SYMLINK_HOPS { MAX_SYMLINK_HOPS - hops } else { 0 }), queue.len(),
{
    if queue.len() == 0 {
        if m.contains_key(resolved) {
            Walk::Found(resolved)
        } else {
            Walk::Missing(resolved)
        }
    } else {
        let name = queue[0];
        let rest = queue.drop_first();
        if name == seq!['.'] {
            walk(m, resolved, rest, hops, follow)
        } else if name == seq!['.', '.'] {
            walk(m, parent_and_name(resolved).0, rest, hops, follow)
        } else {
            let cand = spec_join(resolved, name);
            if !m.contains_key(cand) {
                Walk::Missing(cand)
            } else {
                match m[cand] {
                    NodeView::File(f) => {
                        if f.is_symlink && (rest.len() > 0 || follow) {
                            if hops + 1 > MAX_SYMLINK_HOPS {
                                Walk::TooManyLinks
                            } else {
                                let t = target_of(f);
                                let base = if t.len() > 0 && t[0] == '/' { Seq::empty() } else { resolved };
                                walk(m, base, split_nonempty(t, '/') + rest, hops + 1, follow)
                            }
                        } else if rest.len() > 0 {
                            Walk::NotADir(cand)
                        } else {
                            walk(m, cand, rest, hops, follow)
                        }
                    },
                    NodeView::Dir { .. } => walk(m, cand, rest, hops, follow),
                }
            }
        }
    }
}


/// A walk only ends `Found` at a key the index holds.
pub proof fn lemma_walk_found(m: Map<Seq<char>, NodeView>, resolved: Seq<char>, queue: Seq<Seq<char>>, hops: nat, follow: bool)
    ensures
        walk(m, resolved, queue, hops, follow) matches Walk::Found(k) ==> m.contains_key(k),
    decreases (if hops <= MAX_SYMLINK_HOPS { MAX_SYMLINK_HOPS - hops } else { 0 }), queue.len(),
{
    if queue.len() > 0 {
        let name = queue[0];
        let rest = queue.drop_first();
        if name == seq!['.'] {
            lemma_walk_found(m, resolved, rest, hops, follow);
        } else if name == seq!['.', '.'] {
            lemma_walk_found(m, parent_and_name(resolved).0, rest, hops, follow);
        } else {
            let cand = spec_join(resolved, name);
            if m.contains_key(cand) {
                match m[cand] {
                    NodeView::File(f) => {
                        if f.is_symlink && (rest.len() > 0 || follow) {
                            if hops + 1 <= MAX_SYMLINK_HOPS {
                                let t = target_of(f);
                                let base = if t.len() > 0 && t[0] == '/' { Seq::empty() } else { resolved };
                                lemma_walk_found(m, base, split_nonempty(t, '/') + rest, hops + 1, follow);
                            }
                        } else if rest.len() == 0 {
                            lemma_walk_found(m, cand, rest, hops, follow);
                        }
                    },
                    NodeView::Dir { .. } => {
                        lemma_walk_found(m, cand, rest, hops, follow);
                    },
                }
            }
        }
    }
}


/// Linking `key` into its ancestors changes no key at least as long as
/// `key` itself.
pub proof fn lemma_register_keeps(m: Map<Seq<char>, NodeView>, key: Seq<char>, q: Seq<char>)
    requires
        q.len() >= key.len(),
    ensures
        spec_register(m, key).contains_key(q) == m.contains_key(q),
        m.contains_key(q) ==> spec_register(m, key)[q] == m[q],
    decreases key.len(), 0nat,
{
    if key.len() > 0 {
        let (p, n) = parent_and_name(key);
        if p.len() < key.len() {
            lemma_ensure_keeps(m, p, q);
        }
    }
}

/// Creating `key` as an implicit directory changes no key longer than
/// `key`.
pub proof fn lemma_ensure_keeps(m: Map<Seq<char>, NodeView>, key: Seq<char>, q: Seq<char>)
    requires
        q.len() > key.len(),
    ensures
        spec_ensure_dir(m, key).contains_key(q) == m.contains_key(q),
        m.contains_key(q) ==> spec_ensure_dir(m, key)[q] == m[q],
    decreases key.len(), 1nat,
{
    if !m.contains_key(key) {
        lemma_register_keeps(m.insert(key, empty_dir()), key, q);
    }
}

/// Reading a key back after recording a file entry there gives that entry.
pub proof fn lemma_insert_file_then_get(m: Map<Seq<char>, NodeView>, key: Seq<char>, f: FileView)
    ensures
        spec_insert_file(m, key, f).contains_key(key),
        spec_insert_file(m, key, f)[key] == NodeView::File(f),
{
    lemma_register_keeps(m.insert(key, NodeView::File(f)), key, key);
}

/// Reading a key back after recording a directory entry there gives a
/// directory with that timestamp, keeping every child it already had as a
/// directory.
pub proof fn lemma_insert_dir_then_get(m: Map<Seq<char>, NodeView>, key: Seq<char>, modified: Option<i64>)
    ensures
        spec_insert_dir(m, key, modified).contains_key(key),
        spec_insert_dir(m, key, modified)[key] matches NodeView::Dir { children, modified: md } && md == modified
            && (m.contains_key(key) ==> (m[key] matches NodeView::Dir { children: old_children, .. } ==> children == old_children)),
{
    let children = if m.contains_key(key) {
        match m[key] {
            NodeView::Dir { children, .. } => children,
            NodeView::File(_) => Set::empty(),
        }
    } else {
        Set::empty()
    };
    lemma_register_keeps(m.insert(key, NodeView::Dir { children, modified }), key, key);
}

/// `a` is a proper ancestor directory of `k`: the root, or a prefix of `k`
/// that a `/` of `k` follows.
pub open spec fn is_ancestor(a: Seq<char>, k: Seq<char>) -> bool {
    k.len() > 0 && (a.len() == 0 || (a.len() < k.len() && k.subrange(0, a.len() as int) == a
        && k[a.len() as int] == '/'))
}

/// No ancestor of `key` that the index holds is a file.
pub open spec fn no_file_above(m: Map<Seq<char>, NodeView>, key: Seq<char>) -> bool {
    forall|a: Seq<char>| #[trigger] is_ancestor(a, key) && m.contains_key(a) ==> m[a] is Dir
}

/// `k`'s parent is a directory of the index that lists `k`'s name.
pub open spec fn linked_in_parent(m: Map<Seq<char>, NodeView>, k: Seq<char>) -> bool {
    let (p, n) = parent_and_name(k);
    m.contains_key(p) && (m[p] matches NodeView::Dir { children, .. } && children.contains(n))
}

/// The root is a directory, and every other key is listed by its parent
/// directory.
pub open spec fn parents_linked(m: Map<Seq<char>, NodeView>) -> bool {
    &&& m.contains_key(Seq::<char>::empty())
    &&& m[Seq::<char>::empty()] is Dir
    &&& forall|k: Seq<char>| #[trigger] m.contains_key(k) && k.len() > 0 ==> linked_in_parent(m, k)
}

proof fn lemma_parent_is_ancestor(key: Seq<char>)
    requires
        key.len() > 0,
    ensures
        is_ancestor(parent_and_name(key).0, key),
        forall|a: Seq<char>| #[trigger] is_ancestor(a, parent_and_name(key).0) ==> is_ancestor(a, key),
{
    lemma_last_slash(key);
    let p = parent_and_name(key).0;
    assert forall|a: Seq<char>| #[trigger] is_ancestor(a, p) implies is_ancestor(a, key) by {
        if a.len() > 0 {
            assert(key.subrange(0, a.len() as int) =~= p.subrange(0, a.len() as int));
            assert(key[a.len() as int] == p[a.len() as int]);
        }
    }
}

proof fn lemma_map_grows_trans(a: Map<Seq<char>, NodeView>, b: Map<Seq<char>, NodeView>, c: Map<Seq<char>, NodeView>)
    requires
        map_grows(a, b),
        map_grows(b, c),
    ensures
        map_grows(a, c),
{
    assert forall|k: Seq<char>| #![trigger c[k]] a.contains_key(k) implies {
        &&& c.contains_key(k)
        &&& (a[k] matches NodeView::File(f) ==> c[k] == NodeView::File(f))
        &&& (a[k] matches NodeView::Dir { children: c1, modified: m1 } ==> (c[k] matches NodeView::Dir { children: c2, modified: m2 } && m2 == m1 && c1.subset_of(c2)))
    } by {
        assert(b.contains_key(k));
        assert(b[k] == b[k]);
        assert(c[k] == c[k]);
        match a[k] {
            NodeView::Dir { children: c1, .. } => {
                match b[k] {
                    NodeView::Dir { children: cb, .. } => {
                        match c[k] {
                            NodeView::Dir { children: c2, .. } => {
                                assert(c1.subset_of(cb) && cb.subset_of(c2));
                            },
                            _ => {},
                        }
                    },
                    _ => {},
                }
            },
            _ => {},
        }
    }
}

proof fn lemma_grows_keeps_linked(a: Map<Seq<char>, NodeView>, b: Map<Seq<char>, NodeView>, k: Seq<char>)
    requires
        map_grows(a, b),
        linked_in_parent(a, k),
    ensures
        linked_in_parent(b, k),
{
    let (p, n) = parent_and_name(k);
    assert(a.contains_key(p));
    assert(b[p] == b[p]);
}

/// Linking `key` into its parent grows the index, lists `key` in its
/// parent, and lists every directory it creates in its own parent.
proof fn lemma_register_links(m: Map<Seq<char>, NodeView>, key: Seq<char>)
    requires
        no_file_above(m, key),
    ensures
        map_grows(m, spec_register(m, key)),
        key.len() > 0 ==> linked_in_parent(spec_register(m, key), key),
        forall|k: Seq<char>| #[trigger] spec_register(m, key).contains_key(k) && !m.contains_key(k) && k.len() > 0
            ==> linked_in_parent(spec_register(m, key), k),
    decreases key.len(), 0nat,
{
    let r = spec_register(m, key);
    if key.len() == 0 {
        return;
    }
    lemma_parent_is_ancestor(key);
    let (p, n) = parent_and_name(key);
    assert(p.len() < key.len());
    assert(is_ancestor(p, key));
    assert(no_file_above(m, p));
    lemma_ensure_links(m, p);
    let m1 = spec_ensure_dir(m, p);
    assert(m1[p] is Dir);
    match m1[p] {
        NodeView::Dir { children, modified } => {
            assert(r == m1.insert(p, NodeView::Dir { children: children.insert(n), modified }));
            assert(map_grows(m1, r)) by {
                assert forall|k: Seq<char>| #![trigger r[k]] m1.contains_key(k) implies {
                    &&& r.contains_key(k)
                    &&& (m1[k] matches NodeView::File(f) ==> r[k] == NodeView::File(f))
                    &&& (m1[k] matches NodeView::Dir { children: c1, modified: md1 } ==> (r[k] matches NodeView::Dir { children: c2, modified: md2 } && md2 == md1 && c1.subset_of(c2)))
                } by {
                    if k == p {
                        assert(children.subset_of(children.insert(n)));
                    }
                }
            }
            lemma_map_grows_trans(m, m1, r);
            assert forall|k: Seq<char>| #[trigger] r.contains_key(k) && !m.contains_key(k) && k.len() > 0
                implies linked_in_parent(r, k) by {
                assert(m1.contains_key(k));
                lemma_grows_keeps_linked(m1, r, k);
            }
        },
        NodeView::File(_) => {},
    }
}

/// Making sure `key` exists grows the index, leaves a directory at `key`,
/// and lists every directory it creates in its own parent.
proof fn lemma_ensure_links(m: Map<Seq<char>, NodeView>, key: Seq<char>)
    requires
        no_file_above(m, key),
        m.contains_key(key) ==> m[key] is Dir,
    ensures
        map_grows(m, spec_ensure_dir(m, key)),
        spec_ensure_dir(m, key).contains_key(key),
        spec_ensure_dir(m, key)[key] is Dir,
        forall|k: Seq<char>| #[trigger] spec_ensure_dir(m, key).contains_key(k) && !m.contains_key(k) && k.len() > 0
            ==> linked_in_parent(spec_ensure_dir(m, key), k),
    decreases key.len(), 1nat,
{
    if m.contains_key(key) {
        return;
    }
    let m2 = m.insert(key, empty_dir());
    assert(no_file_above(m2, key)) by {
        assert forall|a: Seq<char>| #[trigger] is_ancestor(a, key) && m2.contains_key(a) implies m2[a] is Dir by {
            assert(a != key);
        }
    }
    lemma_register_links(m2, key);
    lemma_register_keeps(m2, key, key);
    let r = spec_register(m2, key);
    assert(map_grows(m, m2)) by {
        assert forall|k: Seq<char>| #![trigger m2[k]] m.contains_key(k) implies {
            &&& m2.contains_key(k)
            &&& (m[k] matches NodeView::File(f) ==> m2[k] == NodeView::File(f))
            &&& (m[k] matches NodeView::Dir { children: c1, modified: md1 } ==> (m2[k] matches NodeView::Dir { children: c2, modified: md2 } && md2 == md1 && c1.subset_of(c2)))
        } by {
            assert(k != key);
            assert(m[k] == m2[k]);
        }
    }
    lemma_map_grows_trans(m, m2, r);
    assert forall|k: Seq<char>| #[trigger] r.contains_key(k) && !m.contains_key(k) && k.len() > 0
        implies linked_in_parent(r, k) by {
        if k != key {
            assert(!m2.contains_key(k));
        }
    }
}

/// The index after linking an entry in place: every other key that was
/// listed by its parent still is, when the entry's key is not an ancestor
/// directory of any of them.
proof fn lemma_links_after_put(m: Map<Seq<char>, NodeView>, key: Seq<char>, node: NodeView)
    requires
        parents_linked(m),
        no_file_above(m, key),
        key.len() == 0 ==> node is Dir,
        forall|k: Seq<char>| #[trigger] m.contains_key(k) && k.len() > 0 && k != key && parent_and_name(k).0 == key
            ==> (node matches NodeView::Dir { children, .. } && children.contains(parent_and_name(k).1)),
    ensures
        parents_linked(spec_register(m.insert(key, node), key)),
{
    let m1 = m.insert(key, node);
    assert(no_file_above(m1, key)) by {
        assert forall|a: Seq<char>| #[trigger] is_ancestor(a, key) && m1.contains_key(a) implies m1[a] is Dir by {
            assert(a != key);
        }
    }
    lemma_register_links(m1, key);
    let r = spec_register(m1, key);
    assert(m1.contains_key(Seq::<char>::empty()));
    assert(m1[Seq::<char>::empty()] is Dir);
    assert(r[Seq::<char>::empty()] == r[Seq::<char>::empty()]);
    assert forall|k: Seq<char>| #[trigger] r.contains_key(k) && k.len() > 0 implies linked_in_parent(r, k) by {
        if m1.contains_key(k) && k != key {
            assert(m.contains_key(k));
            assert(linked_in_parent(m, k));
            let (p, n) = parent_and_name(k);
            if p != key {
                assert(m1[p] == m[p]);
            }
            assert(linked_in_parent(m1, k));
            lemma_grows_keeps_linked(m1, r, k);
        }
    }
}

/// An index that has only been created and grown by entries never placed
/// below a file keeps its tree linked upwards: after a file entry at `key`
/// (not the root, and not a directory that already lists children), the
/// root is still a directory and every other key is listed by its parent
/// directory.
pub proof fn lemma_insert_file_keeps_parents_linked(m: Map<Seq<char>, NodeView>, key: Seq<char>, f: FileView)
    requires
        parents_linked(m),
        key.len() > 0,
        no_file_above(m, key),
        m.contains_key(key) && m[key] is Dir ==> m[key]->children == Set::<Seq<char>>::empty(),
    ensures
        parents_linked(spec_insert_file(m, key, f)),
{
    assert forall|k: Seq<char>| #[trigger] m.contains_key(k) && k.len() > 0 && k != key && parent_and_name(k).0 == key
        implies (NodeView::File(f) matches NodeView::Dir { children, .. } && children.contains(parent_and_name(k).1)) by {
        assert(linked_in_parent(m, k));
        assert(m[key]->children.contains(parent_and_name(k).1));
    }
    lemma_links_after_put(m, key, NodeView::File(f));
}

/// After a directory entry at `key`, below no file, the root is still a
/// directory and every other key is listed by its parent directory.
pub proof fn lemma_insert_dir_keeps_parents_linked(m: Map<Seq<char>, NodeView>, key: Seq<char>, modified: Option<i64>)
    requires
        parents_linked(m),
        no_file_above(m, key),
    ensures
        parents_linked(spec_insert_dir(m, key, modified)),
{
    let children = if m.contains_key(key) {
        match m[key] {
            NodeView::Dir { children, .. } => children,
            NodeView::File(_) => Set::empty(),
        }
    } else {
        Set::empty()
    };
    let node = NodeView::Dir { children, modified };
    assert forall|k: Seq<char>| #[trigger] m.contains_key(k) && k.len() > 0 && k != key && parent_and_name(k).0 == key
        implies (node matches NodeView::Dir { children, .. } && children.contains(parent_and_name(k).1)) by {
        assert(linked_in_parent(m, k));
    }
    lemma_links_after_put(m, key, node);
}

/// A new index is linked upwards: its only key is the root directory.
pub proof fn lemma_new_parents_linked()
    ensures
        parents_linked(Map::<Seq<char>, NodeView>::empty().insert(Seq::<char>::empty(), empty_dir())),
{
}

/// The walk that resolving `key` performs: from the root, over `key`'s
/// non-empty components.
pub open spec fn spec_resolve(m: Map<Seq<char>, NodeView>, key: Seq<char>, follow: bool) -> Walk {
    walk(m, Seq::empty(), split_nonempty(key, '/'), 0, follow)
}

pub open spec fn not_found_message(key: Seq<char>) -> Seq<char> {
    key + ": not found in archive"@
}

pub open spec fn not_a_dir_message(key: Seq<char>) -> Seq<char> {
    key + ": not a directory"@
}

/// What `resolve` returns for the outcome `w` of the walk.
pub open spec fn resolve_result(m: Map<Seq<char>, NodeView>, w: Walk, r: Result<(Seq<char>, NodeView), (ErrorKind, Seq<char>)>) -> bool {
    match w {
        Walk::Found(k) => r == Ok::<(Seq<char>, NodeView), (ErrorKind, Seq<char>)>((k, m[k])),
        Walk::Missing(k) => r == Err::<(Seq<char>, NodeView), (ErrorKind, Seq<char>)>((ErrorKind::NotFound, not_found_message(k))),
        Walk::TooManyLinks => r == Err::<(Seq<char>, NodeView), (ErrorKind, Seq<char>)>((ErrorKind::Other, "too many levels of symbolic links"@)),
        Walk::NotADir(k) => r == Err::<(Seq<char>, NodeView), (ErrorKind, Seq<char>)>((ErrorKind::Other, not_a_dir_message(k))),
    }
}

/// A resolve result, taken by value.
pub open spec fn resolved_view(r: Result<(String, &Node), SourceError>) -> Result<(Seq<char>, NodeView), (ErrorKind, Seq<char>)> {
    match r {
        Ok((k, n)) => Ok((k@, n.view())),
        Err(e) => Err((e.kind, e.message@)),
    }
}

/// `join(base, name)` on character vectors.
pub(crate) fn join_chars(base: &[char], name: &[char]) -> (r: Vec<char>)
    ensures
        r@ == spec_join(base@, name@),
{
    let mut r: Vec<char> = Vec::new();
    if base.len() > 0 {
        append_chars(&mut r, base);
        r.push('/');
    }
    append_chars(&mut r, name);
    proof {
        if base@.len() > 0 {
            assert(r@ =~= base@ + seq!['/'] + name@);
        } else {
            assert(r@ =~= name@);
        }
    }
    r
}

fn not_found(key: &[char]) -> (e: SourceError)
    ensures
        e.kind == ErrorKind::NotFound,
        e.message@ == not_found_message(key@),
{
    let mut m = string_of(key);
    m.append(": not found in archive");
    SourceError::new(ErrorKind::NotFound, m)
}

impl Index {
    /// Walks `key` component by component, resolving any symlink met
    /// mid-path unconditionally, and the final component only when
    /// `follow_final` is set (the `stat`/`lstat` distinction). Returns the
    /// fully resolved key alongside the node it names.
    pub fn resolve(&self, key: &str, follow_final: bool) -> (r: Result<(String, &Node), SourceError>)
        requires
            self.wf(),
        ensures
            resolve_result(self.view(), spec_resolve(self.view(), key@, follow_final), resolved_view(r)),
            r matches Ok((_, n)) ==> n.wf(),
    {
        let ghost m = self.view();
        let ghost goal = spec_resolve(m, key@, follow_final);
        let kc = chars_of(key);
        let mut parts = nonempty_parts(kc.as_slice(), '/');
        let mut queue: VecDeque<Vec<char>> = VecDeque::new();
        let ghost all = strs_view(parts@);
        while parts.len() > 0
            invariant
                all == split_nonempty(key@, '/'),
                parts@.len() <= all.len(),
                strs_view(parts@) == all.subrange(0, parts@.len() as int),
                strs_view(queue@) == all.subrange(parts@.len() as int, all.len() as int),
            decreases parts@.len(),
        {
            let ghost before = queue@;
            let ghost pv = parts@;
            match parts.pop() {
                Some(p) => {
                    queue.push_front(p);
                    proof {
                        assert(parts@ == pv.drop_last());
                        assert(parts@.len() == pv.len() - 1);
                        assert(strs_view(before).len() == before.len());
                        assert(before.len() == all.len() - pv.len());
                        assert(strs_view(pv)[pv.len() - 1] == all[pv.len() - 1]);
                        assert(p@ == all[parts@.len() as int]);
                        assert(queue@ == seq![p] + before);
                        assert(strs_view(queue@)[0] == p@);
                        assert forall|i: int| 0 < i < queue@.len() implies #[trigger] strs_view(queue@)[i] == strs_view(before)[i - 1] by {}
                        assert(strs_view(parts@) =~= all.subrange(0, parts@.len() as int));
                        assert forall|i: int| 0 <= i < queue@.len() implies #[trigger] strs_view(queue@)[i] == all.subrange(parts@.len() as int, all.len() as int)[i] by {
                            if i > 0 {
                                assert(strs_view(before)[i - 1] == all.subrange(pv.len() as int, all.len() as int)[i - 1]);
                            }
                        }
                        assert(strs_view(queue@) =~= all.subrange(parts@.len() as int, all.len() as int));
                    }
                },
                None => {},
            }
        }
        proof {
            assert(strs_view(queue@) =~= all);
        }
        let mut resolved: Vec<char> = Vec::new();
        let mut hops: u32 = 0;
        while queue.len() > 0
            invariant
                self.wf(),
                m == self.view(),
                hops <= MAX_SYMLINK_HOPS,
                walk(m, resolved@, strs_view(queue@), hops as nat, follow_final) == goal,
                goal == spec_resolve(m, key@, follow_final),
            decreases MAX_SYMLINK_HOPS - hops, queue@.len(),
        {
            let ghost q0 = strs_view(queue@);
            let ghost r0 = resolved@;
            let name = match queue.pop_front() {
                Some(n) => n,
                None => Vec::new(),
            };
            let ghost rest = strs_view(queue@);
            proof {
                assert(q0.len() > 0);
                assert(q0[0] == name@);
                assert(rest =~= q0.drop_first());
            }
            if name.len() == 1 && name[0] == '.' {
                proof {
                    assert(name@ =~= seq!['.']);
                }
            } else if name.len() == 2 && name[0] == '.' && name[1] == '.' {
                proof {
                    assert(name@ =~= seq!['.', '.']);
                    assert(name@ != seq!['.']);
                }
                let (parent, _last) = split_last_slash(resolved.as_slice());
                resolved = parent;
            } else {
                proof {
                    if name@ == seq!['.'] {
                        assert(name@.len() == 1 && name@[0] == '.');
                    }
                    if name@ == seq!['.', '.'] {
                        assert(name@.len() == 2 && name@[0] == '.' && name@[1] == '.');
                    }
                }
                let cand = join_chars(resolved.as_slice(), name.as_slice());
                let node = match self.get_chars(cand.as_slice()) {
                    Some(n) => n,
                    None => {
                        return Err(not_found(cand.as_slice()));
                    },
                };
                let is_last = queue.len() == 0;
                match node {
                    Node::File(f) => {
                        if f.is_symlink && (!is_last || follow_final) {
                            if hops + 1 > MAX_SYMLINK_HOPS {
                                return Err(SourceError::new(ErrorKind::Other, String::from_str("too many levels of symbolic links")));
                            }
                            hops = hops + 1;
                            let target: Vec<char> = match &f.symlink_target {
                                Some(t) => chars_of(t.as_str()),
                                None => Vec::new(),
                            };
                            proof {
                                assert(target@ == target_of(f.view()));
                            }
                            if target.len() > 0 && target[0] == '/' {
                                resolved = Vec::new();
                            }
                            let mut tparts = nonempty_parts(target.as_slice(), '/');
                            let ghost tall = strs_view(tparts@);
                            while tparts.len() > 0
                                invariant
                                    tparts@.len() <= tall.len(),
                                    strs_view(tparts@) == tall.subrange(0, tparts@.len() as int),
                                    strs_view(queue@) == tall.subrange(tparts@.len() as int, tall.len() as int) + rest,
                                decreases tparts@.len(),
                            {
                                let ghost before = queue@;
                                let ghost pv = tparts@;
                                match tparts.pop() {
                                    Some(p) => {
                                        queue.push_front(p);
                                        proof {
                                            assert(tparts@ == pv.drop_last());
                                            assert(strs_view(before).len() == before.len());
                                            assert(before.len() == tall.len() - pv.len() + rest.len());
                                            assert(strs_view(pv)[pv.len() - 1] == tall[pv.len() - 1]);
                                            assert(p@ == tall[tparts@.len() as int]);
                                            assert(queue@ == seq![p] + before);
                                            assert(strs_view(queue@)[0] == p@);
                                            assert forall|i: int| 0 < i < queue@.len() implies #[trigger] strs_view(queue@)[i] == strs_view(before)[i - 1] by {}
                                            assert(strs_view(tparts@) =~= tall.subrange(0, tparts@.len() as int));
                                            let ghost want = tall.subrange(tparts@.len() as int, tall.len() as int) + rest;
                                            let ghost had = tall.subrange(pv.len() as int, tall.len() as int) + rest;
                                            assert forall|i: int| 0 <= i < queue@.len() implies #[trigger] strs_view(queue@)[i] == want[i] by {
                                                if i > 0 {
                                                    assert(strs_view(before)[i - 1] == had[i - 1]);
                                                    if i - 1 < tall.len() - pv.len() {
                                                        assert(had[i - 1] == tall[pv.len() + i - 1]);
                                                        assert(want[i] == tall[tparts@.len() + i]);
                                                    } else {
                                                        assert(had[i - 1] == rest[i - 1 - (tall.len() - pv.len())]);
                                                        assert(want[i] == rest[i - (tall.len() - tparts@.len())]);
                                                    }
                                                } else {
                                                    assert(want[0] == tall[tparts@.len() as int]);
                                                }
                                            }
                                            assert(strs_view(queue@) =~= want);
                                        }
                                    },
                                    None => {},
                                }
                            }
                            proof {
                                assert(tall.subrange(0, tall.len() as int) == tall);
                                assert(strs_view(queue@) =~= split_nonempty(target@, '/') + rest);
                            }
                        } else if !is_last {
                            let mut msg = string_of(cand.as_slice());
                            msg.append(": not a directory");
                            return Err(SourceError::new(ErrorKind::Other, msg));
                        } else {
                            resolved = cand;
                        }
                    },
                    Node::Dir { .. } => {
                        resolved = cand;
                    },
                }
            }
        }
        proof {
            assert(strs_view(queue@).len() == 0);
        }
        match self.get_chars(resolved.as_slice()) {
            Some(n) => Ok((string_of(resolved.as_slice()), n)),
            None => Err(not_found(resolved.as_slice())),
        }
    }
}

} // verus!
