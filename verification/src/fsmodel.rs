//! The filesystem model: a finite map from canonical component paths to
//! nodes, held as a vector of entries with distinct keys.
//!
//! The model root is an implicit, always-present directory.  Every stored
//! key is a valid non-empty component path, and every proper prefix of a
//! stored key is itself stored as a directory, so the map always denotes
//! a tree.

use vstd::prelude::*;
use vstd::string::*;
use crate::paths::{valid_path, is_prefix, path_eq, path_has_prefix};
use crate::split::views_of;

verus! {

/// The mode bits given to directories created by the model.
pub const MODEL_DIR_MODE: u32 = 0o040755;

/// A node of the model filesystem.
pub enum Node {
    /// A regular file with its byte content and mode word.
    File { content: Vec<u8>, mode: u32 },
    /// A directory with its mode word.
    Dir { mode: u32 },
    /// Any other filesystem object (device, fifo, socket).
    Other,
}

/// The spec-level value of a node.
pub enum NodeV {
    File { content: Seq<u8>, mode: u32 },
    Dir { mode: u32 },
    Other,
}

impl View for Node {
    type V = NodeV;

    open spec fn view(&self) -> NodeV {
        match self {
            Node::File { content, mode } => NodeV::File { content: content@, mode: *mode },
            Node::Dir { mode } => NodeV::Dir { mode: *mode },
            Node::Other => NodeV::Other,
        }
    }
}

/// One named entry of the model filesystem.
pub struct FsEntry {
    pub path: Vec<String>,
    pub node: Node,
}

/// The key of an entry: the component path it is stored under.
pub open spec fn entry_key(e: FsEntry) -> Seq<Seq<char>> {
    views_of(e.path@)
}

/// The finite map denoted by a sequence of entries.
pub open spec fn map_of(es: Seq<FsEntry>) -> Map<Seq<Seq<char>>, NodeV>
    decreases es.len(),
{
    if es.len() == 0 {
        Map::empty()
    } else {
        map_of(es.drop_last()).insert(entry_key(es.last()), es.last().node@)
    }
}

/// Entries with pairwise distinct, valid, non-empty keys.
pub open spec fn entries_wf(es: Seq<FsEntry>) -> bool {
    &&& forall|i: int, j: int|
        0 <= i < j < es.len() ==> entry_key(#[trigger] es[i]) != entry_key(#[trigger] es[j])
    &&& forall|i: int|
        0 <= i < es.len() ==> valid_path(entry_key(#[trigger] es[i])) && entry_key(es[i]).len() > 0
}

proof fn lemma_map_of_push(es: Seq<FsEntry>, e: FsEntry)
    ensures
        map_of(es.push(e)) == map_of(es).insert(entry_key(e), e.node@),
{
    assert(es.push(e).drop_last() =~= es);
    assert(es.push(e).last() == e);
}

/// Every entry of a distinct-key sequence is found in its map.
proof fn lemma_map_of_index(es: Seq<FsEntry>, i: int)
    requires
        0 <= i < es.len(),
        forall|x: int, y: int|
            0 <= x < y < es.len() ==> entry_key(#[trigger] es[x]) != entry_key(#[trigger] es[y]),
    ensures
        map_of(es).contains_key(entry_key(es[i])),
        map_of(es)[entry_key(es[i])] == es[i].node@,
    decreases es.len(),
{
    if i == es.len() - 1 {
    } else {
        assert(es.drop_last()[i] == es[i]);
        lemma_map_of_index(es.drop_last(), i);
        assert(entry_key(es[i]) != entry_key(es.last()));
    }
}

/// Every key of the map comes from some entry.
proof fn lemma_map_of_contains(es: Seq<FsEntry>, k: Seq<Seq<char>>)
    requires
        map_of(es).contains_key(k),
    ensures
        exists|i: int| 0 <= i < es.len() && entry_key(#[trigger] es[i]) == k,
    decreases es.len(),
{
    if es.len() > 0 {
        if entry_key(es.last()) == k {
            assert(entry_key(es[es.len() - 1]) == k);
        } else {
            lemma_map_of_contains(es.drop_last(), k);
            let i = choose|i: int|
                0 <= i < es.drop_last().len() && entry_key(#[trigger] es.drop_last()[i]) == k;
            assert(es.drop_last()[i] == es[i]);
            assert(entry_key(es[i]) == k);
        }
    }
}

proof fn lemma_map_of_remove(es: Seq<FsEntry>, i: int)
    requires
        0 <= i < es.len(),
        forall|x: int, y: int|
            0 <= x < y < es.len() ==> entry_key(#[trigger] es[x]) != entry_key(#[trigger] es[y]),
    ensures
        map_of(es.remove(i)) == map_of(es).remove(entry_key(es[i])),
    decreases es.len(),
{
    let k = entry_key(es[i]);
    if i == es.len() - 1 {
        assert(es.remove(i) =~= es.drop_last());
        if map_of(es.drop_last()).contains_key(k) {
            lemma_map_of_contains(es.drop_last(), k);
            let j = choose|j: int|
                0 <= j < es.drop_last().len() && entry_key(#[trigger] es.drop_last()[j]) == k;
            assert(es.drop_last()[j] == es[j]);
            assert(entry_key(es[j]) != entry_key(es[i]));
        }
        assert(map_of(es.drop_last()).insert(k, es.last().node@).remove(k) =~= map_of(
            es.drop_last(),
        ));
    } else {
        assert(es.remove(i).drop_last() =~= es.drop_last().remove(i));
        assert(es.remove(i).last() == es.last());
        assert(forall|x: int|
            0 <= x < es.drop_last().len() ==> es.drop_last()[x] == es[x]);
        lemma_map_of_remove(es.drop_last(), i);
        let kl = entry_key(es.last());
        assert(kl != k);
        assert(map_of(es.drop_last()).remove(k).insert(kl, es.last().node@) =~= map_of(
            es.drop_last(),
        ).insert(kl, es.last().node@).remove(k));
    }
}

/// The node at `p`, with the root as an implicit directory.
pub open spec fn node_of(m: Map<Seq<Seq<char>>, NodeV>, p: Seq<Seq<char>>) -> Option<NodeV> {
    if p.len() == 0 {
        Some(NodeV::Dir { mode: MODEL_DIR_MODE })
    } else if m.contains_key(p) {
        Some(m[p])
    } else {
        None
    }
}

/// Whether `p` names a directory (the root always does).
pub open spec fn is_dir_at(m: Map<Seq<Seq<char>>, NodeV>, p: Seq<Seq<char>>) -> bool {
    node_of(m, p) matches Some(NodeV::Dir { .. })
}

/// Whether `p` names a regular file.
pub open spec fn is_file_at(m: Map<Seq<Seq<char>>, NodeV>, p: Seq<Seq<char>>) -> bool {
    node_of(m, p) matches Some(NodeV::File { .. })
}

/// Whether `p` could be created: it is non-empty and its parent is an
/// existing directory.
pub open spec fn parent_ready(m: Map<Seq<Seq<char>>, NodeV>, p: Seq<Seq<char>>) -> bool {
    p.len() > 0 && is_dir_at(m, p.drop_last())
}

/// Well-formed filesystem map: every key is a valid non-empty component
/// path, and every proper prefix of a key is a stored directory.
pub open spec fn fs_wf(m: Map<Seq<Seq<char>>, NodeV>) -> bool {
    &&& forall|k: Seq<Seq<char>>| #[trigger] m.contains_key(k) ==> valid_path(k) && k.len() > 0
    &&& forall|k: Seq<Seq<char>>, n: int|
        #![trigger m.contains_key(k), k.take(n)]
        m.contains_key(k) && 1 <= n < k.len() ==> m.contains_key(k.take(n)) && m[k.take(n)] is Dir
}

/// `m` with the whole subtree rooted at `p` taken out.
pub open spec fn drop_subtree(m: Map<Seq<Seq<char>>, NodeV>, p: Seq<Seq<char>>) -> Map<
    Seq<Seq<char>>,
    NodeV,
> {
    Map::new(|k: Seq<Seq<char>>| m.contains_key(k) && !is_prefix(p, k), |k: Seq<Seq<char>>| m[k])
}

/// The model filesystem.
pub struct FsModel {
    entries: Vec<FsEntry>,
}

impl View for FsModel {
    type V = Map<Seq<Seq<char>>, NodeV>;

    closed spec fn view(&self) -> Self::V {
        map_of(self.entries@)
    }
}

/// The observable kind of an entry, as the builtins distinguish them.
#[derive(Clone, Copy, Debug, PartialEq, Eq, Structural)]
pub enum NodeKind {
    Missing,
    RegularFile,
    Directory,
    Special,
}

/// The kind of the node at `p`.
pub open spec fn kind_at(m: Map<Seq<Seq<char>>, NodeV>, p: Seq<Seq<char>>) -> NodeKind {
    match node_of(m, p) {
        Option::None => NodeKind::Missing,
        Option::Some(NodeV::File { .. }) => NodeKind::RegularFile,
        Option::Some(NodeV::Dir { .. }) => NodeKind::Directory,
        Option::Some(NodeV::Other) => NodeKind::Special,
    }
}

impl FsModel {
    /// The hidden part of the invariant: the entry vector has distinct,
    /// valid keys.
    pub closed spec fn entries_ok(self) -> bool {
        entries_wf(self.entries@)
    }

    /// Structural invariant: the entries are well formed and the map they
    /// denote is a well-formed filesystem tree.
    pub open spec fn inv(self) -> bool {
        self.entries_ok() && fs_wf(self@)
    }

    /// An empty filesystem.
    pub fn new() -> (r: FsModel)
        ensures
            r.inv(),
            r@ == Map::<Seq<Seq<char>>, NodeV>::empty(),
    {
        let r = FsModel { entries: Vec::new() };
        proof {
            assert(r@ =~= Map::<Seq<Seq<char>>, NodeV>::empty());
        }
        r
    }

    fn find_index(&self, p: &Vec<String>) -> (r: Option<usize>)
        requires
            self.inv(),
        ensures
            match r {
                Option::Some(i) => i < self.entries@.len() && entry_key(self.entries@[i as int])
                    == views_of(p@) && self@.contains_key(views_of(p@)) && self@[views_of(p@)]
                    == self.entries@[i as int].node@,
                Option::None => !self@.contains_key(views_of(p@)),
            },
    {
        let mut i: usize = 0;
        while i < self.entries.len()
            invariant
                self.inv(),
                i <= self.entries@.len(),
                forall|j: int| 0 <= j < i ==> entry_key(#[trigger] self.entries@[j]) != views_of(p@),
            decreases self.entries@.len() - i,
        {
            if path_eq(&self.entries[i].path, p) {
                proof {
                    lemma_map_of_index(self.entries@, i as int);
                }
                return Some(i);
            }
            i += 1;
        }
        proof {
            if self@.contains_key(views_of(p@)) {
                lemma_map_of_contains(self.entries@, views_of(p@));
            }
        }
        None
    }

    /// The kind of the node named by `p`.
    pub fn kind_of(&self, p: &Vec<String>) -> (k: NodeKind)
        requires
            self.inv(),
        ensures
            k == kind_at(self@, views_of(p@)),
    {
        if p.len() == 0 {
            return NodeKind::Directory;
        }
        proof {
            assert(views_of(p@).len() == p@.len());
        }
        match self.find_index(p) {
            Option::None => NodeKind::Missing,
            Option::Some(i) => match &self.entries[i].node {
                Node::File { .. } => NodeKind::RegularFile,
                Node::Dir { .. } => NodeKind::Directory,
                Node::Other => NodeKind::Special,
            },
        }
    }

    /// The content of the regular file at `p`.
    pub fn read_file(&self, p: &Vec<String>) -> (r: Option<Vec<u8>>)
        requires
            self.inv(),
        ensures
            match r {
                Option::Some(c) => node_of(self@, views_of(p@)) matches Some(NodeV::File { content, .. })
                    && c@ == content,
                Option::None => !is_file_at(self@, views_of(p@)),
            },
    {
        if p.len() == 0 {
            return None;
        }
        proof {
            assert(views_of(p@).len() == p@.len());
        }
        match self.find_index(p) {
            Option::None => None,
            Option::Some(i) => match &self.entries[i].node {
                Node::File { content, .. } => Some(bytes_clone(content)),
                _ => None,
            },
        }
    }

    /// The mode word of the node at `p`.
    pub fn mode_of(&self, p: &Vec<String>) -> (r: Option<u32>)
        requires
            self.inv(),
        ensures
            match r {
                Option::Some(m) => (node_of(self@, views_of(p@)) matches Some(NodeV::File { mode, .. })
                    && m == mode) || (node_of(self@, views_of(p@)) matches Some(NodeV::Dir { mode })
                    && m == mode),
                Option::None => node_of(self@, views_of(p@)) is None || node_of(
                    self@,
                    views_of(p@),
                ) matches Some(NodeV::Other),
            },
    {
        if p.len() == 0 {
            return Some(MODEL_DIR_MODE);
        }
        proof {
            assert(views_of(p@).len() == p@.len());
        }
        match self.find_index(p) {
            Option::None => None,
            Option::Some(i) => match &self.entries[i].node {
                Node::File { mode, .. } => Some(*mode),
                Node::Dir { mode } => Some(*mode),
                Node::Other => None,
            },
        }
    }

    /// Stores `node` at the fresh path `p` under an existing parent
    /// directory.
    pub fn insert_node(&mut self, p: Vec<String>, node: Node)
        requires
            old(self).inv(),
            valid_path(views_of(p@)),
            views_of(p@).len() > 0,
            !old(self)@.contains_key(views_of(p@)),
            parent_ready(old(self)@, views_of(p@)),
        ensures
            final(self).inv(),
            final(self)@ == old(self)@.insert(views_of(p@), node@),
    {
        let ghost k = views_of(p@);
        let ghost m0 = self@;
        let ghost es0 = self.entries@;
        let e = FsEntry { path: p, node };
        self.entries.push(e);
        proof {
            lemma_map_of_push(es0, e);
            assert(entry_key(e) == k);
            assert forall|i: int, j: int|
                0 <= i < j < self.entries@.len() implies entry_key(#[trigger] self.entries@[i])
                != entry_key(#[trigger] self.entries@[j]) by {
                if j == self.entries@.len() - 1 {
                    assert(self.entries@[i] == es0[i]);
                    lemma_map_of_index(es0, i);
                } else {
                    assert(self.entries@[i] == es0[i]);
                    assert(self.entries@[j] == es0[j]);
                }
            }
            assert forall|i: int|
                0 <= i < self.entries@.len() implies valid_path(entry_key(
                #[trigger] self.entries@[i],
            )) && entry_key(self.entries@[i]).len() > 0 by {
                if i < self.entries@.len() - 1 {
                    assert(self.entries@[i] == es0[i]);
                }
            }
            assert(fs_wf(self@)) by {
                assert forall|q: Seq<Seq<char>>| #[trigger] self@.contains_key(q) implies valid_path(q)
                    && q.len() > 0 by {
                    if q != k {
                        assert(m0.contains_key(q));
                    }
                }
                assert forall|q: Seq<Seq<char>>, n: int|
                    #![trigger self@.contains_key(q), q.take(n)]
                    self@.contains_key(q) && 1 <= n < q.len() implies self@.contains_key(q.take(n))
                    && self@[q.take(n)] is Dir by {
                    if q == k {
                        let parent = k.drop_last();
                        assert(parent == k.take(k.len() - 1));
                        if n == k.len() - 1 {
                            assert(m0.contains_key(parent) && m0[parent] is Dir);
                            assert(q.take(n) == parent);
                        } else {
                            assert(m0.contains_key(parent) && m0[parent] is Dir);
                            assert(parent.take(n) =~= q.take(n));
                            assert(m0.contains_key(parent.take(n)) && m0[parent.take(n)] is Dir);
                        }
                        assert(q.take(n) != k) by {
                            assert(q.take(n).len() < k.len());
                        }
                    } else {
                        assert(m0.contains_key(q));
                        assert(m0.contains_key(q.take(n)) && m0[q.take(n)] is Dir);
                        assert(q.take(n) != k) by {
                            if q.take(n) == k {
                                assert(m0.contains_key(k));
                            }
                        }
                    }
                }
            }
        }
    }

    /// Removes the non-directory node at `p`.
    pub fn remove_node(&mut self, p: &Vec<String>)
        requires
            old(self).inv(),
            old(self)@.contains_key(views_of(p@)),
            !(old(self)@[views_of(p@)] is Dir),
        ensures
            final(self).inv(),
            final(self)@ == old(self)@.remove(views_of(p@)),
    {
        let ghost k = views_of(p@);
        let ghost m0 = self@;
        let ghost es0 = self.entries@;
        let i = match self.find_index(p) {
            Option::Some(i) => i,
            Option::None => {
                proof {
                    assert(m0.contains_key(k));
                }
                0
            },
        };
        self.entries.remove(i);
        proof {
            lemma_map_of_remove(es0, i as int);
            assert(self@ =~= m0.remove(k));
            assert forall|x: int, y: int|
                0 <= x < y < self.entries@.len() implies entry_key(#[trigger] self.entries@[x])
                != entry_key(#[trigger] self.entries@[y]) by {
                assert(self.entries@[x] == if x < i { es0[x] } else { es0[x + 1] });
                assert(self.entries@[y] == if y < i { es0[y] } else { es0[y + 1] });
            }
            assert forall|x: int|
                0 <= x < self.entries@.len() implies valid_path(entry_key(
                #[trigger] self.entries@[x],
            )) && entry_key(self.entries@[x]).len() > 0 by {
                assert(self.entries@[x] == if x < i { es0[x] } else { es0[x + 1] });
            }
            assert(fs_wf(self@)) by {
                assert forall|q: Seq<Seq<char>>, n: int|
                    #![trigger self@.contains_key(q), q.take(n)]
                    self@.contains_key(q) && 1 <= n < q.len() implies self@.contains_key(q.take(n))
                    && self@[q.take(n)] is Dir by {
                    assert(m0.contains_key(q));
                    assert(m0.contains_key(q.take(n)) && m0[q.take(n)] is Dir);
                    assert(q.take(n) != k);
                }
            }
        }
    }
}

/// A prefix of a prefix of `b` is a prefix of `b`.
proof fn lemma_prefix_trans(a: Seq<Seq<char>>, b: Seq<Seq<char>>, n: int)
    requires
        0 <= n <= b.len(),
        is_prefix(a, b.take(n)),
    ensures
        is_prefix(a, b),
{
    assert(b.take(n).take(a.len() as int) =~= b.take(a.len() as int));
}

/// Splitting a concatenation back apart.
proof fn lemma_concat_parts(a: Seq<Seq<char>>, x: Seq<Seq<char>>)
    ensures
        (a + x).skip(a.len() as int) =~= x,
        (a + x).take(a.len() as int) =~= a,
        is_prefix(a, a + x),
{
}

/// A key extending its prefix is the prefix plus the remainder.
proof fn lemma_prefix_rejoin(a: Seq<Seq<char>>, k: Seq<Seq<char>>)
    requires
        is_prefix(a, k),
    ensures
        a + k.skip(a.len() as int) =~= k,
{
}

fn retain_outside(es: Vec<FsEntry>, p: &Vec<String>) -> (r: Vec<FsEntry>)
    requires
        entries_wf(es@),
    ensures
        entries_wf(r@),
        map_of(r@) == drop_subtree(map_of(es@), views_of(p@)),
    decreases es@.len(),
{
    let mut es = es;
    let ghost pv = views_of(p@);
    let ghost orig = es@;
    if es.len() == 0 {
        proof {
            assert(map_of(orig) =~= Map::<Seq<Seq<char>>, NodeV>::empty());
            assert(map_of(orig) =~= drop_subtree(map_of(orig), pv));
        }
        es
    } else {
        let e = es.pop().unwrap();
        let ghost rest = es@;
        proof {
            assert(rest =~= orig.drop_last());
            assert(e == orig.last());
            assert(forall|i: int| 0 <= i < rest.len() ==> rest[i] == orig[i]);
        }
        let ghost m = map_of(rest);
        let ghost ke = entry_key(e);
        let ghost ve = e.node@;
        proof {
            assert(map_of(orig) == m.insert(ke, ve));
            if m.contains_key(ke) {
                lemma_map_of_contains(rest, ke);
                let j = choose|j: int| 0 <= j < rest.len() && entry_key(#[trigger] rest[j]) == ke;
                assert(entry_key(orig[j]) == entry_key(orig[orig.len() - 1]));
            }
            assert(!m.contains_key(ke));
        }
        let keep = !path_has_prefix(&e.path, p);
        let mut r = retain_outside(es, p);
        if keep {
            proof {
                assert forall|i: int| 0 <= i < r@.len() implies entry_key(#[trigger] r@[i]) != ke by {
                    if entry_key(r@[i]) == ke {
                        lemma_map_of_index(r@, i);
                        assert(map_of(r@).contains_key(ke));
                        assert(m.contains_key(ke));
                    }
                }
            }
            let ghost r0 = r@;
            r.push(e);
            proof {
                lemma_map_of_push(r0, e);
                assert forall|i: int, j: int|
                    0 <= i < j < r@.len() implies entry_key(#[trigger] r@[i]) != entry_key(
                    #[trigger] r@[j],
                ) by {
                    if j < r@.len() - 1 {
                        assert(r@[i] == r0[i] && r@[j] == r0[j]);
                    } else {
                        assert(r@[i] == r0[i]);
                    }
                }
                assert forall|i: int|
                    0 <= i < r@.len() implies valid_path(entry_key(#[trigger] r@[i]))
                    && entry_key(r@[i]).len() > 0 by {
                    if i < r@.len() - 1 {
                        assert(r@[i] == r0[i]);
                    } else {
                        assert(entry_key(r@[i]) == entry_key(orig[orig.len() - 1]));
                    }
                }
                assert(map_of(r@) =~= drop_subtree(m.insert(ke, ve), pv));
            }
            r
        } else {
            proof {
                assert(map_of(r@) =~= drop_subtree(m.insert(ke, ve), pv));
            }
            r
        }
    }
}

impl FsModel {
    /// Removes the node at `p` together with everything beneath it.
    pub fn remove_subtree(&mut self, p: &Vec<String>)
        requires
            old(self).inv(),
        ensures
            final(self).inv(),
            final(self)@ == drop_subtree(old(self)@, views_of(p@)),
    {
        let ghost pv = views_of(p@);
        let ghost m0 = self@;
        let mut es: Vec<FsEntry> = Vec::new();
        core::mem::swap(&mut es, &mut self.entries);
        let kept = retain_outside(es, p);
        self.entries = kept;
        proof {
            assert(map_of(Seq::<FsEntry>::empty()) =~= Map::<Seq<Seq<char>>, NodeV>::empty());
            assert(self@ == drop_subtree(m0, pv));
            assert(fs_wf(self@)) by {
                assert forall|q: Seq<Seq<char>>| #[trigger] self@.contains_key(q) implies valid_path(
                    q,
                ) && q.len() > 0 by {
                    assert(m0.contains_key(q));
                }
                assert forall|q: Seq<Seq<char>>, n: int|
                    #![trigger self@.contains_key(q), q.take(n)]
                    self@.contains_key(q) && 1 <= n < q.len() implies self@.contains_key(q.take(n))
                    && self@[q.take(n)] is Dir by {
                    assert(m0.contains_key(q) && !is_prefix(pv, q));
                    assert(m0.contains_key(q.take(n)) && m0[q.take(n)] is Dir);
                    if is_prefix(pv, q.take(n)) {
                        lemma_prefix_trans(pv, q, n);
                    }
                }
            }
        }
    }
}


impl FsModel {
    /// The names of the entries directly inside the directory `p`, in
    /// storage order: exactly the names `n` with `p + [n]` present.
    pub fn children_names(&self, p: &Vec<String>) -> (r: Vec<String>)
        requires
            self.inv(),
        ensures
            forall|i: int, j: int|
                0 <= i < j < r@.len() ==> views_of(r@)[i] != views_of(r@)[j],
            forall|n: Seq<char>| #[trigger]
                views_of(r@).contains(n) <==> self@.contains_key(views_of(p@).push(n)),
    {
        let ghost pv = views_of(p@);
        let ghost es = self.entries@;
        let mut r: Vec<String> = Vec::new();
        let mut i: usize = 0;
        while i < self.entries.len()
            invariant
                self.inv(),
                es == self.entries@,
                pv == views_of(p@),
                i <= es.len(),
                forall|x: int, y: int|
                    0 <= x < y < r@.len() ==> views_of(r@)[x] != views_of(r@)[y],
                forall|n: Seq<char>| #[trigger]
                    views_of(r@).contains(n) <==> exists|j: int|
                        0 <= j < i && entry_key(#[trigger] es[j]) == pv.push(n),
            decreases es.len() - i,
        {
            let e = &self.entries[i];
            let is_child = p.len() < e.path.len() && e.path.len() - p.len() == 1
                && path_has_prefix(&e.path, p);
            if is_child {
                let ghost ke = entry_key(es[i as int]);
                let ghost nm = views_of(e.path@)[e.path@.len() - 1];
                proof {
                    assert(ke.take(pv.len() as int) == pv);
                    assert(ke =~= pv.push(nm));
                    if views_of(r@).contains(nm) {
                        let j = choose|j: int|
                            0 <= j < i && entry_key(#[trigger] es[j]) == pv.push(nm);
                        assert(entry_key(es[j]) == entry_key(es[i as int]));
                        assert(false);
                    }
                }
                let ghost r0 = r@;
                r.push(e.path[e.path.len() - 1].clone());
                proof {
                    assert(views_of(r@) =~= views_of(r0).push(nm));
                    assert forall|x: int, y: int|
                        0 <= x < y < r@.len() implies views_of(r@)[x] != views_of(r@)[y] by {
                        if y < r@.len() - 1 {
                            assert(views_of(r@)[x] == views_of(r0)[x]);
                            assert(views_of(r@)[y] == views_of(r0)[y]);
                        } else {
                            assert(views_of(r@)[y] == nm);
                            assert(views_of(r@)[x] == views_of(r0)[x]);
                            if views_of(r0)[x] == nm {
                                assert(views_of(r0).contains(nm));
                            }
                        }
                    }
                    assert forall|n: Seq<char>| #[trigger]
                        views_of(r@).contains(n) <==> exists|j: int|
                            0 <= j < i + 1 && entry_key(#[trigger] es[j]) == pv.push(n) by {
                        if views_of(r@).contains(n) {
                            let x = choose|x: int|
                                0 <= x < views_of(r@).len() && views_of(r@)[x] == n;
                            if x < r@.len() - 1 {
                                assert(views_of(r0)[x] == n);
                                assert(views_of(r0).contains(n));
                            } else {
                                assert(n == nm);
                                assert(entry_key(es[i as int]) == pv.push(n));
                            }
                        }
                        if exists|j: int| 0 <= j < i + 1 && entry_key(#[trigger] es[j]) == pv.push(n) {
                            let j = choose|j: int|
                                0 <= j < i + 1 && entry_key(#[trigger] es[j]) == pv.push(n);
                            if j < i {
                                assert(views_of(r0).contains(n));
                                let x = choose|x: int|
                                    0 <= x < views_of(r0).len() && views_of(r0)[x] == n;
                                assert(views_of(r@)[x] == n);
                                assert(views_of(r@).contains(n));
                            } else {
                                assert(pv.push(n).last() == n && pv.push(nm).last() == nm);
                                assert(n == nm);
                                assert(views_of(r@)[r@.len() - 1] == n);
                                assert(views_of(r@).contains(n));
                            }
                        }
                    }
                }
            } else {
                proof {
                    let ke = entry_key(es[i as int]);
                    assert forall|n: Seq<char>| ke != pv.push(n) by {
                        if ke == pv.push(n) {
                            assert(ke.len() == pv.len() + 1);
                            assert(ke.take(pv.len() as int) =~= pv);
                        }
                    }
                    assert forall|n: Seq<char>| #[trigger]
                        views_of(r@).contains(n) <==> exists|j: int|
                            0 <= j < i + 1 && entry_key(#[trigger] es[j]) == pv.push(n) by {
                        if exists|j: int| 0 <= j < i + 1 && entry_key(#[trigger] es[j]) == pv.push(n) {
                            let j = choose|j: int|
                                0 <= j < i + 1 && entry_key(#[trigger] es[j]) == pv.push(n);
                            assert(j < i);
                        }
                    }
                }
            }
            i += 1;
        }
        proof {
            assert forall|n: Seq<char>| #[trigger]
                views_of(r@).contains(n) <==> self@.contains_key(pv.push(n)) by {
                if views_of(r@).contains(n) {
                    let j = choose|j: int|
                        0 <= j < es.len() && entry_key(#[trigger] es[j]) == pv.push(n);
                    lemma_map_of_index(es, j);
                }
                if self@.contains_key(pv.push(n)) {
                    lemma_map_of_contains(es, pv.push(n));
                }
            }
        }
        r
    }
}


/// An owned copy of a byte vector.
pub fn bytes_clone(v: &Vec<u8>) -> (r: Vec<u8>)
    ensures
        r@ == v@,
{
    let mut r: Vec<u8> = Vec::new();
    let mut i: usize = 0;
    while i < v.len()
        invariant
            i <= v@.len(),
            r@ =~= v@.take(i as int),
        decreases v@.len() - i,
    {
        r.push(v[i]);
        proof {
            assert(v@.take(i as int).push(v@[i as int]) =~= v@.take(i as int + 1));
        }
        i += 1;
    }
    proof {
        assert(v@.take(v@.len() as int) =~= v@);
    }
    r
}

/// `m` with the subtree at `src` relocated to `dst`.
///
/// A key outside the `src` subtree is kept; a key `src + suffix` moves to
/// `dst + suffix` with its node unchanged.
pub open spec fn rename_map(
    m: Map<Seq<Seq<char>>, NodeV>,
    src: Seq<Seq<char>>,
    dst: Seq<Seq<char>>,
) -> Map<Seq<Seq<char>>, NodeV> {
    Map::new(
        |k: Seq<Seq<char>>|
            (m.contains_key(k) && !is_prefix(src, k)) || (is_prefix(dst, k) && m.contains_key(
                src + k.skip(dst.len() as int),
            )),
        |k: Seq<Seq<char>>|
            if m.contains_key(k) && !is_prefix(src, k) {
                m[k]
            } else {
                m[src + k.skip(dst.len() as int)]
            },
    )
}

proof fn lemma_valid_concat(a: Seq<Seq<char>>, b: Seq<Seq<char>>)
    requires
        valid_path(a),
        valid_path(b),
    ensures
        valid_path(a + b),
{
    assert forall|i: int| 0 <= i < (a + b).len() implies crate::paths::valid_name(
        #[trigger] (a + b)[i],
    ) by {
        if i < a.len() {
            assert((a + b)[i] == a[i]);
        } else {
            assert((a + b)[i] == b[i - a.len()]);
        }
    }
}

fn rebase_entries(es: Vec<FsEntry>, src: &Vec<String>, dst: &Vec<String>) -> (r: Vec<FsEntry>)
    requires
        entries_wf(es@),
        views_of(src@).len() > 0,
        views_of(dst@).len() > 0,
        valid_path(views_of(dst@)),
        forall|i: int|
            0 <= i < es@.len() ==> !is_prefix(views_of(dst@), entry_key(#[trigger] es@[i])),
    ensures
        entries_wf(r@),
        map_of(r@) == rename_map(map_of(es@), views_of(src@), views_of(dst@)),
    decreases es@.len(),
{
    let mut es = es;
    let ghost srcv = views_of(src@);
    let ghost dstv = views_of(dst@);
    let ghost orig = es@;
    if es.len() == 0 {
        proof {
            assert(map_of(orig) =~= Map::<Seq<Seq<char>>, NodeV>::empty());
            assert(map_of(orig) =~= rename_map(map_of(orig), srcv, dstv));
        }
        es
    } else {
        let e = es.pop().unwrap();
        let ghost rest = es@;
        proof {
            assert(rest =~= orig.drop_last());
            assert(e == orig.last());
            assert(forall|i: int| 0 <= i < rest.len() ==> rest[i] == orig[i]);
        }
        let ghost m = map_of(rest);
        let ghost ke = entry_key(e);
        let ghost ve = e.node@;
        proof {
            assert(map_of(orig) == m.insert(ke, ve));
            if m.contains_key(ke) {
                lemma_map_of_contains(rest, ke);
                let j = choose|j: int| 0 <= j < rest.len() && entry_key(#[trigger] rest[j]) == ke;
                assert(entry_key(orig[j]) == entry_key(orig[orig.len() - 1]));
            }
            assert(!m.contains_key(ke));
            assert(!is_prefix(dstv, ke)) by {
                assert(entry_key(orig[orig.len() - 1]) == ke);
            }
            assert forall|k: Seq<Seq<char>>| #[trigger] m.contains_key(k) implies !is_prefix(
                dstv,
                k,
            ) by {
                lemma_map_of_contains(rest, k);
                let j = choose|j: int| 0 <= j < rest.len() && entry_key(#[trigger] rest[j]) == k;
                assert(entry_key(orig[j]) == k);
            }
        }
        let moved = path_has_prefix(&e.path, src);
        let mut r = rebase_entries(es, src, dst);
        let ghost rmap = rename_map(m, srcv, dstv);
        let ghost tgt = rename_map(m.insert(ke, ve), srcv, dstv);
        if moved {
            let np = crate::paths::rebase_path(&e.path, src.len(), dst);
            let e2 = FsEntry { path: np, node: e.node };
            let ghost ke2 = entry_key(e2);
            proof {
                assert(views_of(src@).len() == src@.len());
                assert(ke2 == dstv + ke.skip(srcv.len() as int));
                lemma_concat_parts(dstv, ke.skip(srcv.len() as int));
                lemma_prefix_rejoin(srcv, ke);
                assert(ke2.skip(dstv.len() as int) == ke.skip(srcv.len() as int));
                assert(srcv + ke2.skip(dstv.len() as int) == ke);
                assert(is_prefix(dstv, ke2));
                assert(!m.contains_key(ke2));
                // The rebased key is new in the result.
                assert forall|i: int| 0 <= i < r@.len() implies entry_key(#[trigger] r@[i]) != ke2 by {
                    if entry_key(r@[i]) == ke2 {
                        lemma_map_of_index(r@, i);
                        assert(rmap.contains_key(ke2));
                        assert(m.contains_key(srcv + ke2.skip(dstv.len() as int)));
                    }
                }
                // The rebased key is valid.
                assert(valid_path(ke2) && ke2.len() > 0) by {
                    assert(entry_key(orig[orig.len() - 1]) == ke);
                    assert(valid_path(ke));
                    assert forall|i: int|
                        0 <= i < ke.skip(srcv.len() as int).len() implies crate::paths::valid_name(
                        #[trigger] ke.skip(srcv.len() as int)[i],
                    ) by {
                        assert(ke.skip(srcv.len() as int)[i] == ke[srcv.len() + i]);
                    }
                    lemma_valid_concat(dstv, ke.skip(srcv.len() as int));
                }
            }
            let ghost r0 = r@;
            r.push(e2);
            proof {
                lemma_map_of_push(r0, e2);
                assert forall|i: int, j: int|
                    0 <= i < j < r@.len() implies entry_key(#[trigger] r@[i]) != entry_key(
                    #[trigger] r@[j],
                ) by {
                    if j < r@.len() - 1 {
                        assert(r@[i] == r0[i] && r@[j] == r0[j]);
                    } else {
                        assert(r@[i] == r0[i]);
                    }
                }
                assert forall|i: int|
                    0 <= i < r@.len() implies valid_path(entry_key(#[trigger] r@[i]))
                    && entry_key(r@[i]).len() > 0 by {
                    if i < r@.len() - 1 {
                        assert(r@[i] == r0[i]);
                    }
                }
                let lhs = rmap.insert(ke2, ve);
                assert forall|q: Seq<Seq<char>>|
                    #[trigger] lhs.contains_key(q) == tgt.contains_key(q) && (lhs.contains_key(q)
                        ==> lhs[q] == tgt[q]) by {
                    if q == ke2 {
                    } else {
                        if is_prefix(dstv, q) && srcv + q.skip(dstv.len() as int) == ke {
                            lemma_prefix_rejoin(dstv, q);
                            lemma_concat_parts(srcv, q.skip(dstv.len() as int));
                            assert(q.skip(dstv.len() as int) == ke.skip(srcv.len() as int));
                            assert(q =~= ke2);
                        }
                    }
                }
                assert(lhs =~= tgt);
                assert(map_of(r@) == tgt);
            }
            r
        } else {
            proof {
                assert(!is_prefix(srcv, ke));
                // The key is new in the result.
                assert forall|i: int| 0 <= i < r@.len() implies entry_key(#[trigger] r@[i]) != ke by {
                    if entry_key(r@[i]) == ke {
                        lemma_map_of_index(r@, i);
                        assert(rmap.contains_key(ke));
                        if m.contains_key(srcv + ke.skip(dstv.len() as int)) && is_prefix(dstv, ke) {
                        }
                    }
                }
            }
            let ghost r0 = r@;
            let ghost ev = entry_key(e);
            r.push(e);
            proof {
                lemma_map_of_push(r0, e);
                assert forall|i: int, j: int|
                    0 <= i < j < r@.len() implies entry_key(#[trigger] r@[i]) != entry_key(
                    #[trigger] r@[j],
                ) by {
                    if j < r@.len() - 1 {
                        assert(r@[i] == r0[i] && r@[j] == r0[j]);
                    } else {
                        assert(r@[i] == r0[i]);
                    }
                }
                assert forall|i: int|
                    0 <= i < r@.len() implies valid_path(entry_key(#[trigger] r@[i]))
                    && entry_key(r@[i]).len() > 0 by {
                    if i < r@.len() - 1 {
                        assert(r@[i] == r0[i]);
                    } else {
                        assert(entry_key(r@[i]) == entry_key(orig[orig.len() - 1]));
                    }
                }
                let lhs = rmap.insert(ke, ve);
                assert forall|q: Seq<Seq<char>>|
                    #[trigger] lhs.contains_key(q) == tgt.contains_key(q) && (lhs.contains_key(q)
                        ==> lhs[q] == tgt[q]) by {
                    if q != ke && is_prefix(dstv, q) && srcv + q.skip(dstv.len() as int) == ke {
                        lemma_concat_parts(srcv, q.skip(dstv.len() as int));
                        assert(ke.take(srcv.len() as int) =~= srcv);
                        assert(is_prefix(srcv, ke));
                    }
                }
                assert(lhs =~= tgt);
                assert(map_of(r@) == tgt);
            }
            r
        }
    }
}

proof fn lemma_rename_fs_wf(m: Map<Seq<Seq<char>>, NodeV>, src: Seq<Seq<char>>, dst: Seq<Seq<char>>)
    requires
        fs_wf(m),
        src.len() > 0,
        m.contains_key(src),
        dst.len() > 0,
        valid_path(dst),
        !is_prefix(src, dst),
        forall|k: Seq<Seq<char>>| #[trigger] m.contains_key(k) ==> !is_prefix(dst, k),
        parent_ready(m, dst),
    ensures
        fs_wf(rename_map(m, src, dst)),
{
    let new = rename_map(m, src, dst);
    assert forall|q: Seq<Seq<char>>| #[trigger] new.contains_key(q) implies valid_path(q) && q.len()
        > 0 by {
        if m.contains_key(q) && !is_prefix(src, q) {
        } else {
            let kb = src + q.skip(dst.len() as int);
            lemma_prefix_rejoin(dst, q);
            lemma_concat_parts(src, q.skip(dst.len() as int));
            assert(kb.skip(src.len() as int) == q.skip(dst.len() as int));
            assert(valid_path(kb));
            assert forall|i: int|
                0 <= i < q.skip(dst.len() as int).len() implies crate::paths::valid_name(
                #[trigger] q.skip(dst.len() as int)[i],
            ) by {
                assert(q.skip(dst.len() as int)[i] == kb[src.len() + i]);
            }
            lemma_valid_concat(dst, q.skip(dst.len() as int));
            assert(q =~= dst + q.skip(dst.len() as int));
        }
    }
    assert forall|q: Seq<Seq<char>>, n: int|
        #![trigger new.contains_key(q), q.take(n)]
        new.contains_key(q) && 1 <= n < q.len() implies new.contains_key(q.take(n)) && new[q.take(
        n,
    )] is Dir by {
        if m.contains_key(q) && !is_prefix(src, q) {
            assert(m.contains_key(q.take(n)) && m[q.take(n)] is Dir);
            if is_prefix(src, q.take(n)) {
                lemma_prefix_trans(src, q, n);
            }
            assert(new.contains_key(q.take(n)) && new[q.take(n)] is Dir);
        } else {
            let kb = src + q.skip(dst.len() as int);
            lemma_prefix_rejoin(dst, q);
            lemma_concat_parts(src, q.skip(dst.len() as int));
            if n < dst.len() {
                assert(q.take(n) =~= dst.take(n));
                let parent = dst.drop_last();
                assert(parent == dst.take(dst.len() - 1));
                assert(m.contains_key(parent) && m[parent] is Dir);
                if n == dst.len() - 1 {
                    assert(q.take(n) == parent);
                } else {
                    assert(m.contains_key(parent.take(n)) && m[parent.take(n)] is Dir);
                    assert(parent.take(n) =~= dst.take(n));
                }
                assert(m.contains_key(q.take(n)) && m[q.take(n)] is Dir);
                if is_prefix(src, q.take(n)) {
                    lemma_prefix_trans(src, dst, n);
                }
                assert(new.contains_key(q.take(n)) && new[q.take(n)] is Dir);
            } else if n == dst.len() {
                assert(q.take(n) =~= dst);
                assert(dst.skip(dst.len() as int) =~= Seq::<Seq<char>>::empty());
                assert(src + dst.skip(dst.len() as int) =~= src);
                assert(dst.take(dst.len() as int) =~= dst);
                assert(is_prefix(dst, dst));
                assert(new.contains_key(dst));
                // The moved directory node itself.
                assert(kb.len() > src.len());
                assert(kb.take(src.len() as int) =~= src);
                assert(m.contains_key(kb));
                assert(m[kb.take(src.len() as int)] is Dir);
                assert(m[src] is Dir);
                assert(!(m.contains_key(dst) && !is_prefix(src, dst)));
                assert(new[dst] == m[src]);
            } else {
                // Inside the moved subtree.
                let nb = src.len() + n - dst.len();
                assert(q.take(n).take(dst.len() as int) =~= dst.take(dst.len() as int));
                assert(dst.take(dst.len() as int) =~= dst);
                assert(is_prefix(dst, q.take(n)));
                assert(q.take(n).skip(dst.len() as int) =~= kb.take(nb).skip(src.len() as int));
                assert(src + q.take(n).skip(dst.len() as int) =~= kb.take(nb));
                assert(1 <= nb < kb.len());
                assert(m.contains_key(kb));
                assert(m.contains_key(kb.take(nb)) && m[kb.take(nb)] is Dir);
                assert(new.contains_key(q.take(n)));
                assert(!m.contains_key(q.take(n)));
                assert(new[q.take(n)] == m[kb.take(nb)]);
            }
        }
    }
}

impl FsModel {
    /// Relocates the subtree at `src` to the fresh path `dst`.
    pub fn rename_tree(&mut self, src: &Vec<String>, dst: &Vec<String>)
        requires
            old(self).inv(),
            views_of(src@).len() > 0,
            old(self)@.contains_key(views_of(src@)),
            views_of(dst@).len() > 0,
            valid_path(views_of(dst@)),
            !is_prefix(views_of(src@), views_of(dst@)),
            forall|k: Seq<Seq<char>>| #[trigger]
                old(self)@.contains_key(k) ==> !is_prefix(views_of(dst@), k),
            parent_ready(old(self)@, views_of(dst@)),
        ensures
            final(self).inv(),
            final(self)@ == rename_map(old(self)@, views_of(src@), views_of(dst@)),
    {
        let ghost srcv = views_of(src@);
        let ghost dstv = views_of(dst@);
        let ghost m0 = self@;
        proof {
            assert forall|i: int|
                0 <= i < self.entries@.len() implies !is_prefix(
                dstv,
                entry_key(#[trigger] self.entries@[i]),
            ) by {
                lemma_map_of_index(self.entries@, i);
            }
        }
        let mut es: Vec<FsEntry> = Vec::new();
        core::mem::swap(&mut es, &mut self.entries);
        let moved = rebase_entries(es, src, dst);
        self.entries = moved;
        proof {
            assert(map_of(Seq::<FsEntry>::empty()) =~= Map::<Seq<Seq<char>>, NodeV>::empty());
            assert(self@ == rename_map(m0, srcv, dstv));
            lemma_rename_fs_wf(m0, srcv, dstv);
        }
    }
}

} // verus!
