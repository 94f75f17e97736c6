//! Nesting the flat list of scanned entries into a tree: an entry's parent is
//! the entry whose path is its own path without the last `/`-separated piece.
use vstd::prelude::*;
use crate::scanner::{RepoEntry, RepoEntryView, entry_views};
use crate::text::{
    split_on, join_with, views, chars_of, split_chars, join_prefix, lemma_join_split,
    lemma_split_nonempty,
};

verus! {

/// A node of the repository tree.
pub struct TreeNode {
    pub name: String,
    pub path: String,
    pub is_repo: bool,
    pub children: Vec<TreeNode>,
}

/// The parent path of `path`: `None` for a path without `/`, else the pieces
/// before the last `/` joined again.
pub open spec fn parent_of(path: Seq<char>) -> Option<Seq<char>> {
    let parts = split_on(path, '/');
    if parts.len() == 1 {
        None
    } else {
        Some(join_with(parts.drop_last(), '/'))
    }
}

/// The entries whose parent is `p`, in their order in `entries`.
pub open spec fn kids(entries: Seq<RepoEntryView>, p: Option<Seq<char>>) -> Seq<RepoEntryView>
    decreases entries.len(),
{
    if entries.len() == 0 {
        Seq::<RepoEntryView>::empty()
    } else {
        let r = kids(entries.drop_last(), p);
        if parent_of(entries.last().path) == p {
            r.push(entries.last())
        } else {
            r
        }
    }
}

/// Node `n` carries the name, path and kind of entry `e`.
pub open spec fn node_of(n: TreeNode, e: RepoEntryView) -> bool {
    n.name@ == e.name && n.path@ == e.path && n.is_repo == e.is_repo
}

/// The nodes carry the given entries, one for one and in order.
pub open spec fn nodes_of(nodes: Seq<TreeNode>, es: Seq<RepoEntryView>) -> bool {
    nodes.len() == es.len() && forall|j: int| 0 <= j < es.len() ==> node_of(#[trigger] nodes[j], es[j])
}

/// Under every node lie, in order, nodes for exactly the entries whose parent
/// is that node's path, and the same holds of them in turn.
pub open spec fn tree_ok(nodes: Seq<TreeNode>, entries: Seq<RepoEntryView>) -> bool
    decreases nodes,
{
    forall|i: int|
        0 <= i < nodes.len() ==> {
            &&& nodes_of(#[trigger] nodes[i].children@, kids(entries, Some(nodes[i].path@)))
            &&& tree_ok(nodes[i].children@, entries)
        }
}

/// A node without children.
pub open spec fn leaf(n: TreeNode) -> bool {
    n.children.len() == 0
}

/// A parent path is strictly shorter than the path.
pub proof fn lemma_parent_shorter(path: Seq<char>)
    requires
        parent_of(path) is Some,
    ensures
        parent_of(path)->0.len() < path.len(),
{
    let parts = split_on(path, '/');
    lemma_join_split(path, '/');
    assert(join_with(parts, '/') == join_with(parts.drop_last(), '/').push('/') + parts.last());
}

/// Where the children of each parent path are kept while the tree is built.
pub struct ChildIndex {
    keys: Vec<String>,
    groups: Vec<Vec<TreeNode>>,
    entries: Ghost<Seq<RepoEntryView>>,
    bound: Ghost<nat>,
}

impl ChildIndex {
    /// The entries the index was built from.
    pub closed spec fn source(&self) -> Seq<RepoEntryView> {
        self.entries@
    }

    /// The index holds, for each parent path, leaf nodes for its children.
    pub closed spec fn wf(&self) -> bool {
        &&& self.keys.len() == self.groups.len()
        &&& forall|a: int, b: int|
            0 <= a < b < self.keys.len() ==> self.keys@[a]@ != self.keys@[b]@
        &&& forall|k: int|
            0 <= k < self.keys.len() ==> {
                &&& nodes_of(
                    #[trigger] self.groups@[k]@,
                    kids(self.entries@, Some(self.keys@[k]@)),
                )
                &&& forall|j: int|
                    0 <= j < self.groups@[k]@.len() ==> leaf(#[trigger] self.groups@[k]@[j])
            }
        &&& forall|p: Seq<char>|
            (forall|k: int| 0 <= k < self.keys.len() ==> self.keys@[k]@ != p) ==> kids(
                self.entries@,
                Some(p),
            ).len() == 0
        &&& forall|e: int|
            0 <= e < self.entries@.len() ==> #[trigger] self.entries@[e].path.len() < self.bound@
    }

    /// The position of the group kept for `path`, if any.
    fn find(&self, path: &String) -> (r: Option<usize>)
        requires
            self.wf(),
        ensures
            r matches Some(k) ==> k < self.keys.len() && self.keys@[k as int]@ == path@,
            r is None ==> forall|k: int| 0 <= k < self.keys.len() ==> self.keys@[k]@ != path@,
    {
        let mut k: usize = 0;
        while k < self.keys.len()
            invariant
                k <= self.keys.len(),
                forall|m: int| 0 <= m < k ==> self.keys@[m]@ != path@,
            decreases self.keys.len() - k,
        {
            if self.keys[k] == *path {
                return Some(k);
            }
            k += 1;
        }
        None
    }
}

proof fn lemma_kids_push(entries: Seq<RepoEntryView>, e: RepoEntryView, p: Option<Seq<char>>)
    ensures
        kids(entries.push(e), p) == (if parent_of(e.path) == p {
            kids(entries, p).push(e)
        } else {
            kids(entries, p)
        }),
{
    assert(entries.push(e).drop_last() =~= entries);
}

/// A leaf node for an entry.
fn leaf_of(e: &RepoEntry) -> (n: TreeNode)
    ensures
        node_of(n, e@),
        leaf(n),
{
    TreeNode { name: e.name.clone(), path: e.path.clone(), is_repo: e.is_repo, children: Vec::new() }
}

/// Copies of leaf nodes.
fn clone_leaves(g: &Vec<TreeNode>) -> (r: Vec<TreeNode>)
    ensures
        r.len() == g.len(),
        forall|j: int|
            0 <= j < g.len() ==> {
                &&& (#[trigger] r@[j]).name@ == g@[j].name@
                &&& r@[j].path@ == g@[j].path@
                &&& r@[j].is_repo == g@[j].is_repo
                &&& leaf(r@[j])
            },
{
    let mut r: Vec<TreeNode> = Vec::new();
    let mut i: usize = 0;
    while i < g.len()
        invariant
            i <= g.len(),
            r.len() == i,
            forall|j: int|
                0 <= j < i ==> {
                    &&& (#[trigger] r@[j]).name@ == g@[j].name@
                    &&& r@[j].path@ == g@[j].path@
                    &&& r@[j].is_repo == g@[j].is_repo
                    &&& leaf(r@[j])
                },
        decreases g.len() - i,
    {
        let n = &g[i];
        r.push(
            TreeNode {
                name: n.name.clone(),
                path: n.path.clone(),
                is_repo: n.is_repo,
                children: Vec::new(),
            },
        );
        i += 1;
    }
    r
}

/// The parent path of an entry path: its pieces but the last, joined again.
fn parent_path(path: &String) -> (r: Option<Vec<char>>)
    ensures
        r matches Some(v) ==> parent_of(path@) == Some(v@),
        r is None ==> parent_of(path@) is None,
{
    let cs = chars_of(path.as_str());
    let parts = split_chars(&cs, '/');
    proof {
        lemma_split_nonempty(cs@, '/');
    }
    if parts.len() == 1 {
        None
    } else {
        let p = join_prefix(&parts, parts.len() - 1, '/');
        assert(views(parts@).take(parts.len() - 1) =~= split_on(path@, '/').drop_last());
        Some(p)
    }
}

fn attach_rec(nodes: &mut Vec<TreeNode>, map: &ChildIndex, Ghost(lo): Ghost<nat>)
    requires
        map.wf(),
        forall|i: int| 0 <= i < old(nodes).len() ==> leaf(#[trigger] old(nodes)@[i]),
        forall|i: int| 0 <= i < old(nodes).len() ==> (#[trigger] old(nodes)@[i]).path@.len() >= lo,
    ensures
        final(nodes).len() == old(nodes).len(),
        forall|i: int|
            0 <= i < old(nodes).len() ==> {
                &&& (#[trigger] final(nodes)@[i]).name == old(nodes)@[i].name
                &&& final(nodes)@[i].path == old(nodes)@[i].path
                &&& final(nodes)@[i].is_repo == old(nodes)@[i].is_repo
            },
        tree_ok(final(nodes)@, map.source()),
    decreases map.bound@ - lo,
{
    let mut pending: Vec<TreeNode> = Vec::new();
    std::mem::swap(&mut pending, nodes);
    let ghost given = pending@;
    // Reverse so that popping yields the nodes front to back.
    let mut rev: Vec<TreeNode> = Vec::new();
    while pending.len() > 0
        invariant
            pending.len() + rev.len() == given.len(),
            forall|j: int| 0 <= j < pending.len() ==> pending@[j] == given[j],
            forall|j: int| 0 <= j < rev.len() ==> rev@[j] == given[given.len() - 1 - j],
        decreases pending.len(),
    {
        let n = pending.pop().unwrap();
        rev.push(n);
    }
    assert(nodes@.len() == 0);
    while rev.len() > 0
        invariant
            map.wf(),
            rev.len() + nodes.len() == given.len(),
            forall|j: int| 0 <= j < rev.len() ==> rev@[j] == given[given.len() - 1 - j],
            forall|i: int| 0 <= i < given.len() ==> leaf(#[trigger] given[i]),
            forall|i: int| 0 <= i < given.len() ==> (#[trigger] given[i]).path@.len() >= lo,
            forall|i: int|
                0 <= i < nodes.len() ==> {
                    &&& (#[trigger] nodes@[i]).name == given[i].name
                    &&& nodes@[i].path == given[i].path
                    &&& nodes@[i].is_repo == given[i].is_repo
                },
            tree_ok(nodes@, map.source()),
        decreases rev.len(),
    {
        let mut n = rev.pop().unwrap();
        let ghost idx = nodes.len() as int;
        assert(n == given[idx]);
        let found = map.find(&n.path);
        match found {
            Some(k) => {
                let mut children = clone_leaves(&map.groups[k]);
                proof {
                    let es = kids(map.entries@, Some(map.keys@[k as int]@));
                    assert(nodes_of(map.groups@[k as int]@, es));
                    assert forall|j: int| 0 <= j < children.len() implies (#[trigger] children@[j]).path@.len() >= lo + 1 by {
                        assert(node_of(map.groups@[k as int]@[j], es[j]));
                        assert(kids(map.entries@, Some(n.path@)) == es);
                        lemma_kids_member(map.entries@, Some(n.path@), j);
                        lemma_parent_shorter(es[j].path);
                    }
                    if children.len() > 0 {
                        lemma_kids_member(map.entries@, Some(n.path@), 0);
                        assert(children@[0].path@.len() < map.bound@);
                    }
                }
                if children.len() > 0 {
                    attach_rec(&mut children, map, Ghost(lo + 1));
                }
                n.children = children;
                proof {
                    let es = kids(map.entries@, Some(n.path@));
                    assert(nodes_of(map.groups@[k as int]@, es));
                    assert(nodes_of(n.children@, es));
                }
            },
            None => {
                proof {
                    assert(kids(map.entries@, Some(n.path@)).len() == 0);
                    assert(leaf(given[idx]));
                    assert(tree_ok(n.children@, map.source()));
                }
            },
        }
        let ghost before = nodes@;
        nodes.push(n);
        proof {
            assert forall|i: int| 0 <= i < nodes@.len() implies {
                &&& nodes_of(#[trigger] nodes@[i].children@, kids(map.source(), Some(nodes@[i].path@)))
                &&& tree_ok(nodes@[i].children@, map.source())
            } by {
                if i < before.len() {
                    assert(nodes@[i] == before[i]);
                }
            }
        }
    }
}

/// Each entry of `kids` is an entry of `entries` with that parent.
pub proof fn lemma_kids_member(entries: Seq<RepoEntryView>, p: Option<Seq<char>>, j: int)
    requires
        0 <= j < kids(entries, p).len(),
    ensures
        parent_of(kids(entries, p)[j].path) == p,
        exists|e: int| 0 <= e < entries.len() && entries[e] == kids(entries, p)[j],
    decreases entries.len(),
{
    if entries.len() > 0 {
        let r = kids(entries.drop_last(), p);
        if j < r.len() {
            lemma_kids_member(entries.drop_last(), p, j);
            let e = choose|e: int| 0 <= e < entries.drop_last().len() && entries.drop_last()[e] == r[j];
            assert(entries[e] == r[j]);
        } else {
            assert(entries[entries.len() - 1] == entries.last());
        }
    }
}

/// Gives every node its children from `path_map`, and theirs in turn.
pub fn attach_children(nodes: &mut Vec<TreeNode>, path_map: &ChildIndex)
    requires
        path_map.wf(),
        forall|i: int| 0 <= i < old(nodes).len() ==> leaf(#[trigger] old(nodes)@[i]),
    ensures
        final(nodes).len() == old(nodes).len(),
        forall|i: int|
            0 <= i < old(nodes).len() ==> {
                &&& (#[trigger] final(nodes)@[i]).name == old(nodes)@[i].name
                &&& final(nodes)@[i].path == old(nodes)@[i].path
                &&& final(nodes)@[i].is_repo == old(nodes)@[i].is_repo
            },
        tree_ok(final(nodes)@, path_map.source()),
{
    attach_rec(nodes, path_map, Ghost(0));
}

/// The first pass of building the tree: leaf nodes for the entries without a
/// parent, in order, and the index of the children of every parent path.
pub fn index_entries(entries: &Vec<RepoEntry>) -> (r: (Vec<TreeNode>, ChildIndex))
    ensures
        r.1.wf(),
        r.1.source() == entry_views(entries@),
        nodes_of(r.0@, kids(entry_views(entries@), None)),
        forall|j: int| 0 <= j < r.0.len() ==> leaf(#[trigger] r.0@[j]),
{
    let ghost all = entry_views(entries@);
    let mut roots: Vec<TreeNode> = Vec::new();
    let mut map = ChildIndex {
        keys: Vec::new(),
        groups: Vec::new(),
        entries: Ghost(Seq::<RepoEntryView>::empty()),
        bound: Ghost(0),
    };
    let mut i: usize = 0;
    assert(all.take(0) =~= Seq::<RepoEntryView>::empty());
    while i < entries.len()
        invariant
            i <= entries.len(),
            all == entry_views(entries@),
            map.wf(),
            map.entries@ == all.take(i as int),
            nodes_of(roots@, kids(all.take(i as int), None)),
            forall|j: int| 0 <= j < roots.len() ==> leaf(#[trigger] roots@[j]),
        decreases entries.len() - i,
    {
        let e = &entries[i];
        let node = leaf_of(e);
        let parent = parent_path(&e.path);
        let ghost prev = map.entries@;
        let ghost next = all.take(i + 1);
        assert(next =~= prev.push(e@));
        proof {
            assert forall|p: Option<Seq<char>>| true implies kids(next, p) == (if parent_of(e@.path) == p {
                kids(prev, p).push(e@)
            } else {
                kids(prev, p)
            }) by {
                lemma_kids_push(prev, e@, p);
            }
        }
        match parent {
            None => {
                roots.push(node);
                map.entries = Ghost(next);
                map.bound = Ghost(if e@.path.len() + 1 > map.bound@ { e@.path.len() + 1 } else { map.bound@ });
                proof {
                    lemma_kids_push(prev, e@, None);
                    assert(nodes_of(roots@, kids(next, None)));
                    assert forall|k: int| 0 <= k < map.keys.len() implies {
                        &&& nodes_of(#[trigger] map.groups@[k]@, kids(map.entries@, Some(map.keys@[k]@)))
                        &&& forall|j: int| 0 <= j < map.groups@[k]@.len() ==> leaf(#[trigger] map.groups@[k]@[j])
                    } by {
                        lemma_kids_push(prev, e@, Some(map.keys@[k]@));
                    }
                    assert forall|p: Seq<char>|
                        (forall|k: int| 0 <= k < map.keys.len() ==> map.keys@[k]@ != p) implies kids(map.entries@, Some(p)).len() == 0 by {
                        lemma_kids_push(prev, e@, Some(p));
                    }
                    assert forall|x: int| 0 <= x < map.entries@.len() implies #[trigger] map.entries@[x].path.len() < map.bound@ by {
                        if x < prev.len() {
                            assert(map.entries@[x] == prev[x]);
                        }
                    }
                }
            },
            Some(pp) => {
                let key = crate::text::string_of(&pp);
                let ghost old_keys = map.keys@;
                let ghost old_groups = map.groups@;
                let found = map.find(&key);
                proof {
                    lemma_kids_push(prev, e@, None);
                    lemma_kids_push(prev, e@, Some(key@));
                }
                match found {
                    Some(k) => {
                        map.groups[k].push(node);
                        proof {
                            assert(map.keys@ == old_keys);
                            assert forall|x: int| 0 <= x < map.keys.len() && x != k implies map.groups@[x] == old_groups[x] by {}
                        }
                    },
                    None => {
                        map.keys.push(key);
                        map.groups.push(vec![node]);
                        proof {
                            assert(kids(prev, Some(key@)).len() == 0);
                            assert(kids(prev, Some(key@)).push(e@) =~= seq![e@]);
                        }
                    },
                }
                map.entries = Ghost(next);
                map.bound = Ghost(if e@.path.len() + 1 > map.bound@ { e@.path.len() + 1 } else { map.bound@ });
                proof {
                    assert(nodes_of(roots@, kids(next, None)));
                    assert forall|a: int, b: int|
                        0 <= a < b < map.keys.len() implies map.keys@[a]@ != map.keys@[b]@ by {
                        if b >= old_keys.len() {
                            assert(map.keys@[a] == old_keys[a]);
                        } else {
                            assert(map.keys@[a] == old_keys[a]);
                            assert(map.keys@[b] == old_keys[b]);
                        }
                    }
                    assert forall|k: int| 0 <= k < map.keys.len() implies {
                        &&& nodes_of(#[trigger] map.groups@[k]@, kids(map.entries@, Some(map.keys@[k]@)))
                        &&& forall|j: int| 0 <= j < map.groups@[k]@.len() ==> leaf(#[trigger] map.groups@[k]@[j])
                    } by {
                        lemma_kids_push(prev, e@, Some(map.keys@[k]@));
                        if map.keys@[k]@ == key@ {
                            let g = map.groups@[k]@;
                            let es = kids(map.entries@, Some(map.keys@[k]@));
                            if k < old_keys.len() {
                                assert(old_keys[k]@ == key@);
                                assert(nodes_of(old_groups[k]@, kids(prev, Some(key@))));
                                assert forall|j: int| 0 <= j < es.len() implies node_of(#[trigger] g[j], es[j]) by {
                                    if j < old_groups[k]@.len() {
                                        assert(g[j] == old_groups[k]@[j]);
                                    }
                                }
                                assert forall|j: int| 0 <= j < g.len() implies leaf(#[trigger] g[j]) by {
                                    if j < old_groups[k]@.len() {
                                        assert(g[j] == old_groups[k]@[j]);
                                    }
                                }
                            }
                        } else {
                            assert(k < old_keys.len());
                            assert(map.keys@[k] == old_keys[k]);
                            assert(map.groups@[k] == old_groups[k]);
                        }
                    }
                    assert forall|p: Seq<char>|
                        (forall|k: int| 0 <= k < map.keys.len() ==> map.keys@[k]@ != p) implies kids(map.entries@, Some(p)).len() == 0 by {
                        lemma_kids_push(prev, e@, Some(p));
                        assert forall|k: int| 0 <= k < old_keys.len() implies old_keys[k]@ != p by {
                            assert(map.keys@[k] == old_keys[k]);
                        }
                        if p == key@ {
                            if found is Some {
                                let k = found->0 as int;
                                assert(map.keys@[k]@ == p);
                            } else {
                                assert(map.keys@[old_keys.len() as int]@ == p);
                            }
                        }
                    }
                    assert forall|x: int| 0 <= x < map.entries@.len() implies #[trigger] map.entries@[x].path.len() < map.bound@ by {
                        if x < prev.len() {
                            assert(map.entries@[x] == prev[x]);
                        }
                    }
                }
            },
        }
        i += 1;
    }
    assert(all.take(entries.len() as int) =~= all);
    (roots, map)
}

/// The repository tree of the scanned entries: the entries without a `/` in
/// their path at the top, in order, each with the tree of its children below.
pub fn build_tree(entries: Vec<RepoEntry>) -> (r: Vec<TreeNode>)
    ensures
        nodes_of(r@, kids(entry_views(entries@), None)),
        tree_ok(r@, entry_views(entries@)),
{
    let (mut roots, map) = index_entries(&entries);
    attach_children(&mut roots, &map);
    roots
}

} // verus!
