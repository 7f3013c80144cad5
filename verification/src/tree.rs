//! The two trees that the nodes of one arena form: the document tree and the
//! layout tree. Both are kept as links on the node record, and every
//! algorithm names the one it walks.

use vstd::prelude::*;
use crate::arena::arena_get;
use crate::arena::arena_get_mut;
use crate::arena::arena_insert;
use crate::arena::arena_new;
use crate::arena::arena_next_key;
use crate::arena::arena_nodes;
use crate::node::ElementState;
use crate::node::Layout;
use crate::node::Node;
use crate::node::NodeData;
use slab::Slab;

verus! {

/// Which of the two trees a link belongs to.
#[derive(Clone, Copy, Debug, PartialEq, Eq, Structural)]
pub enum Relation {
    /// `parent` and `children`: the document tree.
    Dom,
    /// `layout_parent` and `layout_children`: the box tree that layout made.
    Layout,
}

/// Why a tree could not be changed as asked.
#[derive(Clone, Copy, Debug, PartialEq, Eq, Structural)]
pub enum TreeError {
    /// A key names no node of the arena.
    NoSuchNode,
    /// The node to attach already has a parent or children in that tree, or
    /// is the document root or the parent itself.
    NotDetached,
}

/// The children of `n` in the tree `rel`.
pub open spec fn kids(n: Node, rel: Relation) -> Seq<usize> {
    match rel {
        Relation::Dom => n.children@,
        Relation::Layout => n.layout_children@,
    }
}

/// The parent of `n` in the tree `rel`.
pub open spec fn up(n: Node, rel: Relation) -> Option<usize> {
    match rel {
        Relation::Dom => n.parent,
        Relation::Layout => n.layout_parent,
    }
}

/// `r` numbers the nodes so that every child has a smaller number than its
/// parent and no number exceeds `b`: the tree `rel` has no cycle.
pub open spec fn ranked(m: Map<usize, Node>, rel: Relation, r: spec_fn(usize) -> nat, b: nat) -> bool {
    &&& forall|k: usize, i: int|
        m.dom().contains(k) && 0 <= i < kids(m[k], rel).len() ==> r(#[trigger] kids(m[k], rel)[i])
            < r(k)
    &&& forall|k: usize| m.dom().contains(k) ==> #[trigger] r(k) <= b
}

/// The links of the tree `rel` are sound: they stay inside the arena, a
/// node's children and each child's parent agree, no child is listed twice,
/// and there is no cycle.
pub open spec fn linked(m: Map<usize, Node>, rel: Relation) -> bool {
    &&& forall|k: usize, i: int|
        m.dom().contains(k) && 0 <= i < kids(m[k], rel).len() ==> {
            let c = #[trigger] kids(m[k], rel)[i];
            m.dom().contains(c) && up(m[c], rel) == Some(k)
        }
    &&& forall|k: usize|
        m.dom().contains(k) && (#[trigger] up(m[k], rel)) is Some ==> {
            let p = up(m[k], rel)->0;
            m.dom().contains(p) && kids(m[p], rel).contains(k)
        }
    &&& forall|k: usize, i: int, j: int|
        m.dom().contains(k) && 0 <= i < j < kids(m[k], rel).len() ==> #[trigger] kids(m[k], rel)[i]
            != #[trigger] kids(m[k], rel)[j]
    &&& exists|r: spec_fn(usize) -> nat, b: nat| ranked(m, rel, r, b)
}

/// The arena holds a well-formed document: every node knows its own key,
/// node 0 is the document root, and both trees are sound.
pub open spec fn tree_wf(m: Map<usize, Node>) -> bool {
    &&& forall|k: usize| m.dom().contains(k) ==> (#[trigger] m[k]).id == k
    &&& m.dom().contains(0)
    &&& m[0].parent is None
    &&& linked(m, Relation::Dom)
    &&& linked(m, Relation::Layout)
}

/// `r` is a bounded numbering of the tree `rel` under which children come
/// before parents.
pub open spec fn rankable(m: Map<usize, Node>, rel: Relation, r: spec_fn(usize) -> nat) -> bool {
    exists|b: nat| ranked(m, rel, r, b)
}

/// A numbering of the nodes of a sound tree under which children come
/// before parents.
pub closed spec fn rank_of(m: Map<usize, Node>, rel: Relation) -> spec_fn(usize) -> nat {
    choose|r: spec_fn(usize) -> nat| rankable(m, rel, r)
}

/// A bound on [`rank_of`].
pub closed spec fn rank_bound(m: Map<usize, Node>, rel: Relation) -> nat {
    choose|b: nat| ranked(m, rel, rank_of(m, rel), b)
}

/// How far `k` is above the leaves of the tree `rel`: larger than for any
/// of its children.
pub open spec fn height(m: Map<usize, Node>, rel: Relation, k: usize) -> nat {
    rank_of(m, rel)(k)
}

/// How far `k` is below the top of the tree `rel`: larger than for its
/// parent.
pub open spec fn depth(m: Map<usize, Node>, rel: Relation, k: usize) -> nat {
    (rank_bound(m, rel) - rank_of(m, rel)(k)) as nat
}

/// In a sound tree, going to a child lowers the height and going to the
/// parent lowers the depth.
pub proof fn lemma_heights(m: Map<usize, Node>, rel: Relation)
    requires
        linked(m, rel),
    ensures
        forall|k: usize, i: int|
            m.dom().contains(k) && 0 <= i < kids(m[k], rel).len() ==> height(
                m,
                rel,
                #[trigger] kids(m[k], rel)[i],
            ) < height(m, rel, k),
        forall|k: usize|
            m.dom().contains(k) && (#[trigger] up(m[k], rel)) is Some ==> depth(
                m,
                rel,
                up(m[k], rel)->0,
            ) < depth(m, rel, k),
{
    let (r0, b0) = choose|r: spec_fn(usize) -> nat, b: nat| ranked(m, rel, r, b);
    assert(ranked(m, rel, r0, b0));
    assert(rankable(m, rel, r0));
    let r = rank_of(m, rel);
    assert(rankable(m, rel, r));
    let b = rank_bound(m, rel);
    assert(ranked(m, rel, r, b));
    assert forall|k: usize| m.dom().contains(k) && (#[trigger] up(m[k], rel)) is Some implies depth(
        m,
        rel,
        up(m[k], rel)->0,
    ) < depth(m, rel, k) by {
        let p = up(m[k], rel)->0;
        assert(kids(m[p], rel).contains(k));
        let i = choose|i: int| 0 <= i < kids(m[p], rel).len() && kids(m[p], rel)[i] == k;
        assert(r(kids(m[p], rel)[i]) < r(p));
        assert(r(p) <= b);
        assert(r(k) <= b);
    }
}

/// A node as it is right after creation: it holds `data` under the key
/// `id` and is linked to nothing.
pub open spec fn is_fresh_node(n: Node, id: usize, data: NodeData) -> bool {
    &&& n.id == id
    &&& n.raw_dom_data == data
    &&& n.parent is None
    &&& n.children@.len() == 0
    &&& n.layout_parent is None
    &&& n.layout_children@.len() == 0
    &&& n.element_state.bits == 0
    &&& n.selector_flags == 0
    &&& !n.has_snapshot
    &&& !n.snapshot_handled
    &&& n.style_data is None
    &&& n.final_layout == (Layout { x: 0, y: 0, width: 0, height: 0 })
    &&& n.scroll_x == 0
    &&& n.scroll_y == 0
}

fn fresh_node(id: usize, data: NodeData) -> (n: Node)
    ensures
        is_fresh_node(n, id, data),
{
    Node {
        id,
        parent: None,
        children: Vec::new(),
        raw_dom_data: data,
        element_state: ElementState::empty(),
        selector_flags: 0,
        has_snapshot: false,
        snapshot_handled: false,
        style_data: None,
        layout_parent: None,
        layout_children: Vec::new(),
        final_layout: Layout { x: 0, y: 0, width: 0, height: 0 },
        scroll_x: 0,
        scroll_y: 0,
    }
}

/// Makes an arena that holds the document root, under key 0, and nothing
/// else.
pub fn new_tree() -> (tree: Slab<Node>)
    ensures
        tree_wf(arena_nodes(tree)),
        arena_nodes(tree).dom() == set![0usize],
        is_fresh_node(arena_nodes(tree)[0], 0, NodeData::Document),
{
    let mut tree = arena_new();
    let key = arena_next_key(&tree);
    let root = fresh_node(key, NodeData::Document);
    let at = arena_insert(&mut tree, root);
    proof {
        let m = arena_nodes(tree);
        assert(m.dom() =~= set![0usize]);
        let r = |k: usize| 0nat;
        assert(ranked(m, Relation::Dom, r, 0));
        assert(ranked(m, Relation::Layout, r, 0));
    }
    tree
}

/// Adds a node that holds `data` to the arena, linked to nothing yet, and
/// returns its key. Every other node stays as it was.
pub fn create_node(tree: &mut Slab<Node>, data: NodeData) -> (id: usize)
    requires
        tree_wf(arena_nodes(*old(tree))),
    ensures
        tree_wf(arena_nodes(*final(tree))),
        !arena_nodes(*old(tree)).dom().contains(id),
        arena_nodes(*final(tree)).dom() == arena_nodes(*old(tree)).dom().insert(id),
        is_fresh_node(arena_nodes(*final(tree))[id], id, data),
        forall|k: usize|
            arena_nodes(*old(tree)).dom().contains(k) ==> #[trigger] arena_nodes(*final(tree))[k]
                == arena_nodes(*old(tree))[k],
{
    let key = arena_next_key(tree);
    let node = fresh_node(key, data);
    let at = arena_insert(tree, node);
    proof {
        let m0 = arena_nodes(*old(tree));
        let m = arena_nodes(*tree);
        assert(m.dom() =~= m0.dom().insert(key));
        lemma_fresh_keeps_linked(m0, m, key, Relation::Dom);
        lemma_fresh_keeps_linked(m0, m, key, Relation::Layout);
    }
    key
}

/// Adding a node without links keeps a tree sound.
proof fn lemma_fresh_keeps_linked(m0: Map<usize, Node>, m: Map<usize, Node>, key: usize, rel: Relation)
    requires
        linked(m0, rel),
        !m0.dom().contains(key),
        m == m0.insert(key, m[key]),
        kids(m[key], rel).len() == 0,
        up(m[key], rel) is None,
    ensures
        linked(m, rel),
{
    let (r0, b0) = choose|r: spec_fn(usize) -> nat, b: nat| ranked(m0, rel, r, b);
    let r = |k: usize| if k == key { 0nat } else { r0(k) };
    assert forall|k: usize, i: int|
        m.dom().contains(k) && 0 <= i < kids(m[k], rel).len() implies r(#[trigger] kids(m[k], rel)[i])
        < r(k) by {
        assert(k != key);
        assert(m[k] == m0[k]);
        let c = kids(m0[k], rel)[i];
        assert(m0.dom().contains(c));
        assert(r0(c) < r0(k));
    }
    assert(ranked(m, rel, r, b0));
    assert forall|k: usize, i: int|
        m.dom().contains(k) && 0 <= i < kids(m[k], rel).len() implies {
        let c = #[trigger] kids(m[k], rel)[i];
        m.dom().contains(c) && up(m[c], rel) == Some(k)
    } by {
        assert(m[k] == m0[k]);
        let c = kids(m0[k], rel)[i];
        assert(m0.dom().contains(c));
    }
    assert forall|k: usize| m.dom().contains(k) && (#[trigger] up(m[k], rel)) is Some implies {
        let p = up(m[k], rel)->0;
        m.dom().contains(p) && kids(m[p], rel).contains(k)
    } by {
        assert(m[k] == m0[k]);
        let p = up(m0[k], rel)->0;
        assert(m0.dom().contains(p));
        assert(m[p] == m0[p]);
    }
    assert forall|k: usize, i: int, j: int|
        m.dom().contains(k) && 0 <= i < j < kids(m[k], rel).len() implies #[trigger] kids(
        m[k],
        rel,
    )[i] != #[trigger] kids(m[k], rel)[j] by {
        assert(m[k] == m0[k]);
    }
}

impl Node {
    /// The parent of this node in the tree `rel`.
    pub fn parent_in(&self, rel: Relation) -> (r: Option<usize>)
        ensures
            r == up(*self, rel),
    {
        match rel {
            Relation::Dom => self.parent,
            Relation::Layout => self.layout_parent,
        }
    }

    /// The children of this node in the tree `rel`.
    pub fn kids_in(&self, rel: Relation) -> (r: &Vec<usize>)
        ensures
            r@ == kids(*self, rel),
    {
        match rel {
            Relation::Dom => &self.children,
            Relation::Layout => &self.layout_children,
        }
    }
}

/// `a` is `b` but for its links in the tree `rel`.
pub open spec fn only_links_differ(a: Node, b: Node, rel: Relation) -> bool {
    match rel {
        Relation::Dom => a == (Node { parent: a.parent, children: a.children, ..b }),
        Relation::Layout => a == (Node {
            layout_parent: a.layout_parent,
            layout_children: a.layout_children,
            ..b
        }),
    }
}

/// Whether `child` can be made the last child of `parent` in the tree
/// `rel`, and if not, why.
pub open spec fn can_attach(m: Map<usize, Node>, rel: Relation, parent: usize, child: usize) -> Result<
    (),
    TreeError,
> {
    if !m.dom().contains(parent) || !m.dom().contains(child) {
        Err(TreeError::NoSuchNode)
    } else if child == parent || child == 0 || up(m[child], rel) is Some || kids(m[child], rel).len()
        > 0 {
        Err(TreeError::NotDetached)
    } else {
        Ok(())
    }
}

/// `m` is `m0` after `child` became the last child of `parent` in the tree
/// `rel`: only those two nodes changed, and only in their links in `rel`.
pub open spec fn attached(
    m0: Map<usize, Node>,
    m: Map<usize, Node>,
    rel: Relation,
    parent: usize,
    child: usize,
) -> bool {
    &&& m.dom() == m0.dom()
    &&& forall|k: usize|
        m0.dom().contains(k) && k != parent && k != child ==> #[trigger] m[k] == m0[k]
    &&& only_links_differ(m[parent], m0[parent], rel)
    &&& kids(m[parent], rel) == kids(m0[parent], rel).push(child)
    &&& up(m[parent], rel) == up(m0[parent], rel)
    &&& only_links_differ(m[child], m0[child], rel)
    &&& kids(m[child], rel) == kids(m0[child], rel)
    &&& up(m[child], rel) == Some(parent)
}

/// Makes `child` the last child of `parent` in the tree `rel`.
///
/// The child must be in neither tree position yet: it has no parent and no
/// children in `rel`, and it is neither the document root nor `parent`.
/// Otherwise nothing changes and the reason is returned.
pub fn append_child(tree: &mut Slab<Node>, rel: Relation, parent: usize, child: usize) -> (r: Result<
    (),
    TreeError,
>)
    requires
        tree_wf(arena_nodes(*old(tree))),
    ensures
        tree_wf(arena_nodes(*final(tree))),
        r == can_attach(arena_nodes(*old(tree)), rel, parent, child),
        r is Ok ==> attached(arena_nodes(*old(tree)), arena_nodes(*final(tree)), rel, parent, child),
        r is Err ==> arena_nodes(*final(tree)) == arena_nodes(*old(tree)),
{
    let ghost m0 = arena_nodes(*tree);
    if arena_get(tree, parent).is_none() {
        return Err(TreeError::NoSuchNode);
    }
    let detached = match arena_get(tree, child) {
        None => {
            return Err(TreeError::NoSuchNode);
        },
        Some(c) => c.parent_in(rel).is_none() && c.kids_in(rel).len() == 0,
    };
    if !detached || child == parent || child == 0 {
        return Err(TreeError::NotDetached);
    }
    match arena_get_mut(tree, parent) {
        Some(p) => {
            match rel {
                Relation::Dom => p.children.push(child),
                Relation::Layout => p.layout_children.push(child),
            }
        },
        None => {},
    }
    let ghost m1 = arena_nodes(*tree);
    match arena_get_mut(tree, child) {
        Some(c) => {
            match rel {
                Relation::Dom => {
                    c.parent = Some(parent);
                },
                Relation::Layout => {
                    c.layout_parent = Some(parent);
                },
            }
        },
        None => {},
    }
    proof {
        let m = arena_nodes(*tree);
        assert(m1.dom() =~= m0.dom());
        assert(m.dom() =~= m0.dom());
        assert(m[parent] == m1[parent]);
        assert(attached(m0, m, rel, parent, child));
        lemma_attach_keeps_linked(m0, m, rel, parent, child);
        let other = match rel {
            Relation::Dom => Relation::Layout,
            Relation::Layout => Relation::Dom,
        };
        lemma_same_links_linked(m0, m, other);
    }
    Ok(())
}

/// A tree whose links did not change is as sound as it was.
proof fn lemma_same_links_linked(m0: Map<usize, Node>, m: Map<usize, Node>, rel: Relation)
    requires
        linked(m0, rel),
        m.dom() == m0.dom(),
        forall|k: usize|
            m0.dom().contains(k) ==> kids(#[trigger] m[k], rel) == kids(m0[k], rel) && up(
                m[k],
                rel,
            ) == up(m0[k], rel),
    ensures
        linked(m, rel),
{
    let (r0, b0) = choose|r: spec_fn(usize) -> nat, b: nat| ranked(m0, rel, r, b);
    assert forall|k: usize, i: int|
        m.dom().contains(k) && 0 <= i < kids(m[k], rel).len() implies r0(#[trigger] kids(m[k], rel)[i])
        < r0(k) by {
        assert(kids(m[k], rel) == kids(m0[k], rel));
        let c = kids(m0[k], rel)[i];
        assert(r0(c) < r0(k));
    }
    assert(ranked(m, rel, r0, b0));
    assert forall|k: usize, i: int|
        m.dom().contains(k) && 0 <= i < kids(m[k], rel).len() implies {
        let c = #[trigger] kids(m[k], rel)[i];
        m.dom().contains(c) && up(m[c], rel) == Some(k)
    } by {
        assert(kids(m[k], rel) == kids(m0[k], rel));
        let c = kids(m0[k], rel)[i];
        assert(m0.dom().contains(c));
        assert(up(m[c], rel) == up(m0[c], rel));
    }
    assert forall|k: usize| m.dom().contains(k) && (#[trigger] up(m[k], rel)) is Some implies {
        let p = up(m[k], rel)->0;
        m.dom().contains(p) && kids(m[p], rel).contains(k)
    } by {
        assert(up(m[k], rel) == up(m0[k], rel));
        let p = up(m0[k], rel)->0;
        assert(m0.dom().contains(p));
        assert(kids(m[p], rel) == kids(m0[p], rel));
    }
    assert forall|k: usize, i: int, j: int|
        m.dom().contains(k) && 0 <= i < j < kids(m[k], rel).len() implies #[trigger] kids(
        m[k],
        rel,
    )[i] != #[trigger] kids(m[k], rel)[j] by {
        assert(kids(m[k], rel) == kids(m0[k], rel));
    }
}

/// Attaching a detached node keeps the tree sound.
proof fn lemma_attach_keeps_linked(
    m0: Map<usize, Node>,
    m: Map<usize, Node>,
    rel: Relation,
    parent: usize,
    child: usize,
)
    requires
        linked(m0, rel),
        can_attach(m0, rel, parent, child) is Ok,
        attached(m0, m, rel, parent, child),
    ensures
        linked(m, rel),
{
    let (r0, b0) = choose|r: spec_fn(usize) -> nat, b: nat| ranked(m0, rel, r, b);
    let r = |k: usize| if k == child { 0nat } else { r0(k) + 1 };
    let old_kids = kids(m0[parent], rel);
    // Nobody listed the child before: its parent link would say so.
    assert forall|k: usize, i: int|
        m0.dom().contains(k) && 0 <= i < kids(m0[k], rel).len() implies kids(m0[k], rel)[i]
        != child by {
        let c = kids(m0[k], rel)[i];
        assert(up(m0[c], rel) == Some(k));
    }
    // Nobody has the child as parent: it would list them.
    assert forall|k: usize| m0.dom().contains(k) implies up(m0[k], rel) != Some(child) by {
        if up(m0[k], rel) == Some(child) {
            assert(kids(m0[child], rel).contains(k));
        }
    }
    assert forall|k: usize, i: int|
        m.dom().contains(k) && 0 <= i < kids(m[k], rel).len() implies r(#[trigger] kids(m[k], rel)[i])
        < r(k) by {
        if k == parent {
            if i < old_kids.len() {
                assert(kids(m[k], rel)[i] == old_kids[i]);
                assert(r0(old_kids[i]) < r0(k));
            }
        } else {
            assert(k != child);
            assert(m[k] == m0[k]);
            let c = kids(m0[k], rel)[i];
            assert(r0(c) < r0(k));
        }
    }
    assert forall|k: usize| m.dom().contains(k) implies #[trigger] r(k) <= b0 + 1 by {
        assert(r0(k) <= b0);
    }
    assert(ranked(m, rel, r, (b0 + 1) as nat));
    assert forall|k: usize, i: int|
        m.dom().contains(k) && 0 <= i < kids(m[k], rel).len() implies {
        let c = #[trigger] kids(m[k], rel)[i];
        m.dom().contains(c) && up(m[c], rel) == Some(k)
    } by {
        if k == parent {
            if i < old_kids.len() {
                let c = old_kids[i];
                assert(kids(m[k], rel)[i] == c);
                assert(m0.dom().contains(c) && up(m0[c], rel) == Some(k));
                assert(c != child);
                if c != parent {
                    assert(m[c] == m0[c]);
                }
            }
        } else {
            assert(m[k] == m0[k]);
            let c = kids(m0[k], rel)[i];
            assert(m0.dom().contains(c) && up(m0[c], rel) == Some(k));
            assert(c != child);
            if c != parent {
                assert(m[c] == m0[c]);
            }
        }
    }
    assert forall|k: usize| m.dom().contains(k) && (#[trigger] up(m[k], rel)) is Some implies {
        let p = up(m[k], rel)->0;
        m.dom().contains(p) && kids(m[p], rel).contains(k)
    } by {
        if k == child {
            assert(kids(m[parent], rel)[old_kids.len() as int] == child);
        } else {
            if k != parent {
                assert(m[k] == m0[k]);
            }
            assert(up(m[k], rel) == up(m0[k], rel));
            let p = up(m0[k], rel)->0;
            assert(m0.dom().contains(p) && kids(m0[p], rel).contains(k));
            assert(p != child);
            let i = choose|i: int| 0 <= i < kids(m0[p], rel).len() && kids(m0[p], rel)[i] == k;
            if p == parent {
                assert(kids(m[p], rel)[i] == k);
            } else {
                assert(m[p] == m0[p]);
            }
        }
    }
    assert forall|k: usize, i: int, j: int|
        m.dom().contains(k) && 0 <= i < j < kids(m[k], rel).len() implies #[trigger] kids(
        m[k],
        rel,
    )[i] != #[trigger] kids(m[k], rel)[j] by {
        if k == parent {
            if j < old_kids.len() {
                assert(kids(m[k], rel)[i] == old_kids[i]);
                assert(kids(m[k], rel)[j] == old_kids[j]);
            } else {
                assert(kids(m[k], rel)[i] == old_kids[i]);
                assert(old_kids[i] != child);
            }
        } else {
            assert(k != child);
            assert(m[k] == m0[k]);
        }
    }
}

/// `n` has the key and the links of `n0`; whatever else it holds may
/// differ.
pub open spec fn same_links(n: Node, n0: Node) -> bool {
    &&& n.id == n0.id
    &&& n.parent == n0.parent
    &&& n.children@ == n0.children@
    &&& n.layout_parent == n0.layout_parent
    &&& n.layout_children@ == n0.layout_children@
}

/// Replacing what a node holds, but not its links, keeps a document
/// well-formed.
pub proof fn lemma_update_keeps_wf(m0: Map<usize, Node>, id: usize, n: Node)
    requires
        tree_wf(m0),
        m0.dom().contains(id),
        same_links(n, m0[id]),
    ensures
        tree_wf(m0.insert(id, n)),
{
    let m = m0.insert(id, n);
    assert(m.dom() =~= m0.dom());
    lemma_same_links_linked(m0, m, Relation::Dom);
    lemma_same_links_linked(m0, m, Relation::Layout);
}

} // verus!
