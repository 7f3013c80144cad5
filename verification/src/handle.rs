//! A transient cursor over the arena: one node together with the arena it
//! lives in, and the navigation the matching engine asks for.

use vstd::prelude::*;
use crate::arena::arena_get;
use crate::arena::arena_nodes;
use crate::node::Node;
use crate::node::NodeData;
use crate::tree::kids;
use crate::tree::tree_wf;
use crate::tree::up;
use crate::tree::Relation;
use slab::Slab;

verus! {

/// A node and the arena that holds it. It owns neither.
#[derive(Clone, Copy, Debug)]
pub struct Handle<'a> {
    pub node: &'a Node,
    pub tree: &'a Slab<Node>,
}

/// The sibling of `id` that stands `offset` places after it (before it, for
/// a negative offset) in its parent's list of children in the tree `rel`.
/// Text and comment nodes count.
pub open spec fn sibling(m: Map<usize, Node>, rel: Relation, id: usize, offset: int) -> Option<usize> {
    match up(m[id], rel) {
        None => None,
        Some(p) => {
            let list = kids(m[p], rel);
            let at = list.index_of(id) + offset;
            if 0 <= at < list.len() {
                Some(list[at])
            } else {
                None
            }
        },
    }
}

/// The node holds an element.
pub open spec fn is_element_node(n: Node) -> bool {
    n.raw_dom_data is Element
}

/// `at` is the first place at or after `from` where `list` names an
/// element.
pub open spec fn first_element_from(m: Map<usize, Node>, list: Seq<usize>, from: int, at: int) -> bool {
    &&& from <= at < list.len()
    &&& is_element_node(m[list[at]])
    &&& forall|j: int| from <= j < at ==> !is_element_node(m[#[trigger] list[j]])
}

/// `at` is the last place before `until` where `list` names an element.
pub open spec fn last_element_before(m: Map<usize, Node>, list: Seq<usize>, until: int, at: int) -> bool {
    &&& 0 <= at < until
    &&& is_element_node(m[list[at]])
    &&& forall|j: int| at < j < until ==> !is_element_node(m[#[trigger] list[j]])
}

/// `list` names no element from `from` to `until`.
pub open spec fn no_element_between(m: Map<usize, Node>, list: Seq<usize>, from: int, until: int) -> bool {
    forall|j: int| from <= j < until ==> !is_element_node(m[#[trigger] list[j]])
}

/// In a sound tree a child stands exactly once in its parent's list.
pub proof fn lemma_position(m: Map<usize, Node>, rel: Relation, id: usize, at: int)
    requires
        crate::tree::linked(m, rel),
        m.dom().contains(id),
        up(m[id], rel) is Some,
        0 <= at < kids(m[up(m[id], rel)->0], rel).len(),
        kids(m[up(m[id], rel)->0], rel)[at] == id,
    ensures
        kids(m[up(m[id], rel)->0], rel).index_of(id) == at,
{
    let p = up(m[id], rel)->0;
    let list = kids(m[p], rel);
    let j = list.index_of(id);
    assert(0 <= j < list.len() && list[j] == id);
    if j < at {
        assert(kids(m[p], rel)[j] != kids(m[p], rel)[at]);
    } else if at < j {
        assert(kids(m[p], rel)[at] != kids(m[p], rel)[j]);
    }
}

impl<'a> Handle<'a> {
    /// What the arena holds.
    pub open spec fn nodes(&self) -> Map<usize, Node> {
        arena_nodes(*self.tree)
    }

    /// The key of the node.
    pub open spec fn key(&self) -> usize {
        self.node.id
    }

    /// The arena holds a well-formed document and `node` is its node of
    /// that key.
    pub open spec fn wf(&self) -> bool {
        &&& tree_wf(self.nodes())
        &&& self.nodes().dom().contains(self.node.id)
        &&& self.nodes()[self.node.id] == *self.node
    }

    /// `other` is a sound handle into the same arena, on the node `id`.
    pub open spec fn points_to(&self, other: Handle<'a>, id: usize) -> bool {
        &&& other.tree == self.tree
        &&& other.node.id == id
        &&& other.wf()
    }

    /// `r` is a handle on the node `id`, if there is a `Some(id)`, and
    /// nothing otherwise.
    pub open spec fn points_to_opt(&self, r: Option<Handle<'a>>, id: Option<usize>) -> bool {
        match id {
            Some(k) => r is Some && self.points_to(r->0, k),
            None => r is None,
        }
    }

    /// A handle on the node `id` of `tree`, if the arena has such a node.
    pub fn new(tree: &'a Slab<Node>, id: usize) -> (r: Option<Handle<'a>>)
        requires
            tree_wf(arena_nodes(*tree)),
        ensures
            r is Some <==> arena_nodes(*tree).dom().contains(id),
            r is Some ==> r->0.wf() && r->0.tree == tree && r->0.node.id == id,
    {
        match arena_get(tree, id) {
            Some(node) => Some(Handle { node, tree }),
            None => None,
        }
    }

    /// A handle on the node `id` of the same arena.
    pub fn get(&self, id: usize) -> (r: Handle<'a>)
        requires
            self.wf(),
            self.nodes().dom().contains(id),
        ensures
            self.points_to(r, id),
    {
        match arena_get(self.tree, id) {
            Some(node) => Handle { node, tree: self.tree },
            None => *self,
        }
    }

    /// The position of this node in its parent's list of children, or
    /// `None` for a node without a parent.
    #[verifier::loop_isolation(false)]
    pub fn child_index(&self) -> (r: Option<usize>)
        requires
            self.wf(),
        ensures
            match self.node.parent {
                None => r is None,
                Some(p) => r is Some && r->0 as int == kids(self.nodes()[p], Relation::Dom).index_of(
                    self.node.id,
                ) && r->0 < kids(self.nodes()[p], Relation::Dom).len() && kids(
                    self.nodes()[p],
                    Relation::Dom,
                )[r->0 as int] == self.node.id,
            },
    {
        match self.node.parent {
            None => None,
            Some(p) => {
                assert(up(self.nodes()[self.node.id], Relation::Dom) is Some);
                let parent = self.get(p);
                let list = &parent.node.children;
                let ghost m = self.nodes();
                assert(kids(m[p], Relation::Dom).contains(self.node.id));
                let mut i: usize = 0;
                while i < list.len()
                    invariant
                        i <= list.len(),
                        list@ == kids(m[p], Relation::Dom),
                        forall|j: int| 0 <= j < i ==> list@[j] != self.node.id,
                    decreases list.len() - i,
                {
                    if list[i] == self.node.id {
                        proof {
                            lemma_position(m, Relation::Dom, self.node.id, i as int);
                        }
                        return Some(i);
                    }
                    i += 1;
                }
                proof {
                    let j = choose|j: int| 0 <= j < list@.len() && list@[j] == self.node.id;
                    assert(list@[j] != self.node.id);
                }
                Some(0)
            },
        }
    }

    fn sibling_at(&self, at: Option<usize>) -> (r: Option<Handle<'a>>)
        requires
            self.wf(),
            self.node.parent is Some,
        ensures
            self.points_to_opt(
                r,
                if at is Some && at->0 < kids(self.nodes()[self.node.parent->0], Relation::Dom).len() {
                    Some(kids(self.nodes()[self.node.parent->0], Relation::Dom)[at->0 as int])
                } else {
                    None
                },
            ),
            kids(self.nodes()[self.node.parent->0], Relation::Dom).len() <= usize::MAX,
    {
        let p = match self.node.parent {
            Some(p) => p,
            None => {
                return None;
            },
        };
        assert(up(self.nodes()[self.node.id], Relation::Dom) is Some);
        let parent = self.get(p);
        let len: usize = parent.node.children.len();
        match at {
            Some(i) => {
                if i < len {
                    let c = parent.node.children[i];
                    assert(c == kids(self.nodes()[p], Relation::Dom)[i as int]);
                    Some(self.get(c))
                } else {
                    None
                }
            },
            None => None,
        }
    }

    /// The sibling `n` places after this node in its parent's list of
    /// children, whatever kind of node it is.
    pub fn forward(&self, n: usize) -> (r: Option<Handle<'a>>)
        requires
            self.wf(),
        ensures
            self.points_to_opt(r, sibling(self.nodes(), Relation::Dom, self.node.id, n as int)),
    {
        match self.child_index() {
            None => None,
            Some(i) => self.sibling_at(i.checked_add(n)),
        }
    }

    /// The sibling `n` places before this node in its parent's list of
    /// children, whatever kind of node it is.
    pub fn backward(&self, n: usize) -> (r: Option<Handle<'a>>)
        requires
            self.wf(),
        ensures
            self.points_to_opt(r, sibling(self.nodes(), Relation::Dom, self.node.id, -(n as int))),
    {
        match self.child_index() {
            None => None,
            Some(i) => self.sibling_at(i.checked_sub(n)),
        }
    }
}

/// `r` is the nearest sibling before `id` that is an element, or nothing
/// where no element stands before `id` (or `id` has no parent).
pub open spec fn is_prev_sibling_element(m: Map<usize, Node>, id: usize, r: Option<usize>) -> bool {
    match m[id].parent {
        None => r is None,
        Some(p) => {
            let list = kids(m[p], Relation::Dom);
            let i = list.index_of(id);
            match r {
                Some(c) => exists|at: int| last_element_before(m, list, i, at) && list[at] == c,
                None => no_element_between(m, list, 0, i),
            }
        },
    }
}

/// `r` is the nearest sibling after `id` that is an element, or nothing
/// where no element stands after `id` (or `id` has no parent).
pub open spec fn is_next_sibling_element(m: Map<usize, Node>, id: usize, r: Option<usize>) -> bool {
    match m[id].parent {
        None => r is None,
        Some(p) => {
            let list = kids(m[p], Relation::Dom);
            let i = list.index_of(id);
            match r {
                Some(c) => exists|at: int| first_element_from(m, list, i + 1, at) && list[at] == c,
                None => no_element_between(m, list, i + 1, list.len() as int),
            }
        },
    }
}

/// `r` is the first child of `id` that is an element, or nothing where
/// `id` has no element among its children.
pub open spec fn is_first_element_child(m: Map<usize, Node>, id: usize, r: Option<usize>) -> bool {
    let list = kids(m[id], Relation::Dom);
    match r {
        Some(c) => exists|at: int| first_element_from(m, list, 0, at) && list[at] == c,
        None => no_element_between(m, list, 0, list.len() as int),
    }
}

impl<'a> Handle<'a> {
    /// `r` is a handle on a node that `pick` accepts, or nothing where
    /// `pick` accepts nothing.
    pub open spec fn picks(&self, r: Option<Handle<'a>>, pick: spec_fn(Option<usize>) -> bool) -> bool {
        match r {
            Some(h) => self.points_to(h, h.node.id) && pick(Some(h.node.id)),
            None => pick(None),
        }
    }

    /// The parent in the document tree.
    pub fn parent_node(&self) -> (r: Option<Handle<'a>>)
        requires
            self.wf(),
        ensures
            self.points_to_opt(r, self.node.parent),
    {
        match self.node.parent {
            Some(p) => {
                assert(up(self.nodes()[self.node.id], Relation::Dom) is Some);
                Some(self.get(p))
            },
            None => None,
        }
    }

    /// The first child in the document tree, of whatever kind.
    pub fn first_child(&self) -> (r: Option<Handle<'a>>)
        requires
            self.wf(),
        ensures
            self.points_to_opt(
                r,
                if self.node.children@.len() > 0 {
                    Some(self.node.children@[0])
                } else {
                    None
                },
            ),
    {
        if self.node.children.len() > 0 {
            let c = self.node.children[0];
            assert(c == kids(self.nodes()[self.node.id], Relation::Dom)[0]);
            Some(self.get(c))
        } else {
            None
        }
    }

    /// The last child in the document tree, of whatever kind.
    pub fn last_child(&self) -> (r: Option<Handle<'a>>)
        requires
            self.wf(),
        ensures
            self.points_to_opt(
                r,
                if self.node.children@.len() > 0 {
                    Some(self.node.children@.last())
                } else {
                    None
                },
            ),
    {
        let n: usize = self.node.children.len();
        if n > 0 {
            let c = self.node.children[n - 1];
            assert(c == kids(self.nodes()[self.node.id], Relation::Dom)[n - 1]);
            Some(self.get(c))
        } else {
            None
        }
    }

    /// The sibling right before this node, of whatever kind.
    pub fn prev_sibling(&self) -> (r: Option<Handle<'a>>)
        requires
            self.wf(),
        ensures
            self.points_to_opt(r, sibling(self.nodes(), Relation::Dom, self.node.id, -1)),
    {
        self.backward(1)
    }

    /// The sibling right after this node, of whatever kind.
    pub fn next_sibling(&self) -> (r: Option<Handle<'a>>)
        requires
            self.wf(),
        ensures
            self.points_to_opt(r, sibling(self.nodes(), Relation::Dom, self.node.id, 1)),
    {
        self.forward(1)
    }

    /// Whether the node is an element.
    pub fn is_element(&self) -> (r: bool)
        ensures
            r == is_element_node(*self.node),
    {
        self.node.is_element()
    }

    /// Whether the node is a text node.
    pub fn is_text_node(&self) -> (r: bool)
        ensures
            r == (self.node.raw_dom_data is Text),
    {
        self.node.is_text_node()
    }

    /// This handle, if its node is an element.
    pub fn as_element(&self) -> (r: Option<Handle<'a>>)
        ensures
            r == (if is_element_node(*self.node) {
                Some(*self)
            } else {
                None
            }),
    {
        if self.node.is_element() {
            Some(*self)
        } else {
            None
        }
    }

    /// This handle, if its node is the document.
    pub fn as_document(&self) -> (r: Option<Handle<'a>>)
        ensures
            r == (if self.node.raw_dom_data is Document {
                Some(*self)
            } else {
                None
            }),
    {
        match self.node.raw_dom_data {
            NodeData::Document => Some(*self),
            _ => None,
        }
    }

    /// The parent, if it is an element. This is also the parent that a
    /// traversal goes up to: nothing re-routes it.
    pub fn parent_element(&self) -> (r: Option<Handle<'a>>)
        requires
            self.wf(),
        ensures
            self.points_to_opt(
                r,
                if self.node.parent is Some && is_element_node(self.nodes()[self.node.parent->0]) {
                    self.node.parent
                } else {
                    None
                },
            ),
    {
        match self.parent_node() {
            Some(p) => p.as_element(),
            None => None,
        }
    }

    /// Same as [`Handle::parent_element`].
    pub fn traversal_parent(&self) -> (r: Option<Handle<'a>>)
        requires
            self.wf(),
        ensures
            self.points_to_opt(
                r,
                if self.node.parent is Some && is_element_node(self.nodes()[self.node.parent->0]) {
                    self.node.parent
                } else {
                    None
                },
            ),
    {
        self.parent_element()
    }

    /// The nearest sibling before this node that is an element. Text and
    /// comment nodes in between are skipped.
    #[verifier::loop_isolation(false)]
    pub fn prev_sibling_element(&self) -> (r: Option<Handle<'a>>)
        requires
            self.wf(),
        ensures
            self.picks(r, |c: Option<usize>| is_prev_sibling_element(self.nodes(), self.node.id, c)),
    {
        let i = match self.child_index() {
            None => {
                return None;
            },
            Some(i) => i,
        };
        let p = match self.node.parent {
            None => {
                return None;
            },
            Some(p) => p,
        };
        assert(up(self.nodes()[self.node.id], Relation::Dom) is Some);
        let parent = self.get(p);
        let ghost m = self.nodes();
        let ghost list = kids(m[p], Relation::Dom);
        let mut at: usize = i;
        while at > 0
            invariant
                at <= i,
                no_element_between(m, list, at as int, i as int),
            decreases at,
        {
            at -= 1;
            let c = parent.node.children[at];
            assert(c == kids(m[p], Relation::Dom)[at as int]);
            let h = self.get(c);
            if h.node.is_element() {
                assert(last_element_before(m, list, i as int, at as int));
                return Some(h);
            }
        }
        None
    }

    /// The nearest sibling after this node that is an element. Text and
    /// comment nodes in between are skipped.
    #[verifier::loop_isolation(false)]
    pub fn next_sibling_element(&self) -> (r: Option<Handle<'a>>)
        requires
            self.wf(),
        ensures
            self.picks(r, |c: Option<usize>| is_next_sibling_element(self.nodes(), self.node.id, c)),
    {
        let i = match self.child_index() {
            None => {
                return None;
            },
            Some(i) => i,
        };
        let p = match self.node.parent {
            None => {
                return None;
            },
            Some(p) => p,
        };
        assert(up(self.nodes()[self.node.id], Relation::Dom) is Some);
        let parent = self.get(p);
        let ghost m = self.nodes();
        let ghost list = kids(m[p], Relation::Dom);
        let n: usize = parent.node.children.len();
        let mut at: usize = i + 1;
        while at < n
            invariant
                i < at <= n,
                no_element_between(m, list, i + 1, at as int),
            decreases n - at,
        {
            let c = parent.node.children[at];
            assert(c == kids(m[p], Relation::Dom)[at as int]);
            let h = self.get(c);
            if h.node.is_element() {
                assert(first_element_from(m, list, i + 1, at as int));
                return Some(h);
            }
            at += 1;
        }
        None
    }

    /// The first child that is an element. Text and comment nodes before
    /// it are skipped.
    #[verifier::loop_isolation(false)]
    pub fn first_element_child(&self) -> (r: Option<Handle<'a>>)
        requires
            self.wf(),
        ensures
            self.picks(r, |c: Option<usize>| is_first_element_child(self.nodes(), self.node.id, c)),
    {
        let ghost m = self.nodes();
        let ghost list = kids(m[self.node.id], Relation::Dom);
        let n: usize = self.node.children.len();
        let mut at: usize = 0;
        while at < n
            invariant
                at <= n,
                no_element_between(m, list, 0, at as int),
            decreases n - at,
        {
            let c = self.node.children[at];
            assert(c == kids(m[self.node.id], Relation::Dom)[at as int]);
            let h = self.get(c);
            if h.node.is_element() {
                assert(first_element_from(m, list, 0, at as int));
                return Some(h);
            }
            at += 1;
        }
        None
    }

    /// Whether the node has no child at all in the document tree. A text
    /// or comment child counts, also one that holds only whitespace.
    pub fn is_empty(&self) -> (r: bool)
        ensures
            r == (self.node.children@.len() == 0),
    {
        self.node.children.len() == 0
    }

    /// Whether the node has a parent but no grandparent.
    pub fn is_root(&self) -> (r: bool)
        requires
            self.wf(),
        ensures
            r == (self.node.parent is Some && self.nodes()[self.node.parent->0].parent is None),
    {
        match self.parent_node() {
            None => false,
            Some(p) => p.node.parent.is_none(),
        }
    }

    /// Whether the node is an anonymous block, the one pseudo-element
    /// that the tree knows.
    pub fn is_pseudo_element(&self) -> (r: bool)
        ensures
            r == (self.node.raw_dom_data is AnonymousBlock),
    {
        match self.node.raw_dom_data {
            NodeData::AnonymousBlock(_) => true,
            _ => false,
        }
    }

    /// The key of the node, which identifies it to the style engine.
    pub fn opaque(&self) -> (r: usize)
        ensures
            r == self.node.id,
    {
        self.node.id
    }

    /// The key of the node.
    pub fn debug_id(&self) -> (r: usize)
        ensures
            r == self.node.id,
    {
        self.node.id
    }

    /// Whether two handles are on the same node.
    pub fn eq(&self, other: &Handle<'a>) -> (r: bool)
        ensures
            r == (self.node.id == other.node.id),
    {
        self.node.id == other.node.id
    }

    /// A handle on node 1, which by convention stands for the owner
    /// document.
    pub fn owner_doc(&self) -> (r: Handle<'a>)
        requires
            self.wf(),
            self.nodes().dom().contains(1),
        ensures
            self.points_to(r, 1),
    {
        self.get(1)
    }
}

} // verus!
