//! The restyle traversal: one pass over the elements from the top down,
//! with the style engine doing the work at each element.

use vstd::prelude::*;
use crate::arena::arena_get;
use crate::arena::arena_get_mut;
use crate::arena::arena_nodes;
use crate::handle::Handle;
use crate::node::Node;
use crate::style::ensured;
use crate::tree::kids;
use crate::tree::lemma_update_keeps_wf;
use crate::tree::tree_wf;
use crate::tree::Relation;
use slab::Slab;

verus! {

/// A painter that a style sheet can refer to by name.
#[derive(Clone, Copy, Debug)]
pub struct RegisteredPainter {
    pub id: usize,
}

/// The registry of custom painters. None can be registered, so none is
/// ever found.
#[derive(Clone, Copy, Debug)]
pub struct RegisteredPaintersImpl;

impl RegisteredPaintersImpl {
    /// The painter registered under `name`: there never is one.
    pub fn get(&self, name: &str) -> (r: Option<RegisteredPainter>)
        ensures
            r is None,
    {
        None
    }
}

/// Walks the children of a node in document order, one at a time.
#[derive(Clone, Copy, Debug)]
pub struct Traverser<'a> {
    pub parent: Handle<'a>,
    pub child_index: usize,
}

impl<'a> Traverser<'a> {
    /// The next child, or nothing once every child has been handed out.
    pub fn next(&mut self) -> (r: Option<Handle<'a>>)
        requires
            old(self).parent.wf(),
        ensures
            final(self).parent == old(self).parent,
            if old(self).child_index < old(self).parent.node.children@.len() {
                &&& r is Some
                &&& old(self).parent.points_to(
                    r->0,
                    old(self).parent.node.children@[old(self).child_index as int],
                )
                &&& final(self).child_index == old(self).child_index + 1
            } else {
                r is None && final(self).child_index == old(self).child_index
            },
    {
        if self.child_index < self.parent.node.children.len() {
            let c = self.parent.node.children[self.child_index];
            assert(c == kids(self.parent.nodes()[self.parent.node.id], Relation::Dom)[self.child_index as int]);
            let child = self.parent.get(c);
            self.child_index += 1;
            Some(child)
        } else {
            None
        }
    }
}

impl<'a> Handle<'a> {
    /// The children that a traversal visits: those of the document tree,
    /// from the first.
    pub fn traversal_children(&self) -> (r: Traverser<'a>)
        ensures
            r.parent == *self,
            r.child_index == 0,
    {
        Traverser { parent: *self, child_index: 0 }
    }
}

/// What the traversal does at a node before it goes on to the children.
#[derive(Clone, Copy, Debug, PartialEq, Eq, Structural)]
pub enum PreorderStep {
    /// A text node: it gets no style and nothing is done.
    Skip,
    /// An element: its style slot is filled and the engine is to recompute
    /// its style now.
    Recalc,
}

/// The restyle traversal. It visits each element once, parents before
/// children, and has nothing to do on the way back up.
///
/// It carries the context that the style engine shares between the steps
/// of one traversal. The traversal keeps it and hands it back on
/// request, and never looks into it.
pub struct RecalcStyle<C> {
    pub context: C,
}

/// What kind of node the traversal can visit, and what it does there:
/// a text node is skipped, an element is restyled, and no other kind of
/// node is ever visited.
pub open spec fn step_of(is_text_node: bool, is_element: bool) -> Option<PreorderStep> {
    if is_text_node {
        Some(PreorderStep::Skip)
    } else if is_element {
        Some(PreorderStep::Recalc)
    } else {
        None
    }
}

impl<C> RecalcStyle<C> {
    /// A traversal that carries `context`.
    pub fn new(context: C) -> (r: RecalcStyle<C>)
        ensures
            r.context == context,
    {
        RecalcStyle { context }
    }

    /// The context that the traversal was made with.
    pub fn shared_context(&self) -> (r: &C)
        ensures
            *r == self.context,
    {
        &self.context
    }

    /// What the traversal does at a node of the given kind before it goes
    /// on to the children; nothing for a node that it cannot visit.
    pub fn preorder_step(is_text_node: bool, is_element: bool) -> (r: Option<PreorderStep>)
        ensures
            r == step_of(is_text_node, is_element),
    {
        if is_text_node {
            Some(PreorderStep::Skip)
        } else if is_element {
            Some(PreorderStep::Recalc)
        } else {
            None
        }
    }

    /// Whether nodes are to be visited a second time on the way back up:
    /// never.
    pub fn needs_postorder_traversal() -> (r: bool)
        ensures
            !r,
    {
        false
    }

    /// Visits the node `id`, which is a text node or an element, before
    /// its children.
    ///
    /// A text node is skipped and nothing changes. For an element the
    /// style slot is filled if it was empty, with data that was there
    /// left as it was, and the engine is told to recompute the element's
    /// style.
    pub fn process_preorder(&self, tree: &mut Slab<Node>, id: usize) -> (step: PreorderStep)
        requires
            tree_wf(arena_nodes(*old(tree))),
            arena_nodes(*old(tree)).dom().contains(id),
            arena_nodes(*old(tree))[id].raw_dom_data is Text || arena_nodes(*old(tree))[id].raw_dom_data
                is Element,
        ensures
            tree_wf(arena_nodes(*final(tree))),
            Some(step) == step_of(
                arena_nodes(*old(tree))[id].raw_dom_data is Text,
                arena_nodes(*old(tree))[id].raw_dom_data is Element,
            ),
            arena_nodes(*final(tree)) == (if arena_nodes(*old(tree))[id].raw_dom_data is Text {
                arena_nodes(*old(tree))
            } else {
                arena_nodes(*old(tree)).insert(
                    id,
                    Node {
                        style_data: Some(ensured(arena_nodes(*old(tree))[id].style_data)),
                        ..arena_nodes(*old(tree))[id]
                    },
                )
            }),
    {
        let step = match arena_get(tree, id) {
            Some(n) => Self::preorder_step(n.is_text_node(), n.is_element()),
            None => None,
        };
        match step {
            Some(PreorderStep::Recalc) => {},
            _ => {
                return PreorderStep::Skip;
            },
        }
        let ghost m0 = arena_nodes(*tree);
        match arena_get_mut(tree, id) {
            Some(n) => {
                let data = n.ensure_data();
                n.unset_dirty_descendants();
            },
            None => {},
        }
        proof {
            lemma_update_keeps_wf(m0, id, arena_nodes(*tree)[id]);
        }
        PreorderStep::Recalc
    }
}

} // verus!
