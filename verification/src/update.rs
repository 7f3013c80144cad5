//! Changes to what one node holds. None of them touches a link, so the
//! document stays well-formed.

use vstd::prelude::*;
use crate::arena::arena_get_mut;
use crate::arena::arena_nodes;
use crate::node::Display;
use crate::node::ElementState;
use crate::node::Layout;
use crate::node::Node;
use crate::tree::lemma_update_keeps_wf;
use crate::tree::tree_wf;
use slab::Slab;

verus! {

/// `m` is `m0` with the node `id` replaced by `n`, if `m0` has a node
/// `id`, and `m0` itself otherwise.
pub open spec fn replaced(m0: Map<usize, Node>, m: Map<usize, Node>, id: usize, n: Node) -> bool {
    if m0.dom().contains(id) {
        m == m0.insert(id, n)
    } else {
        m == m0
    }
}

/// Records where layout put the box of the node `id`. Returns whether
/// there is such a node.
pub fn set_final_layout(tree: &mut Slab<Node>, id: usize, layout: Layout) -> (found: bool)
    requires
        tree_wf(arena_nodes(*old(tree))),
    ensures
        tree_wf(arena_nodes(*final(tree))),
        found == arena_nodes(*old(tree)).dom().contains(id),
        replaced(
            arena_nodes(*old(tree)),
            arena_nodes(*final(tree)),
            id,
            Node { final_layout: layout, ..arena_nodes(*old(tree))[id] },
        ),
{
    let ghost m0 = arena_nodes(*tree);
    match arena_get_mut(tree, id) {
        Some(n) => {
            n.final_layout = layout;
        },
        None => {
            return false;
        },
    }
    proof {
        lemma_update_keeps_wf(m0, id, arena_nodes(*tree)[id]);
    }
    true
}

/// Records how far the content of the node `id` is scrolled. Returns
/// whether there is such a node.
pub fn set_scroll_offset(tree: &mut Slab<Node>, id: usize, x: i32, y: i32) -> (found: bool)
    requires
        tree_wf(arena_nodes(*old(tree))),
    ensures
        tree_wf(arena_nodes(*final(tree))),
        found == arena_nodes(*old(tree)).dom().contains(id),
        replaced(
            arena_nodes(*old(tree)),
            arena_nodes(*final(tree)),
            id,
            Node { scroll_x: x, scroll_y: y, ..arena_nodes(*old(tree))[id] },
        ),
{
    let ghost m0 = arena_nodes(*tree);
    match arena_get_mut(tree, id) {
        Some(n) => {
            n.scroll_x = x;
            n.scroll_y = y;
        },
        None => {
            return false;
        },
    }
    proof {
        lemma_update_keeps_wf(m0, id, arena_nodes(*tree)[id]);
    }
    true
}

/// Sets the interaction state of the node `id`. Returns whether there is
/// such a node.
pub fn set_element_state(tree: &mut Slab<Node>, id: usize, state: ElementState) -> (found: bool)
    requires
        tree_wf(arena_nodes(*old(tree))),
    ensures
        tree_wf(arena_nodes(*final(tree))),
        found == arena_nodes(*old(tree)).dom().contains(id),
        replaced(
            arena_nodes(*old(tree)),
            arena_nodes(*final(tree)),
            id,
            Node { element_state: state, ..arena_nodes(*old(tree))[id] },
        ),
{
    let ghost m0 = arena_nodes(*tree);
    match arena_get_mut(tree, id) {
        Some(n) => {
            n.element_state = state;
        },
        None => {
            return false;
        },
    }
    proof {
        lemma_update_keeps_wf(m0, id, arena_nodes(*tree)[id]);
    }
    true
}

/// Notes that a snapshot of the node `id` was taken before it changed,
/// and that it has not been handled yet. Returns whether there is such a
/// node.
pub fn take_snapshot(tree: &mut Slab<Node>, id: usize) -> (found: bool)
    requires
        tree_wf(arena_nodes(*old(tree))),
    ensures
        tree_wf(arena_nodes(*final(tree))),
        found == arena_nodes(*old(tree)).dom().contains(id),
        replaced(
            arena_nodes(*old(tree)),
            arena_nodes(*final(tree)),
            id,
            Node { has_snapshot: true, snapshot_handled: false, ..arena_nodes(*old(tree))[id] },
        ),
{
    let ghost m0 = arena_nodes(*tree);
    match arena_get_mut(tree, id) {
        Some(n) => {
            n.has_snapshot = true;
            n.snapshot_handled = false;
        },
        None => {
            return false;
        },
    }
    proof {
        lemma_update_keeps_wf(m0, id, arena_nodes(*tree)[id]);
    }
    true
}

/// Marks the snapshot of the node `id` as handled. Doing so again
/// changes nothing. Returns whether there is such a node.
pub fn set_handled_snapshot(tree: &mut Slab<Node>, id: usize) -> (found: bool)
    requires
        tree_wf(arena_nodes(*old(tree))),
    ensures
        tree_wf(arena_nodes(*final(tree))),
        found == arena_nodes(*old(tree)).dom().contains(id),
        replaced(
            arena_nodes(*old(tree)),
            arena_nodes(*final(tree)),
            id,
            Node { snapshot_handled: true, ..arena_nodes(*old(tree))[id] },
        ),
{
    let ghost m0 = arena_nodes(*tree);
    match arena_get_mut(tree, id) {
        Some(n) => {
            n.set_handled_snapshot();
        },
        None => {
            return false;
        },
    }
    proof {
        lemma_update_keeps_wf(m0, id, arena_nodes(*tree)[id]);
    }
    true
}

/// Empties the style slot of the node `id`. Returns whether there is
/// such a node.
pub fn clear_data(tree: &mut Slab<Node>, id: usize) -> (found: bool)
    requires
        tree_wf(arena_nodes(*old(tree))),
    ensures
        tree_wf(arena_nodes(*final(tree))),
        found == arena_nodes(*old(tree)).dom().contains(id),
        replaced(
            arena_nodes(*old(tree)),
            arena_nodes(*final(tree)),
            id,
            Node { style_data: None, ..arena_nodes(*old(tree))[id] },
        ),
{
    let ghost m0 = arena_nodes(*tree);
    match arena_get_mut(tree, id) {
        Some(n) => {
            n.clear_data();
        },
        None => {
            return false;
        },
    }
    proof {
        lemma_update_keeps_wf(m0, id, arena_nodes(*tree)[id]);
    }
    true
}

/// Stores the display that the cascade computed for the node `id`, in its
/// style slot, which is filled first if it was empty. Returns whether
/// there is such a node.
pub fn set_computed_display(tree: &mut Slab<Node>, id: usize, display: Display) -> (found: bool)
    requires
        tree_wf(arena_nodes(*old(tree))),
    ensures
        tree_wf(arena_nodes(*final(tree))),
        found == arena_nodes(*old(tree)).dom().contains(id),
        replaced(
            arena_nodes(*old(tree)),
            arena_nodes(*final(tree)),
            id,
            Node {
                style_data: Some(crate::node::StyleData { display: Some(display) }),
                ..arena_nodes(*old(tree))[id]
            },
        ),
{
    let ghost m0 = arena_nodes(*tree);
    match arena_get_mut(tree, id) {
        Some(n) => {
            let data = n.ensure_data();
            data.display = Some(display);
        },
        None => {
            return false;
        },
    }
    proof {
        lemma_update_keeps_wf(m0, id, arena_nodes(*tree)[id]);
    }
    true
}

} // verus!
