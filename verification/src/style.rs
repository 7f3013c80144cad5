//! The per-node state that the style engine reads and writes while it
//! restyles: the style slot, the snapshot marks and the selector flags.

use vstd::prelude::*;
use crate::arena::arena_get;
use crate::arena::arena_get_mut;
use crate::arena::arena_nodes;
use crate::engine::flags_for_parent;
use crate::engine::flags_for_self;
use crate::engine::flags_search_direction;
use crate::engine::parent_flags;
use crate::engine::search_direction_flags;
use crate::engine::self_flags;
use crate::handle::Handle;
use crate::node::ElementState;
use crate::node::Node;
use crate::node::StyleData;
use crate::tree::lemma_update_keeps_wf;
use crate::tree::tree_wf;
use slab::Slab;

verus! {

impl Default for StyleData {
    /// The data of an element that has not been styled yet.
    fn default() -> (r: StyleData)
        ensures
            r.display is None,
    {
        StyleData { display: None }
    }
}

/// The style data that a slot holds after it was ensured: what it held
/// before, or fresh data if it was empty.
pub open spec fn ensured(slot: Option<StyleData>) -> StyleData {
    match slot {
        Some(data) => data,
        None => StyleData { display: None },
    }
}

/// The selector flags of a node after `flags` were applied to one of its
/// children: the flags it had, and those of `flags` that concern a
/// parent.
pub open spec fn flags_after_child(own: usize, flags: usize) -> usize {
    own | parent_flags(flags)
}

/// The selector flags of a node after `flags` were applied to it: the
/// flags it had, and those of `flags` that concern the element itself.
pub open spec fn flags_after_self(own: usize, flags: usize) -> usize {
    own | self_flags(flags)
}

impl Node {
    /// Makes sure the style slot is filled, with fresh data if it was
    /// empty, and gives exclusive access to what it holds. Data that was
    /// there stays as it was.
    pub fn ensure_data(&mut self) -> (r: &mut StyleData)
        ensures
            *r == ensured(old(self).style_data),
            *final(self) == (Node { style_data: Some(*final(r)), ..*old(self) }),
    {
        self.style_data.get_or_insert(StyleData { display: None })
    }

    /// Empties the style slot.
    pub fn clear_data(&mut self)
        ensures
            *final(self) == (Node { style_data: None, ..*old(self) }),
    {
        self.style_data = None;
    }

    /// Whether the style slot is filled.
    pub fn has_data(&self) -> (r: bool)
        ensures
            r == self.style_data is Some,
    {
        self.style_data.is_some()
    }

    /// Shared access to the style data, if the slot is filled.
    pub fn borrow_data(&self) -> (r: Option<&StyleData>)
        ensures
            r == match self.style_data {
                Some(data) => Some(&data),
                None => None,
            },
    {
        self.style_data.as_ref()
    }

    /// Exclusive access to the style data, if the slot is filled. An empty
    /// slot stays empty.
    pub fn mutate_data(&mut self) -> (r: Option<&mut StyleData>)
        ensures
            match old(self).style_data {
                Some(data) => r is Some && *r->0 == data && *final(self) == (Node {
                    style_data: Some(*final(r->0)),
                    ..*old(self)
                }),
                None => r is None && *final(self) == *old(self),
            },
    {
        self.style_data.as_mut()
    }

    /// Marks the snapshot as handled. Doing so again changes nothing.
    pub fn set_handled_snapshot(&mut self)
        ensures
            *final(self) == (Node { snapshot_handled: true, ..*old(self) }),
    {
        self.snapshot_handled = true;
    }

    /// Clears the mark that says descendants need restyling. The tree
    /// keeps no such mark, so nothing changes.
    pub fn unset_dirty_descendants(&mut self)
        ensures
            *final(self) == *old(self),
    {
    }

    /// Sets the mark that says descendants need restyling. The tree keeps
    /// no such mark, so nothing changes.
    pub fn set_dirty_descendants(&mut self)
        ensures
            *final(self) == *old(self),
    {
    }
}

impl<'a> Handle<'a> {
    /// Whether descendants need restyling: always, since the tree keeps
    /// no mark that could say otherwise.
    pub fn has_dirty_descendants(&self) -> (r: bool)
        ensures
            r,
    {
        true
    }

    /// Whether a snapshot of the element was taken before it changed.
    pub fn has_snapshot(&self) -> (r: bool)
        ensures
            r == self.node.has_snapshot,
    {
        self.node.has_snapshot
    }

    /// Whether the snapshot has been handled.
    pub fn handled_snapshot(&self) -> (r: bool)
        ensures
            r == self.node.snapshot_handled,
    {
        self.node.snapshot_handled
    }

    /// Whether the style slot is filled.
    pub fn has_data(&self) -> (r: bool)
        ensures
            r == self.node.style_data is Some,
    {
        self.node.has_data()
    }

    /// Shared access to the style data, if the slot is filled.
    pub fn borrow_data(&self) -> (r: Option<&'a StyleData>)
        ensures
            r == match self.node.style_data {
                Some(data) => Some(&data),
                None => None,
            },
    {
        self.node.style_data.as_ref()
    }

    /// The interaction state of the element.
    pub fn state(&self) -> (r: ElementState)
        ensures
            r == self.node.element_state,
    {
        self.node.element_state
    }

    /// Whether every flag of `flags` is set on the node.
    pub fn has_selector_flags(&self, flags: usize) -> (r: bool)
        ensures
            r == (self.node.selector_flags & flags == flags),
    {
        self.node.selector_flags & flags == flags
    }

    /// The flags of the node that tell in which direction a relative
    /// selector search reached it.
    pub fn relative_selector_search_direction(&self) -> (r: usize)
        ensures
            r == search_direction_flags(self.node.selector_flags),
    {
        flags_search_direction(self.node.selector_flags)
    }
}

/// The selector flags of an element after `flags` were applied to it,
/// given the flags `own` that it had.
pub fn merged_self_flags(own: usize, flags: usize) -> (r: usize)
    ensures
        r == flags_after_self(own, flags),
{
    own | flags_for_self(flags)
}

/// The selector flags of an element after `flags` were applied to one of
/// its children, given the flags `own` that it had.
pub fn merged_parent_flags(own: usize, flags: usize) -> (r: usize)
    ensures
        r == flags_after_child(own, flags),
{
    own | flags_for_parent(flags)
}

/// Records on the tree what matching found out about the element `id`:
/// the flags of `flags` that concern the element itself are added to its
/// selector flags, and those that concern a parent are added to the
/// selector flags of its parent, if it has one. Flags are only ever
/// added.
pub fn apply_selector_flags(tree: &mut Slab<Node>, id: usize, flags: usize)
    requires
        tree_wf(arena_nodes(*old(tree))),
        arena_nodes(*old(tree)).dom().contains(id),
    ensures
        tree_wf(arena_nodes(*final(tree))),
        arena_nodes(*final(tree)).dom() == arena_nodes(*old(tree)).dom(),
        forall|k: usize|
            arena_nodes(*old(tree)).dom().contains(k) ==> #[trigger] arena_nodes(*final(tree))[k] == (Node {
                selector_flags: if k == id {
                    flags_after_self(arena_nodes(*old(tree))[k].selector_flags, flags)
                } else if arena_nodes(*old(tree))[id].parent == Some(k) {
                    flags_after_child(arena_nodes(*old(tree))[k].selector_flags, flags)
                } else {
                    arena_nodes(*old(tree))[k].selector_flags
                },
                ..arena_nodes(*old(tree))[k]
            }),
{
    let ghost m0 = arena_nodes(*tree);
    let parent = match arena_get(tree, id) {
        Some(n) => n.parent,
        None => None,
    };
    match arena_get_mut(tree, id) {
        Some(n) => {
            n.selector_flags = merged_self_flags(n.selector_flags, flags);
        },
        None => {},
    }
    let ghost m1 = arena_nodes(*tree);
    proof {
        assert(m1 =~= m0.insert(id, m1[id]));
        lemma_update_keeps_wf(m0, id, m1[id]);
        assert(crate::tree::up(m0[id], crate::tree::Relation::Dom) == parent);
    }
    match parent {
        Some(p) => {
            match arena_get_mut(tree, p) {
                Some(n) => {
                    n.selector_flags = merged_parent_flags(n.selector_flags, flags);
                },
                None => {},
            }
            proof {
                let m = arena_nodes(*tree);
                assert(p != id) by {
                    crate::tree::lemma_heights(m0, crate::tree::Relation::Dom);
                }
                lemma_update_keeps_wf(m1, p, m[p]);
            }
        },
        None => {},
    }
    proof {
        let m = arena_nodes(*tree);
        assert(m.dom() =~= m0.dom());
    }
}

/// Fills the style slot of the node `id`, with fresh data if it was
/// empty, and gives exclusive access to what it holds. Data that was
/// there stays as it was, and so does every other node.
pub fn ensure_data(tree: &mut Slab<Node>, id: usize) -> (r: Option<&mut StyleData>)
    ensures
        match r {
            Some(data) => {
                &&& arena_nodes(*old(tree)).dom().contains(id)
                &&& *data == ensured(arena_nodes(*old(tree))[id].style_data)
                &&& arena_nodes(*final(tree)) == arena_nodes(*old(tree)).insert(
                    id,
                    Node { style_data: Some(*final(data)), ..arena_nodes(*old(tree))[id] },
                )
            },
            None => !arena_nodes(*old(tree)).dom().contains(id) && *final(tree) == *old(tree),
        },
{
    match arena_get_mut(tree, id) {
        Some(n) => Some(n.ensure_data()),
        None => None,
    }
}

} // verus!
