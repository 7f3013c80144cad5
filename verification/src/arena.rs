//! The arena of nodes: a `slab::Slab` with the contract the tree code
//! relies on.

use vstd::prelude::*;
use crate::node::Node;
use slab::Slab;

verus! {

/// `slab::Slab`, taken as it is.
#[verifier::external_type_specification]
#[verifier::external_body]
#[verifier::reject_recursive_types(T)]
pub struct ExSlab<T>(Slab<T>);

/// The nodes that an arena holds, by key.
pub uninterp spec fn arena_nodes(tree: Slab<Node>) -> Map<usize, Node>;

/// The key that the next insertion into an arena will use.
pub uninterp spec fn arena_vacant_key(tree: Slab<Node>) -> usize;

/// The contents of an arena that holds nothing.
pub open spec fn no_nodes() -> Map<usize, Node> {
    Map::empty()
}

/// `Slab::new`: an arena that holds nothing; its first key will be 0.
#[verifier::external_body]
pub(crate) fn arena_new() -> (r: Slab<Node>)
    ensures
        arena_nodes(r) == no_nodes(),
        arena_vacant_key(r) == 0,
{
    Slab::new()
}

/// `Slab::get`: the node stored under `key`, if there is one.
#[verifier::external_body]
pub(crate) fn arena_get(tree: &Slab<Node>, key: usize) -> (r: Option<&Node>)
    ensures
        r == (if arena_nodes(*tree).dom().contains(key) {
            Some(&arena_nodes(*tree)[key])
        } else {
            None
        }),
{
    tree.get(key)
}

/// `Slab::get_mut`: exclusive access to the node stored under `key`, if
/// there is one. What the caller writes through the reference is what the
/// arena then holds under `key`; nothing else changes.
#[verifier::external_body]
pub(crate) fn arena_get_mut(tree: &mut Slab<Node>, key: usize) -> (r: Option<&mut Node>)
    ensures
        match r {
            Some(n) => {
                &&& arena_nodes(*old(tree)).dom().contains(key)
                &&& *n == arena_nodes(*old(tree))[key]
                &&& arena_nodes(*final(tree)) == arena_nodes(*old(tree)).insert(key, *final(n))
                &&& arena_vacant_key(*final(tree)) == arena_vacant_key(*old(tree))
            },
            None => {
                &&& !arena_nodes(*old(tree)).dom().contains(key)
                &&& *final(tree) == *old(tree)
            },
        },
{
    tree.get_mut(key)
}

/// `Slab::vacant_key`: the key that the next insertion will use. No node is
/// stored under it.
#[verifier::external_body]
pub(crate) fn arena_next_key(tree: &Slab<Node>) -> (key: usize)
    ensures
        key == arena_vacant_key(*tree),
        !arena_nodes(*tree).dom().contains(key),
{
    tree.vacant_key()
}

/// `Slab::insert`: stores `node` under the vacant key and returns that key.
/// Like any allocation it gives up where memory runs out.
#[verifier::external_body]
pub(crate) fn arena_insert(tree: &mut Slab<Node>, node: Node) -> (key: usize)
    ensures
        key == arena_vacant_key(*old(tree)),
        arena_nodes(*final(tree)) == arena_nodes(*old(tree)).insert(key, node),
{
    tree.insert(node)
}

} // verus!
