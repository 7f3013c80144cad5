//! Geometric queries over the layout tree: which box a point falls into,
//! and where a box stands in the document.
//!
//! Coordinates are whole layout units. A box's position is relative to its
//! layout parent; its scroll offset shifts its content.

use vstd::prelude::*;
use crate::handle::Handle;
use crate::node::Node;
use crate::node::Point;
use crate::tree::depth;
use crate::tree::height;
use crate::tree::kids;
use crate::tree::lemma_heights;
use crate::tree::tree_wf;
use crate::tree::up;
use crate::tree::Relation;

verus! {

/// The box that a point fell into, and the point in that box's own
/// coordinates.
#[derive(Clone, Copy, Debug, PartialEq, Eq, Structural)]
pub struct HitResult {
    pub node_id: usize,
    pub x: i64,
    pub y: i64,
}

/// A click to be sent to the document.
#[derive(Clone, Copy, Debug, PartialEq, Eq, Structural)]
pub struct ClickEvent {
    pub x: i64,
    pub y: i64,
    /// The modifier keys held, as the windowing layer encodes them.
    pub mods: u32,
}

/// A coordinate of the parent's space, seen from the box `n`.
pub open spec fn local_x(n: Node, x: int) -> int {
    x - n.final_layout.x + n.scroll_x
}

/// A coordinate of the parent's space, seen from the box `n`.
pub open spec fn local_y(n: Node, y: int) -> int {
    y - n.final_layout.y + n.scroll_y
}

/// The point, given in the box's own coordinates, lies in the box
/// extended by how far it is scrolled. The edges belong to the box.
pub open spec fn in_bounds(n: Node, lx: int, ly: int) -> bool {
    &&& 0 <= lx <= n.final_layout.width + n.scroll_x
    &&& 0 <= ly <= n.final_layout.height + n.scroll_y
}

/// What a hit test on the box `id` answers for the point `(x, y)` of its
/// parent's space: nothing outside the box; else the answer of the first
/// layout child, in list order, that is hit; else the box itself.
pub open spec fn hit_at(m: Map<usize, Node>, id: usize, x: int, y: int) -> Option<(usize, int, int)>
    decreases height(m, Relation::Layout, id), kids(m[id], Relation::Layout).len() + 1,
    when tree_wf(m) && m.dom().contains(id)
{
    let n = m[id];
    let lx = local_x(n, x);
    let ly = local_y(n, y);
    if !in_bounds(n, lx, ly) {
        None
    } else {
        match first_hit(m, id, 0, lx, ly) {
            Some(found) => Some(found),
            None => Some((id, lx, ly)),
        }
    }
}

/// The answer of the first layout child of `parent`, from place `from` on
/// in list order, that the point `(x, y)` hits.
pub open spec fn first_hit(m: Map<usize, Node>, parent: usize, from: int, x: int, y: int) -> Option<
    (usize, int, int),
>
    decreases height(m, Relation::Layout, parent), kids(m[parent], Relation::Layout).len() - from,
    when tree_wf(m) && m.dom().contains(parent) && 0 <= from
{
    let list = kids(m[parent], Relation::Layout);
    if from >= list.len() {
        None
    } else {
        proof {
            lemma_heights(m, Relation::Layout);
        }
        match hit_at(m, list[from], x, y) {
            Some(found) => Some(found),
            None => first_hit(m, parent, from + 1, x, y),
        }
    }
}

/// The value fits a coordinate.
pub open spec fn fits(v: int) -> bool {
    i64::MIN <= v <= i64::MAX
}

/// Where the point `(x, y)` of the box `id` stands in the document: the
/// point moved by the position of each box on the way up the layout tree,
/// less how far that box is scrolled. Nothing, where a coordinate leaves
/// the range of `i64` on the way.
pub open spec fn absolute_at(m: Map<usize, Node>, id: usize, x: int, y: int) -> Option<Point>
    decreases depth(m, Relation::Layout, id),
    when tree_wf(m) && m.dom().contains(id)
{
    let n = m[id];
    let nx = x + n.final_layout.x - n.scroll_x;
    let ny = y + n.final_layout.y - n.scroll_y;
    if !fits(nx) || !fits(ny) {
        None
    } else {
        match n.layout_parent {
            Some(p) => {
                proof {
                    lemma_heights(m, Relation::Layout);
                    assert(up(m[id], Relation::Layout) is Some);
                }
                absolute_at(m, p, nx, ny)
            },
            None => Some(Point { x: nx as i64, y: ny as i64 }),
        }
    }
}

impl<'a> Handle<'a> {
    /// `r` is the hit that `found` describes.
    pub open spec fn is_hit(r: Option<HitResult>, found: Option<(usize, int, int)>) -> bool {
        match found {
            Some((id, x, y)) => r == Some(HitResult { node_id: id, x: x as i64, y: y as i64 }) && fits(x)
                && fits(y),
            None => r is None,
        }
    }

    /// Tests the point `(x, y)`, given in the coordinates of the parent
    /// box, against this box and the boxes below it in the layout tree.
    ///
    /// Returns nothing if the point lies outside this box. Otherwise
    /// returns what the first layout child that is hit returns, and this
    /// box with the point in its own coordinates if no child is hit.
    /// Of children that overlap, the one listed first wins.
    #[verifier::loop_isolation(false)]
    pub fn hit(&self, x: i64, y: i64) -> (r: Option<HitResult>)
        requires
            self.wf(),
        ensures
            Self::is_hit(r, hit_at(self.nodes(), self.node.id, x as int, y as int)),
        decreases height(self.nodes(), Relation::Layout, self.node.id),
    {
        let n = self.node;
        let lx: i128 = x as i128 - n.final_layout.x as i128 + n.scroll_x as i128;
        let ly: i128 = y as i128 - n.final_layout.y as i128 + n.scroll_y as i128;
        let right: i128 = n.final_layout.width as i128 + n.scroll_x as i128;
        let bottom: i128 = n.final_layout.height as i128 + n.scroll_y as i128;
        if lx < 0 || lx > right || ly < 0 || ly > bottom {
            return None;
        }
        let px: i64 = lx as i64;
        let py: i64 = ly as i64;
        let ghost m = self.nodes();
        let ghost list = kids(m[n.id], Relation::Layout);
        let count: usize = n.layout_children.len();
        let mut i: usize = 0;
        while i < count
            invariant
                i <= count,
                first_hit(m, n.id, 0, lx as int, ly as int) == first_hit(
                    m,
                    n.id,
                    i as int,
                    lx as int,
                    ly as int,
                ),
            decreases count - i,
        {
            let c = n.layout_children[i];
            assert(c == kids(m[n.id], Relation::Layout)[i as int]);
            proof {
                lemma_heights(m, Relation::Layout);
            }
            let child = self.get(c);
            let below = child.hit(px, py);
            assert(first_hit(m, n.id, i as int, lx as int, ly as int) == (match hit_at(
                m,
                c,
                lx as int,
                ly as int,
            ) {
                Some(found) => Some(found),
                None => first_hit(m, n.id, i + 1, lx as int, ly as int),
            }));
            match below {
                Some(found) => {
                    return Some(found);
                },
                None => {},
            }
            i += 1;
        }
        assert(first_hit(m, n.id, count as int, lx as int, ly as int) is None);
        Some(HitResult { node_id: n.id, x: px, y: py })
    }

    /// The point `(x, y)` of this box in document coordinates: the point
    /// moved by the position of this box and of every box above it in the
    /// layout tree, less how far each of them is scrolled.
    ///
    /// Returns nothing where a coordinate leaves the range of `i64` on
    /// the way up.
    pub fn absolute_position(&self, x: i64, y: i64) -> (r: Option<Point>)
        requires
            self.wf(),
        ensures
            r == absolute_at(self.nodes(), self.node.id, x as int, y as int),
        decreases depth(self.nodes(), Relation::Layout, self.node.id),
    {
        let n = self.node;
        let nx: i128 = x as i128 + n.final_layout.x as i128 - n.scroll_x as i128;
        let ny: i128 = y as i128 + n.final_layout.y as i128 - n.scroll_y as i128;
        if nx < i64::MIN as i128 || nx > i64::MAX as i128 || ny < i64::MIN as i128 || ny > i64::MAX as i128 {
            return None;
        }
        match n.layout_parent {
            Some(p) => {
                proof {
                    lemma_heights(self.nodes(), Relation::Layout);
                    assert(up(self.nodes()[n.id], Relation::Layout) is Some);
                }
                self.get(p).absolute_position(nx as i64, ny as i64)
            },
            None => Some(Point { x: nx as i64, y: ny as i64 }),
        }
    }

    /// A click in the middle of this box, in document coordinates, with
    /// the modifier keys `mods`. Nothing, where a coordinate leaves the
    /// range of `i64`.
    pub fn synthetic_click_event(&self, mods: u32) -> (r: Option<ClickEvent>)
        requires
            self.wf(),
        ensures
            r == match absolute_at(self.nodes(), self.node.id, 0, 0) {
                Some(p) => if fits(p.x + self.node.final_layout.width / 2) && fits(
                    p.y + self.node.final_layout.height / 2,
                ) {
                    Some(
                        ClickEvent {
                            x: (p.x + self.node.final_layout.width / 2) as i64,
                            y: (p.y + self.node.final_layout.height / 2) as i64,
                            mods,
                        },
                    )
                } else {
                    None
                },
                None => None,
            },
    {
        let p = match self.absolute_position(0, 0) {
            Some(p) => p,
            None => {
                return None;
            },
        };
        let half_w: i64 = (self.node.final_layout.width / 2) as i64;
        let half_h: i64 = (self.node.final_layout.height / 2) as i64;
        match (p.x.checked_add(half_w), p.y.checked_add(half_h)) {
            (Some(x), Some(y)) => Some(ClickEvent { x, y, mods }),
            _ => None,
        }
    }
}

/// A point outside a box, extended by how far the box is scrolled, hits
/// nothing: neither the box nor anything below it.
pub proof fn lemma_hit_outside(m: Map<usize, Node>, id: usize, x: int, y: int)
    requires
        tree_wf(m),
        m.dom().contains(id),
        !in_bounds(m[id], local_x(m[id], x), local_y(m[id], y)),
    ensures
        hit_at(m, id, x, y) is None,
{
}

/// A point inside a box without layout children hits that box, at the
/// point translated into the box's own coordinates.
pub proof fn lemma_hit_leaf(m: Map<usize, Node>, id: usize, x: int, y: int)
    requires
        tree_wf(m),
        m.dom().contains(id),
        kids(m[id], Relation::Layout).len() == 0,
        in_bounds(m[id], local_x(m[id], x), local_y(m[id], y)),
    ensures
        hit_at(m, id, x, y) == Some((id, local_x(m[id], x), local_y(m[id], y))),
{
    assert(first_hit(m, id, 0, local_x(m[id], x), local_y(m[id], y)) is None);
}

/// Whatever box a hit test reports is a node of the arena, and the point
/// it reports lies inside that box.
pub proof fn lemma_hit_in_bounds(m: Map<usize, Node>, id: usize, x: int, y: int)
    requires
        tree_wf(m),
        m.dom().contains(id),
    ensures
        match hit_at(m, id, x, y) {
            Some((k, a, b)) => m.dom().contains(k) && in_bounds(m[k], a, b),
            None => true,
        },
    decreases height(m, Relation::Layout, id), kids(m[id], Relation::Layout).len() + 1,
{
    let n = m[id];
    let lx = local_x(n, x);
    let ly = local_y(n, y);
    if in_bounds(n, lx, ly) {
        lemma_first_hit_in_bounds(m, id, 0, lx, ly);
    }
}

/// The same as [`lemma_hit_in_bounds`], for the children of `parent` from
/// place `from` on.
pub proof fn lemma_first_hit_in_bounds(m: Map<usize, Node>, parent: usize, from: int, x: int, y: int)
    requires
        tree_wf(m),
        m.dom().contains(parent),
        0 <= from,
    ensures
        match first_hit(m, parent, from, x, y) {
            Some((k, a, b)) => m.dom().contains(k) && in_bounds(m[k], a, b),
            None => true,
        },
    decreases height(m, Relation::Layout, parent), kids(m[parent], Relation::Layout).len() - from,
{
    let list = kids(m[parent], Relation::Layout);
    if from < list.len() {
        lemma_heights(m, Relation::Layout);
        let c = kids(m[parent], Relation::Layout)[from];
        assert(m.dom().contains(c));
        lemma_hit_in_bounds(m, c, x, y);
        lemma_first_hit_in_bounds(m, parent, from + 1, x, y);
    }
}

/// Children that the point misses are passed over: the search from place
/// `from` gives what the search from place `to` gives, if the point hits
/// none of the children in between.
pub proof fn lemma_first_hit_skips(m: Map<usize, Node>, parent: usize, from: int, to: int, x: int, y: int)
    requires
        tree_wf(m),
        m.dom().contains(parent),
        0 <= from <= to <= kids(m[parent], Relation::Layout).len(),
        forall|j: int|
            from <= j < to ==> hit_at(m, #[trigger] kids(m[parent], Relation::Layout)[j], x, y) is None,
    ensures
        first_hit(m, parent, from, x, y) == first_hit(m, parent, to, x, y),
    decreases to - from,
{
    if from < to {
        assert(hit_at(m, kids(m[parent], Relation::Layout)[from], x, y) is None);
        lemma_first_hit_skips(m, parent, from + 1, to, x, y);
    }
}

/// A point inside a box goes down to the first layout child that it
/// hits: where it misses every child before place `i` and hits the child
/// at place `i`, the answer for the box is the answer of that child.
pub proof fn lemma_hit_descends(m: Map<usize, Node>, id: usize, x: int, y: int, i: int)
    requires
        tree_wf(m),
        m.dom().contains(id),
        in_bounds(m[id], local_x(m[id], x), local_y(m[id], y)),
        0 <= i < kids(m[id], Relation::Layout).len(),
        forall|j: int|
            0 <= j < i ==> hit_at(
                m,
                #[trigger] kids(m[id], Relation::Layout)[j],
                local_x(m[id], x),
                local_y(m[id], y),
            ) is None,
        hit_at(m, kids(m[id], Relation::Layout)[i], local_x(m[id], x), local_y(m[id], y)) is Some,
    ensures
        hit_at(m, id, x, y) == hit_at(
            m,
            kids(m[id], Relation::Layout)[i],
            local_x(m[id], x),
            local_y(m[id], y),
        ),
{
    let lx = local_x(m[id], x);
    let ly = local_y(m[id], y);
    lemma_first_hit_skips(m, id, 0, i, lx, ly);
    assert(first_hit(m, id, i, lx, ly) == hit_at(m, kids(m[id], Relation::Layout)[i], lx, ly));
}

/// The document position of a box without layout parent is its own
/// position less its scroll offset.
pub proof fn lemma_absolute_top(m: Map<usize, Node>, id: usize, x: int, y: int)
    requires
        tree_wf(m),
        m.dom().contains(id),
        m[id].layout_parent is None,
        fits(x + m[id].final_layout.x - m[id].scroll_x),
        fits(y + m[id].final_layout.y - m[id].scroll_y),
    ensures
        absolute_at(m, id, x, y) == Some(
            Point {
                x: (x + m[id].final_layout.x - m[id].scroll_x) as i64,
                y: (y + m[id].final_layout.y - m[id].scroll_y) as i64,
            },
        ),
{
}

/// The document position composes translations and nothing else: moving
/// the point by `(dx, dy)` moves its document position by `(dx, dy)`.
pub proof fn lemma_absolute_is_translation(m: Map<usize, Node>, id: usize, x: int, y: int, dx: int, dy: int)
    requires
        tree_wf(m),
        m.dom().contains(id),
        absolute_at(m, id, x, y) is Some,
        absolute_at(m, id, x + dx, y + dy) is Some,
    ensures
        absolute_at(m, id, x + dx, y + dy)->0.x == absolute_at(m, id, x, y)->0.x + dx,
        absolute_at(m, id, x + dx, y + dy)->0.y == absolute_at(m, id, x, y)->0.y + dy,
    decreases depth(m, Relation::Layout, id),
{
    let n = m[id];
    let nx = x + n.final_layout.x - n.scroll_x;
    let ny = y + n.final_layout.y - n.scroll_y;
    match n.layout_parent {
        Some(p) => {
            lemma_heights(m, Relation::Layout);
            assert(up(m[id], Relation::Layout) is Some);
            lemma_absolute_is_translation(m, p, nx, ny, dx, dy);
        },
        None => {},
    }
}

} // verus!
