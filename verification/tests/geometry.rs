use blitz_dom::geometry::ClickEvent;
use blitz_dom::geometry::HitResult;
use blitz_dom::handle::Handle;
use blitz_dom::node::ElementData;
use blitz_dom::node::Layout;
use blitz_dom::node::Node;
use blitz_dom::node::NodeData;
use blitz_dom::node::Point;
use blitz_dom::tree::append_child;
use blitz_dom::tree::create_node;
use blitz_dom::tree::new_tree;
use blitz_dom::tree::Relation;
use blitz_dom::update::set_final_layout;
use blitz_dom::update::set_scroll_offset;
use slab::Slab;

fn boxed(tree: &mut Slab<Node>, parent: Option<usize>, x: i32, y: i32, width: u32, height: u32) -> usize {
    let id = create_node(
        tree,
        NodeData::Element(ElementData::new("div".to_string(), "".to_string(), Vec::new())),
    );
    assert!(set_final_layout(tree, id, Layout { x, y, width, height }));
    if let Some(p) = parent {
        assert_eq!(append_child(tree, Relation::Layout, p, id), Ok(()));
    }
    id
}

fn hit(tree: &Slab<Node>, id: usize, x: i64, y: i64) -> Option<(usize, i64, i64)> {
    Handle::new(tree, id).unwrap().hit(x, y).map(|h| (h.node_id, h.x, h.y))
}

#[test]
fn absolute_position_adds_up_the_chain() {
    let mut tree = new_tree();
    let top = boxed(&mut tree, None, 10, 10, 100, 100);
    let mid = boxed(&mut tree, Some(top), 5, 5, 50, 50);
    let deep = boxed(&mut tree, Some(mid), 2, 2, 10, 10);
    let at = |id, x, y| Handle::new(&tree, id).unwrap().absolute_position(x, y);
    assert_eq!(at(deep, 0, 0), Some(Point { x: 17, y: 17 }));
    assert_eq!(at(mid, 0, 0), Some(Point { x: 15, y: 15 }));
    assert_eq!(at(top, 0, 0), Some(Point { x: 10, y: 10 }));
    assert_eq!(at(deep, 3, -4), Some(Point { x: 20, y: 13 }));
}

#[test]
fn absolute_position_takes_scrolling_off() {
    let mut tree = new_tree();
    let top = boxed(&mut tree, None, 10, 10, 100, 100);
    let mid = boxed(&mut tree, Some(top), 5, 5, 50, 50);
    assert!(set_scroll_offset(&mut tree, top, 0, 30));
    assert!(set_scroll_offset(&mut tree, mid, 4, 0));
    let at = |id| Handle::new(&tree, id).unwrap().absolute_position(0, 0);
    assert_eq!(at(mid), Some(Point { x: 11, y: -15 }));
    assert_eq!(at(top), Some(Point { x: 10, y: -20 }));
}

#[test]
fn absolute_position_gives_up_where_a_coordinate_overflows() {
    let mut tree = new_tree();
    let top = boxed(&mut tree, None, 10, -10, 100, 100);
    let h = Handle::new(&tree, top).unwrap();
    assert_eq!(h.absolute_position(i64::MAX - 10, 0), Some(Point { x: i64::MAX, y: -10 }));
    assert_eq!(h.absolute_position(i64::MAX - 9, 0), None);
    assert_eq!(h.absolute_position(0, i64::MIN + 10), Some(Point { x: 10, y: i64::MIN }));
    assert_eq!(h.absolute_position(0, i64::MIN + 9), None);
}

#[test]
fn hit_outside_the_box_is_nothing() {
    let mut tree = new_tree();
    let b = boxed(&mut tree, None, 10, 20, 100, 50);
    assert_eq!(hit(&tree, b, 9, 30), None);
    assert_eq!(hit(&tree, b, 111, 30), None);
    assert_eq!(hit(&tree, b, 50, 19), None);
    assert_eq!(hit(&tree, b, 50, 71), None);
    assert_eq!(hit(&tree, b, i64::MIN, i64::MIN), None);
    assert_eq!(hit(&tree, b, i64::MAX, i64::MAX), None);
}

#[test]
fn hit_inside_a_leaf_is_that_leaf_in_its_own_coordinates() {
    let mut tree = new_tree();
    let b = boxed(&mut tree, None, 10, 20, 100, 50);
    assert_eq!(hit(&tree, b, 10, 20), Some((b, 0, 0)));
    assert_eq!(hit(&tree, b, 110, 70), Some((b, 100, 50)));
    assert_eq!(hit(&tree, b, 42, 33), Some((b, 32, 13)));
    assert_eq!(
        Handle::new(&tree, b).unwrap().hit(42, 33),
        Some(HitResult { node_id: b, x: 32, y: 13 })
    );
}

#[test]
fn hit_goes_down_to_the_child_that_holds_the_point() {
    let mut tree = new_tree();
    let outer = boxed(&mut tree, None, 0, 0, 200, 200);
    let left = boxed(&mut tree, Some(outer), 0, 0, 100, 200);
    let right = boxed(&mut tree, Some(outer), 100, 0, 100, 200);
    let inner = boxed(&mut tree, Some(right), 10, 10, 20, 20);
    assert_eq!(hit(&tree, outer, 50, 50), Some((left, 50, 50)));
    assert_eq!(hit(&tree, outer, 150, 50), Some((right, 50, 50)));
    assert_eq!(hit(&tree, outer, 115, 15), Some((inner, 5, 5)));
    // On the shared edge both children hold the point: the first one listed wins.
    assert_eq!(hit(&tree, outer, 100, 5), Some((left, 100, 5)));
    assert_eq!(hit(&tree, outer, 201, 5), None);
}

#[test]
fn hit_follows_the_layout_tree_not_the_document_tree() {
    let mut tree = new_tree();
    let outer = boxed(&mut tree, None, 0, 0, 100, 100);
    let dom_child = boxed(&mut tree, None, 0, 0, 100, 100);
    assert_eq!(append_child(&mut tree, Relation::Dom, outer, dom_child), Ok(()));
    assert_eq!(hit(&tree, outer, 5, 5), Some((outer, 5, 5)));
}

#[test]
fn hit_reaches_into_the_scrolled_region() {
    let mut tree = new_tree();
    let b = boxed(&mut tree, None, 0, 0, 100, 100);
    let far = boxed(&mut tree, Some(b), 0, 150, 100, 20);
    assert!(set_scroll_offset(&mut tree, b, 0, 60));
    // The point (5, 95) of the parent is (5, 155) of the scrolled content.
    assert_eq!(hit(&tree, b, 5, 95), Some((far, 5, 5)));
    assert_eq!(hit(&tree, b, 5, 100), Some((far, 5, 10)));
    assert_eq!(hit(&tree, b, 5, 80), Some((b, 5, 140)));
    assert_eq!(hit(&tree, b, 5, 101), None);
    assert_eq!(hit(&tree, b, 5, -61), None);
    assert_eq!(hit(&tree, b, 5, -60), Some((b, 5, 0)));
}

#[test]
fn synthetic_click_is_in_the_middle_of_the_box() {
    let mut tree = new_tree();
    let top = boxed(&mut tree, None, 10, 10, 100, 100);
    let mid = boxed(&mut tree, Some(top), 5, 5, 50, 31);
    let h = Handle::new(&tree, mid).unwrap();
    assert_eq!(h.synthetic_click_event(3), Some(ClickEvent { x: 40, y: 30, mods: 3 }));
}
