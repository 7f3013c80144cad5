use blitz_dom::handle::Handle;
use blitz_dom::node::ElementData;
use blitz_dom::node::Node;
use blitz_dom::node::NodeData;
use blitz_dom::tree::append_child;
use blitz_dom::tree::create_node;
use blitz_dom::tree::new_tree;
use blitz_dom::tree::Relation;
use blitz_dom::tree::TreeError;
use slab::Slab;

fn element(tag: &str) -> NodeData {
    NodeData::Element(ElementData::new(tag.to_string(), "".to_string(), Vec::new()))
}

fn text(content: &str) -> NodeData {
    NodeData::Text { content: content.to_string() }
}

/// document > html > [ "  ", head, <!-- -->, body > [ "a", p > "b", "c" ], "\n" ]
fn sample() -> (Slab<Node>, [usize; 10]) {
    let mut tree = new_tree();
    let html = create_node(&mut tree, element("html"));
    let space = create_node(&mut tree, text("  "));
    let head = create_node(&mut tree, element("head"));
    let comment = create_node(&mut tree, NodeData::Comment);
    let body = create_node(&mut tree, element("body"));
    let a = create_node(&mut tree, text("a"));
    let p = create_node(&mut tree, element("p"));
    let b = create_node(&mut tree, text("b"));
    let c = create_node(&mut tree, text("c"));
    let tail = create_node(&mut tree, text("\n"));
    for (parent, child) in [
        (0, html),
        (html, space),
        (html, head),
        (html, comment),
        (html, body),
        (html, tail),
        (body, a),
        (body, p),
        (p, b),
        (body, c),
    ] {
        assert_eq!(append_child(&mut tree, Relation::Dom, parent, child), Ok(()));
    }
    (tree, [html, space, head, comment, body, a, p, b, c, tail])
}

fn id(h: Option<Handle>) -> Option<usize> {
    h.map(|h| h.node.id)
}

#[test]
fn keys_are_handed_out_in_order() {
    let (tree, ids) = sample();
    assert_eq!(ids, [1, 2, 3, 4, 5, 6, 7, 8, 9, 10]);
    assert!(Handle::new(&tree, 0).is_some());
    assert!(Handle::new(&tree, 11).is_none());
    let h = Handle::new(&tree, 0).unwrap();
    assert_eq!(h.get(7).node.id, 7);
    assert_eq!(h.owner_doc().node.id, 1);
}

#[test]
fn child_index_counts_every_kind_of_node() {
    let (tree, [html, space, head, comment, body, _, _, _, _, tail]) = sample();
    let at = |k| Handle::new(&tree, k).unwrap().child_index();
    assert_eq!(at(0), None);
    assert_eq!(at(html), Some(0));
    assert_eq!(at(space), Some(0));
    assert_eq!(at(head), Some(1));
    assert_eq!(at(comment), Some(2));
    assert_eq!(at(body), Some(3));
    assert_eq!(at(tail), Some(4));
}

#[test]
fn forward_and_backward_step_by_raw_position() {
    let (tree, [html, space, head, comment, body, _, _, _, _, tail]) = sample();
    let h = Handle::new(&tree, head).unwrap();
    assert_eq!(id(h.forward(0)), Some(head));
    assert_eq!(id(h.forward(1)), Some(comment));
    assert_eq!(id(h.forward(2)), Some(body));
    assert_eq!(id(h.forward(3)), Some(tail));
    assert_eq!(id(h.forward(4)), None);
    assert_eq!(id(h.forward(usize::MAX)), None);
    assert_eq!(id(h.backward(0)), Some(head));
    assert_eq!(id(h.backward(1)), Some(space));
    assert_eq!(id(h.backward(2)), None);
    assert_eq!(id(h.backward(usize::MAX)), None);
    assert_eq!(id(h.next_sibling()), Some(comment));
    assert_eq!(id(h.prev_sibling()), Some(space));
    let root = Handle::new(&tree, 0).unwrap();
    assert_eq!(id(root.forward(0)), None);
    assert_eq!(id(root.backward(0)), None);
    let only = Handle::new(&tree, html).unwrap();
    assert_eq!(id(only.next_sibling()), None);
    assert_eq!(id(only.prev_sibling()), None);
}

#[test]
fn sibling_elements_skip_text_and_comments() {
    let (tree, [html, space, head, comment, body, a, p, _, c, tail]) = sample();
    let h = |k| Handle::new(&tree, k).unwrap();
    assert_eq!(id(h(head).next_sibling_element()), Some(body));
    assert_eq!(id(h(body).prev_sibling_element()), Some(head));
    assert_eq!(id(h(head).prev_sibling_element()), None);
    assert_eq!(id(h(body).next_sibling_element()), None);
    assert_eq!(id(h(space).next_sibling_element()), Some(head));
    assert_eq!(id(h(comment).prev_sibling_element()), Some(head));
    assert_eq!(id(h(tail).prev_sibling_element()), Some(body));
    assert_eq!(id(h(a).next_sibling_element()), Some(p));
    assert_eq!(id(h(c).prev_sibling_element()), Some(p));
    assert_eq!(id(h(0).next_sibling_element()), None);
    assert_eq!(id(h(html).first_element_child()), Some(head));
    assert_eq!(id(h(body).first_element_child()), Some(p));
    assert_eq!(id(h(p).first_element_child()), None);
    assert_eq!(id(h(html).first_child()), Some(space));
    assert_eq!(id(h(html).last_child()), Some(tail));
    assert_eq!(id(h(head).first_child()), None);
    assert_eq!(id(h(head).last_child()), None);
}

#[test]
fn parents_and_roots() {
    let (tree, [html, _, head, _, body, a, p, b, _, _]) = sample();
    let h = |k| Handle::new(&tree, k).unwrap();
    assert_eq!(id(h(0).parent_node()), None);
    assert_eq!(id(h(html).parent_node()), Some(0));
    assert_eq!(id(h(html).parent_element()), None);
    assert_eq!(id(h(body).parent_element()), Some(html));
    assert_eq!(id(h(b).traversal_parent()), Some(p));
    assert!(h(html).is_root());
    assert!(!h(0).is_root());
    assert!(!h(head).is_root());
    assert!(!h(a).is_root());
    assert!(h(body).is_html_document_body_element());
    assert!(!h(head).is_html_document_body_element());
    assert!(!h(p).is_html_document_body_element());
}

#[test]
fn is_empty_counts_whitespace_text_as_a_child() {
    let (mut tree, [_, _, head, _, body, _, p, b, _, _]) = sample();
    assert!(Handle::new(&tree, head).unwrap().is_empty());
    assert!(Handle::new(&tree, b).unwrap().is_empty());
    assert!(!Handle::new(&tree, body).unwrap().is_empty());
    assert!(!Handle::new(&tree, p).unwrap().is_empty());
    let blank = create_node(&mut tree, text(" \n\t"));
    assert_eq!(append_child(&mut tree, Relation::Dom, head, blank), Ok(()));
    assert!(!Handle::new(&tree, head).unwrap().is_empty());
    let note = create_node(&mut tree, NodeData::Comment);
    let div = create_node(&mut tree, element("div"));
    assert_eq!(append_child(&mut tree, Relation::Dom, div, note), Ok(()));
    assert!(!Handle::new(&tree, div).unwrap().is_empty());
}

#[test]
fn kinds_of_node() {
    let (mut tree, [html, space, _, comment, _, _, _, _, _, _]) = sample();
    let anon = create_node(
        &mut tree,
        NodeData::AnonymousBlock(ElementData::new("div".to_string(), "".to_string(), Vec::new())),
    );
    let h = |k| Handle::new(&tree, k).unwrap();
    assert!(h(html).is_element() && !h(html).is_text_node());
    assert!(h(space).is_text_node() && !h(space).is_element());
    assert!(!h(comment).is_element() && !h(comment).is_text_node());
    assert!(!h(anon).is_element());
    assert!(h(anon).is_pseudo_element());
    assert!(!h(html).is_pseudo_element());
    assert_eq!(id(h(html).as_element()), Some(html));
    assert_eq!(id(h(space).as_element()), None);
    assert_eq!(id(h(0).as_document()), Some(0));
    assert_eq!(id(h(html).as_document()), None);
    assert_eq!(h(html).opaque(), html);
    assert_eq!(h(html).debug_id(), html);
    assert!(h(html).eq(&h(html)));
    assert!(!h(html).eq(&h(space)));
}

#[test]
fn append_child_refuses_what_would_break_the_tree() {
    let (mut tree, [html, _, head, _, body, _, _, _, _, _]) = sample();
    let fresh = create_node(&mut tree, element("div"));
    assert_eq!(append_child(&mut tree, Relation::Dom, 99, fresh), Err(TreeError::NoSuchNode));
    assert_eq!(append_child(&mut tree, Relation::Dom, body, 99), Err(TreeError::NoSuchNode));
    assert_eq!(append_child(&mut tree, Relation::Dom, fresh, fresh), Err(TreeError::NotDetached));
    assert_eq!(append_child(&mut tree, Relation::Dom, fresh, 0), Err(TreeError::NotDetached));
    assert_eq!(append_child(&mut tree, Relation::Dom, fresh, head), Err(TreeError::NotDetached));
    assert_eq!(append_child(&mut tree, Relation::Dom, fresh, html), Err(TreeError::NotDetached));
    assert_eq!(append_child(&mut tree, Relation::Dom, body, fresh), Ok(()));
    assert_eq!(append_child(&mut tree, Relation::Dom, body, fresh), Err(TreeError::NotDetached));
    assert_eq!(Handle::new(&tree, fresh).unwrap().child_index(), Some(3));
    // The layout tree is apart from the document tree.
    assert_eq!(append_child(&mut tree, Relation::Layout, fresh, head), Ok(()));
    assert_eq!(tree[head].layout_parent, Some(fresh));
    assert_eq!(tree[head].parent, Some(html));
    assert_eq!(tree[fresh].layout_children, vec![head]);
}

#[test]
fn text_content_in_document_order() {
    let (tree, [html, _, head, comment, body, _, p, b, _, _]) = sample();
    let h = |k| Handle::new(&tree, k).unwrap();
    assert_eq!(h(body).text_content(), "abc");
    assert_eq!(h(html).text_content(), "  abc\n");
    assert_eq!(h(p).text_content(), "b");
    assert_eq!(h(b).text_content(), "b");
    assert_eq!(h(head).text_content(), "");
    assert_eq!(h(comment).text_content(), "");
    // The document node itself holds no text of its own.
    assert_eq!(h(0).text_content(), "");
    let mut out = String::from(">");
    h(body).write_text_content(&mut out);
    assert_eq!(out, ">abc");
}
