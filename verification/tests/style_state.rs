use blitz_dom::handle::Handle;
use blitz_dom::matching::NonTSPseudoClass;
use blitz_dom::matching::PseudoElement;
use blitz_dom::engine::CaseSensitivity;
use blitz_dom::node::Attribute;
use blitz_dom::node::Display;
use blitz_dom::node::DisplayInside;
use blitz_dom::node::DisplayOutside;
use blitz_dom::node::ElementData;
use blitz_dom::node::ElementState;
use blitz_dom::node::Node;
use blitz_dom::node::NodeData;
use blitz_dom::node::STATE_ACTIVE;
use blitz_dom::node::STATE_FOCUS;
use blitz_dom::node::STATE_HOVER;
use blitz_dom::style::apply_selector_flags;
use blitz_dom::style::ensure_data;
use blitz_dom::traversal::PreorderStep;
use blitz_dom::traversal::RecalcStyle;
use blitz_dom::traversal::RegisteredPaintersImpl;
use blitz_dom::tree::append_child;
use blitz_dom::tree::create_node;
use blitz_dom::tree::new_tree;
use blitz_dom::tree::Relation;
use blitz_dom::update::clear_data;
use blitz_dom::update::set_computed_display;
use blitz_dom::update::set_element_state;
use blitz_dom::update::set_handled_snapshot;
use blitz_dom::update::take_snapshot;
use slab::Slab;

fn attr(name: &str, value: &str) -> Attribute {
    Attribute { name: name.to_string(), value: value.to_string() }
}

fn element(tree: &mut Slab<Node>, parent: usize, tag: &str, attrs: Vec<Attribute>) -> usize {
    let id = create_node(
        tree,
        NodeData::Element(ElementData::new(tag.to_string(), "html".to_string(), attrs)),
    );
    assert_eq!(append_child(tree, Relation::Dom, parent, id), Ok(()));
    id
}

const BLOCK: Display = Display { outside: DisplayOutside::Block, inside: DisplayInside::Flow };
const INLINE: Display = Display { outside: DisplayOutside::Inline, inside: DisplayInside::Flow };

#[test]
fn ensure_data_keeps_what_is_there() {
    let mut tree = new_tree();
    let el = element(&mut tree, 0, "div", Vec::new());
    assert!(!Handle::new(&tree, el).unwrap().has_data());
    assert!(Handle::new(&tree, el).unwrap().borrow_data().is_none());
    assert!(tree[el].mutate_data().is_none());
    assert!(ensure_data(&mut tree, el).unwrap().display.is_none());
    assert!(Handle::new(&tree, el).unwrap().has_data());
    ensure_data(&mut tree, el).unwrap().display = Some(BLOCK);
    let again = ensure_data(&mut tree, el).unwrap();
    assert_eq!(again.display.map(|d| d.outside), Some(DisplayOutside::Block));
    assert_eq!(
        Handle::new(&tree, el).unwrap().borrow_data().and_then(|d| d.display).map(|d| d.inside),
        Some(DisplayInside::Flow)
    );
    assert!(clear_data(&mut tree, el));
    assert!(!Handle::new(&tree, el).unwrap().has_data());
    assert!(ensure_data(&mut tree, 99).is_none());
    assert!(!clear_data(&mut tree, 99));
}

#[test]
fn handled_snapshot_can_be_set_twice() {
    let mut tree = new_tree();
    let el = element(&mut tree, 0, "div", Vec::new());
    assert!(!Handle::new(&tree, el).unwrap().has_snapshot());
    assert!(!Handle::new(&tree, el).unwrap().handled_snapshot());
    assert!(take_snapshot(&mut tree, el));
    assert!(Handle::new(&tree, el).unwrap().has_snapshot());
    assert!(!Handle::new(&tree, el).unwrap().handled_snapshot());
    assert!(set_handled_snapshot(&mut tree, el));
    assert!(Handle::new(&tree, el).unwrap().handled_snapshot());
    assert!(set_handled_snapshot(&mut tree, el));
    assert!(Handle::new(&tree, el).unwrap().handled_snapshot());
    assert!(Handle::new(&tree, el).unwrap().has_snapshot());
    assert!(!set_handled_snapshot(&mut tree, 99));
}

#[test]
fn selector_flags_go_to_the_element_and_to_its_parent() {
    let mut tree = new_tree();
    let parent = element(&mut tree, 0, "ul", Vec::new());
    let child = element(&mut tree, parent, "li", Vec::new());
    let other = element(&mut tree, parent, "li", Vec::new());
    // 1 << 5 concerns the element, 1 << 0 and 1 << 4 its parent.
    apply_selector_flags(&mut tree, child, (1 << 5) | (1 << 0) | (1 << 4));
    assert_eq!(tree[child].selector_flags, 1 << 5);
    assert_eq!(tree[parent].selector_flags, (1 << 0) | (1 << 4));
    assert_eq!(tree[other].selector_flags, 0);
    assert_eq!(tree[0].selector_flags, 0);
    // Flags are only ever added.
    apply_selector_flags(&mut tree, child, (1 << 8) | (1 << 11));
    assert_eq!(tree[child].selector_flags, (1 << 5) | (1 << 8));
    assert_eq!(tree[parent].selector_flags, (1 << 0) | (1 << 4) | (1 << 11));
    apply_selector_flags(&mut tree, child, 0);
    assert_eq!(tree[child].selector_flags, (1 << 5) | (1 << 8));
    // A flag that is neither for the element nor for the parent is dropped.
    apply_selector_flags(&mut tree, child, 1 << 10);
    assert_eq!(tree[child].selector_flags, (1 << 5) | (1 << 8));
    assert_eq!(tree[parent].selector_flags, (1 << 0) | (1 << 4) | (1 << 11));
    let h = Handle::new(&tree, child).unwrap();
    assert!(h.has_selector_flags(1 << 5));
    assert!(h.has_selector_flags((1 << 5) | (1 << 8)));
    assert!(!h.has_selector_flags((1 << 5) | (1 << 9)));
    assert_eq!(h.relative_selector_search_direction(), 1 << 8);
    assert_eq!(Handle::new(&tree, parent).unwrap().relative_selector_search_direction(), 0);
    // The document root has no parent to pass flags to.
    apply_selector_flags(&mut tree, 0, (1 << 6) | (1 << 1));
    assert_eq!(tree[0].selector_flags, 1 << 6);
}

#[test]
fn pseudo_classes() {
    let mut tree = new_tree();
    let link = element(&mut tree, 0, "a", vec![attr("href", "#")]);
    let anchor = element(&mut tree, link, "a", Vec::new());
    let area = element(&mut tree, link, "area", vec![attr("href", "")]);
    let div = element(&mut tree, link, "div", vec![attr("href", "#")]);
    let mut checkbox = ElementData::new("input".to_string(), "".to_string(), vec![attr("type", "checkbox")]);
    checkbox.checkbox_checked = Some(true);
    let checked = create_node(&mut tree, NodeData::Element(checkbox));
    let mut unchecked_box = ElementData::new("input".to_string(), "".to_string(), Vec::new());
    unchecked_box.checkbox_checked = Some(false);
    let unchecked = create_node(&mut tree, NodeData::Element(unchecked_box));
    let text = create_node(&mut tree, NodeData::Text { content: "a".to_string() });
    assert!(set_element_state(&mut tree, div, ElementState::empty().with(STATE_HOVER)));
    assert!(set_element_state(&mut tree, area, ElementState { bits: STATE_FOCUS | STATE_ACTIVE }));
    let m = |id, class| Handle::new(&tree, id).unwrap().match_non_ts_pseudo_class(&class);
    for class in [NonTSPseudoClass::AnyLink, NonTSPseudoClass::Link] {
        assert!(m(link, class));
        assert!(m(area, class));
        assert!(!m(anchor, class));
        assert!(!m(div, class));
        assert!(!m(text, class));
    }
    assert!(m(checked, NonTSPseudoClass::Checked));
    assert!(!m(unchecked, NonTSPseudoClass::Checked));
    assert!(!m(div, NonTSPseudoClass::Checked));
    assert!(m(div, NonTSPseudoClass::Hover));
    assert!(!m(div, NonTSPseudoClass::Focus));
    assert!(m(area, NonTSPseudoClass::Focus));
    assert!(!m(area, NonTSPseudoClass::Hover));
    for class in [
        NonTSPseudoClass::Active,
        NonTSPseudoClass::Visited,
        NonTSPseudoClass::Disabled,
        NonTSPseudoClass::Enabled,
        NonTSPseudoClass::Target,
        NonTSPseudoClass::Lang,
        NonTSPseudoClass::CustomState,
        NonTSPseudoClass::FocusWithin,
        NonTSPseudoClass::ReadOnly,
        NonTSPseudoClass::Required,
        NonTSPseudoClass::Valid,
    ] {
        for id in [link, area, div, checked, text] {
            assert!(!m(id, class));
        }
    }
    let state = Handle::new(&tree, area).unwrap().state();
    assert!(state.contains(STATE_FOCUS) && state.contains(STATE_ACTIVE) && !state.contains(STATE_HOVER));
    assert!(!state.without(STATE_FOCUS).contains(STATE_FOCUS));
    assert!(Handle::new(&tree, link).unwrap().is_link());
    assert!(!Handle::new(&tree, area).unwrap().is_link());
}

#[test]
fn pseudo_elements_and_names() {
    let mut tree = new_tree();
    let div = element(&mut tree, 0, "div", vec![attr("id", "Main"), attr("id", "second")]);
    let anon = create_node(
        &mut tree,
        NodeData::AnonymousBlock(ElementData::new("div".to_string(), "".to_string(), Vec::new())),
    );
    let h = |id| Handle::new(&tree, id).unwrap();
    assert!(h(anon).match_pseudo_element(&PseudoElement::ServoAnonymousBox));
    assert!(!h(anon).match_pseudo_element(&PseudoElement::Before));
    assert!(!h(div).match_pseudo_element(&PseudoElement::ServoAnonymousBox));
    assert!(h(div).has_local_name("div"));
    assert!(!h(div).has_local_name("DIV"));
    assert!(!h(0).has_local_name("div"));
    assert!(h(div).has_namespace("html"));
    assert!(!h(div).has_namespace(""));
    assert_eq!(h(div).local_name(), "div");
    assert_eq!(h(div).namespace(), "html");
    assert_eq!(h(div).id(), Some("Main"));
    assert_eq!(h(anon).id(), None);
    assert!(h(div).has_id("Main", CaseSensitivity::CaseSensitive));
    assert!(!h(div).has_id("main", CaseSensitivity::CaseSensitive));
    assert!(h(div).has_id("main", CaseSensitivity::AsciiCaseInsensitive));
    assert!(!h(div).has_id("second", CaseSensitivity::CaseSensitive));
    assert!(!h(anon).has_id("", CaseSensitivity::CaseSensitive));
    assert!(!h(div).is_same_type(&h(div)));
    assert_eq!(h(div).each_attr_name(), vec!["id", "id"]);
    assert!(h(0).each_attr_name().is_empty());
}

#[test]
fn each_class_bounds_the_tokens() {
    let data = ElementData::new("p".to_string(), "".to_string(), vec![attr("class", "  big\tred  x ")]);
    assert_eq!(data.each_class(), vec![(2, 5), (6, 9), (11, 12)]);
    let none = ElementData::new("p".to_string(), "".to_string(), Vec::new());
    assert!(none.each_class().is_empty());
    let blank = ElementData::new("p".to_string(), "".to_string(), vec![attr("class", " \n ")]);
    assert!(blank.each_class().is_empty());
}

#[test]
fn preorder_fills_the_slot_of_elements_only() {
    let mut tree = new_tree();
    let el = element(&mut tree, 0, "div", Vec::new());
    let text = create_node(&mut tree, NodeData::Text { content: "t".to_string() });
    assert_eq!(append_child(&mut tree, Relation::Dom, el, text), Ok(()));
    let traversal = RecalcStyle::new("shared");
    assert_eq!(*traversal.shared_context(), "shared");
    assert_eq!(traversal.context, "shared");
    assert!(!RecalcStyle::<&str>::needs_postorder_traversal());
    assert_eq!(traversal.process_preorder(&mut tree, text), PreorderStep::Skip);
    assert!(tree[text].style_data.is_none());
    assert_eq!(traversal.process_preorder(&mut tree, el), PreorderStep::Recalc);
    assert!(tree[el].style_data.is_some());
    assert!(set_computed_display(&mut tree, el, BLOCK));
    assert_eq!(traversal.process_preorder(&mut tree, el), PreorderStep::Recalc);
    assert_eq!(tree[el].display_style().map(|d| d.outside), Some(DisplayOutside::Block));
    assert!(Handle::new(&tree, el).unwrap().has_dirty_descendants());
    let mut kids = Handle::new(&tree, el).unwrap().traversal_children();
    assert_eq!(kids.next().map(|h| h.node.id), Some(text));
    assert!(kids.next().is_none());
    assert!(kids.next().is_none());
    assert!(RegisteredPaintersImpl.get("paint").is_none());
}

#[test]
fn block_is_found_through_inline_flow_only() {
    let mut tree = new_tree();
    let span = element(&mut tree, 0, "span", Vec::new());
    let em = element(&mut tree, span, "em", Vec::new());
    let div = element(&mut tree, em, "div", Vec::new());
    let has = |tree: &Slab<Node>, id| Handle::new(tree, id).unwrap().is_or_contains_block();
    // Without styles everything is inline.
    assert!(!has(&tree, span));
    assert!(set_computed_display(&mut tree, div, BLOCK));
    assert!(has(&tree, div));
    assert!(has(&tree, em));
    assert!(has(&tree, span));
    // A box that lays its children out otherwise hides them.
    let flex = Display { outside: DisplayOutside::Inline, inside: DisplayInside::Flex };
    assert!(set_computed_display(&mut tree, em, flex));
    assert!(!has(&tree, em));
    assert!(!has(&tree, span));
    assert!(set_computed_display(&mut tree, em, INLINE));
    assert!(has(&tree, span));
    // A box that is not made holds nothing.
    let hidden = Display { outside: DisplayOutside::Hidden, inside: DisplayInside::Hidden };
    assert!(set_computed_display(&mut tree, span, hidden));
    assert!(!has(&tree, span));
}
