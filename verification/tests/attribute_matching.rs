use blitz_dom::engine::CaseSensitivity;
use blitz_dom::handle::Handle;
use blitz_dom::matching::operator_matches;
use blitz_dom::matching::AttrSelectorOperation;
use blitz_dom::matching::AttrSelectorOperator;
use blitz_dom::node::Attribute;
use blitz_dom::node::ElementData;
use blitz_dom::node::NodeData;
use blitz_dom::tree::append_child;
use blitz_dom::tree::create_node;
use blitz_dom::tree::new_tree;
use blitz_dom::tree::Relation;

fn attr(name: &str, value: &str) -> Attribute {
    Attribute { name: name.to_string(), value: value.to_string() }
}

fn element(tag: &str, attrs: Vec<Attribute>) -> NodeData {
    NodeData::Element(ElementData::new(
        tag.to_string(),
        "http://www.w3.org/1999/xhtml".to_string(),
        attrs,
    ))
}

#[test]
fn dash_match_language_prefix() {
    assert!(operator_matches(AttrSelectorOperator::DashMatch, "en-US", "en"));
    assert!(!operator_matches(AttrSelectorOperator::DashMatch, "en-US", "e"));
    assert!(operator_matches(AttrSelectorOperator::DashMatch, "en", "en"));
    assert!(!operator_matches(AttrSelectorOperator::DashMatch, "english", "en"));
    assert!(!operator_matches(AttrSelectorOperator::DashMatch, "e", "en"));
}

#[test]
fn includes_whole_tokens_only() {
    assert!(operator_matches(AttrSelectorOperator::Includes, "a b c", "b"));
    assert!(!operator_matches(AttrSelectorOperator::Includes, "ab", "a"));
    assert!(!operator_matches(AttrSelectorOperator::Includes, "a b c", "a b"));
    assert!(!operator_matches(AttrSelectorOperator::Includes, "a b c", ""));
    assert!(operator_matches(AttrSelectorOperator::Includes, "\ta\n b\r\x0cc ", "c"));
}

#[test]
fn has_class_matches_each_token() {
    let mut tree = new_tree();
    let el = create_node(&mut tree, element("div", vec![attr("class", "a b c")]));
    assert_eq!(append_child(&mut tree, Relation::Dom, 0, el), Ok(()));
    let h = Handle::new(&tree, el).unwrap();
    for name in ["a", "b", "c"] {
        assert!(h.has_class(name, CaseSensitivity::CaseSensitive));
    }
    assert!(!h.has_class("a b", CaseSensitivity::CaseSensitive));
    assert!(!h.has_class("d", CaseSensitivity::CaseSensitive));
    assert!(!h.has_class("A", CaseSensitivity::CaseSensitive));
    assert!(h.has_class("A", CaseSensitivity::AsciiCaseInsensitive));
    assert!(!h.has_class("", CaseSensitivity::CaseSensitive));
}

#[test]
fn attr_matches_operations() {
    let mut tree = new_tree();
    let el = create_node(&mut tree, element("a", vec![attr("href", "https://example.org/x.png")]));
    let h = Handle::new(&tree, el).unwrap();
    let op = |operator, value| AttrSelectorOperation::WithValue {
        operator,
        case_sensitivity: CaseSensitivity::CaseSensitive,
        value,
    };
    assert!(h.attr_matches("href", &AttrSelectorOperation::Exists));
    assert!(!h.attr_matches("title", &AttrSelectorOperation::Exists));
    assert!(h.attr_matches("href", &op(AttrSelectorOperator::Prefix, "https://")));
    assert!(h.attr_matches("href", &op(AttrSelectorOperator::Suffix, ".png")));
    assert!(h.attr_matches("href", &op(AttrSelectorOperator::Substring, "example")));
    assert!(!h.attr_matches("href", &op(AttrSelectorOperator::Substring, "Example")));
    assert!(h.attr_matches("href", &op(AttrSelectorOperator::Equal, "https://example.org/x.png")));
    assert!(!h.attr_matches("href", &op(AttrSelectorOperator::Equal, "https://example.org/")));
    assert!(!h.attr_matches("title", &op(AttrSelectorOperator::Prefix, "")));
}

#[test]
fn byte_predicates() {
    assert!(blitz_dom::text::bytes_eq(b"", b""));
    assert!(blitz_dom::text::bytes_eq(b"abc", b"abc"));
    assert!(!blitz_dom::text::bytes_eq(b"abc", b"abd"));
    assert!(!blitz_dom::text::bytes_eq(b"abc", b"ab"));
    assert!(blitz_dom::text::bytes_start_with(b"abc", b""));
    assert!(blitz_dom::text::bytes_start_with(b"abc", b"ab"));
    assert!(!blitz_dom::text::bytes_start_with(b"abc", b"bc"));
    assert!(!blitz_dom::text::bytes_start_with(b"ab", b"abc"));
    assert!(blitz_dom::text::bytes_end_with(b"abc", b"bc"));
    assert!(blitz_dom::text::bytes_end_with(b"abc", b""));
    assert!(!blitz_dom::text::bytes_end_with(b"abc", b"ab"));
    assert!(!blitz_dom::text::bytes_end_with(b"bc", b"abc"));
    assert!(blitz_dom::text::bytes_contain(b"abc", b"b"));
    assert!(blitz_dom::text::bytes_contain(b"abc", b""));
    assert!(blitz_dom::text::bytes_contain(b"", b""));
    assert!(blitz_dom::text::bytes_contain(b"aab", b"ab"));
    assert!(!blitz_dom::text::bytes_contain(b"abc", b"ac"));
    assert!(!blitz_dom::text::bytes_contain(b"ab", b"abc"));
    assert!(blitz_dom::text::bytes_occur_at(b"abc", 1, b"bc"));
    assert!(!blitz_dom::text::bytes_occur_at(b"abc", 2, b"bc"));
    assert!(!blitz_dom::text::bytes_occur_at(b"abc", usize::MAX, b"bc"));
    assert_eq!(blitz_dom::text::next_token(b" ab  c", 0), Some((1, 3)));
    assert_eq!(blitz_dom::text::next_token(b" ab  c", 4), Some((5, 6)));
    assert_eq!(blitz_dom::text::next_token(b" ab  ", 4), None);
    assert_eq!(blitz_dom::text::next_token(b"", 0), None);
    assert_eq!(blitz_dom::text::token_bounds(b"a  bc d"), vec![(0, 1), (3, 5), (6, 7)]);
    assert!(blitz_dom::text::token_bounds(b"  ").is_empty());
    assert!(blitz_dom::text::ascii_space(b' ') && blitz_dom::text::ascii_space(0x0c));
    assert!(!blitz_dom::text::ascii_space(0x0b) && !blitz_dom::text::ascii_space(b'a'));
    assert!(blitz_dom::element::str_eq("\u{e9}", "\u{e9}"));
    assert!(!blitz_dom::element::str_eq("\u{e9}", "e"));
    assert!(blitz_dom::element::has_token(
        blitz_dom::engine::CaseSensitivity::AsciiCaseInsensitive,
        b"One tWo",
        b"TWO"
    ));
    assert!(!blitz_dom::element::has_token(
        blitz_dom::engine::CaseSensitivity::CaseSensitive,
        b"One tWo",
        b"TWO"
    ));
}
