use blitz_dom::handle::Handle;
use blitz_dom::hints::parse_align_attr;
use blitz_dom::hints::parse_color_attr;
use blitz_dom::hints::parse_size_attr;
use blitz_dom::hints::LegacyColor;
use blitz_dom::hints::LengthPercentage;
use blitz_dom::hints::PresentationalHint;
use blitz_dom::hints::TextAlignKeyword;
use blitz_dom::node::Attribute;
use blitz_dom::node::ElementData;
use blitz_dom::node::NodeData;
use blitz_dom::number::is_number_text;
use blitz_dom::size_number::is_size_number;
use blitz_dom::tree::create_node;
use blitz_dom::tree::new_tree;

fn attr(name: &str, value: &str) -> Attribute {
    Attribute { name: name.to_string(), value: value.to_string() }
}

#[test]
fn hex_color_six_digits() {
    assert_eq!(parse_color_attr("#ff0000"), Some(LegacyColor { r: 255, g: 0, b: 0 }));
    assert_eq!(parse_color_attr("#00FF7f"), Some(LegacyColor { r: 0, g: 255, b: 127 }));
    assert_eq!(parse_color_attr("#1a2B3c"), Some(LegacyColor { r: 0x1a, g: 0x2b, b: 0x3c }));
}

#[test]
fn hex_color_three_digits_are_not_doubled() {
    assert_eq!(parse_color_attr("#abc"), Some(LegacyColor { r: 10, g: 11, b: 12 }));
    assert_eq!(parse_color_attr("#fff"), Some(LegacyColor { r: 15, g: 15, b: 15 }));
    assert_eq!(parse_color_attr("#000"), Some(LegacyColor { r: 0, g: 0, b: 0 }));
}

#[test]
fn hex_color_rejects_everything_else() {
    for bad in ["ff0000", "abc", "#", "", "#ab", "#abcd", "#abcde", "#abcdefa", "#ggg", "#ff00zz", "red", " #abc", "#+f0000", "#\u{e9}1"] {
        assert_eq!(parse_color_attr(bad), None, "{:?}", bad);
    }
}

#[test]
fn align_keywords() {
    assert_eq!(parse_align_attr("left"), Some(TextAlignKeyword::MozLeft));
    assert_eq!(parse_align_attr("right"), Some(TextAlignKeyword::MozRight));
    assert_eq!(parse_align_attr("center"), Some(TextAlignKeyword::MozCenter));
    assert_eq!(parse_align_attr("justify"), None);
    assert_eq!(parse_align_attr("LEFT"), None);
    assert_eq!(parse_align_attr(""), None);
}

fn px(value: &str) -> Option<String> {
    match parse_size_attr(value) {
        Some(LengthPercentage::Px(n)) => Some(n),
        _ => None,
    }
}

fn percent(value: &str) -> Option<String> {
    match parse_size_attr(value) {
        Some(LengthPercentage::Percent(n)) => Some(n),
        _ => None,
    }
}

#[test]
fn size_with_and_without_unit() {
    assert_eq!(px("100"), Some("100".to_string()));
    assert_eq!(px("100px"), Some("100".to_string()));
    assert_eq!(px("12.5px"), Some("12.5".to_string()));
    assert_eq!(px("+3"), Some("+3".to_string()));
    assert_eq!(px("1e2px"), Some("1e2".to_string()));
    assert_eq!(px("-0"), Some("-0".to_string()));
    assert_eq!(px("0"), Some("0".to_string()));
    assert_eq!(percent("50%"), Some("50".to_string()));
    assert_eq!(percent("12.5%"), Some("12.5".to_string()));
    assert_eq!(percent("100"), None);
    assert_eq!(px("50%"), None);
}

#[test]
fn size_is_never_negative() {
    for bad in ["-3", "-5", "-5px", "-5%", "-0.001", "-1e-999", "-.5", "-1e5px", "-00.10%"] {
        assert!(parse_size_attr(bad).is_none(), "{:?}", bad);
    }
    for zero in ["-0", "-0.0", "-.0", "-0e5", "-000.000px", "-0%"] {
        assert!(parse_size_attr(zero).is_some(), "{:?}", zero);
    }
}

#[test]
fn size_is_always_a_finite_number() {
    for bad in [
        "nan", "NaN", "+nan", "-nan", "nanpx", "inf", "+inf", "-inf", "infinity", "Infinity%", "infpx",
        "1e39", "1e999px", "9e38", "4e38%", "340282356779733661637539395458142568448",
        "1e99999999999999999999999999999999999999",
    ] {
        assert!(parse_size_attr(bad).is_none(), "{:?}", bad);
    }
    for good in [
        "1e38", "3e38px", "340282356779733661637539395458142568447", "1e-999", "0e999",
        "1e-99999999999999999999999999999999999999px",
    ] {
        assert!(parse_size_attr(good).is_some(), "{:?}", good);
    }
}

#[test]
fn size_numbers_are_those_a_float_holds_without_sign() {
    let samples = [
        "0", "7", "007", "1.", ".5", "1.5", "+1.5", "-1.5", "1e5", "1E5", "1e+5", "1e-5", "1.e5", ".5e1",
        "inf", "-inf", "infinity", "nan", "", ".", "+", "-", "e5", "1e", "1e+", ".e5", "1..2", "1 ",
        "0x10", "-0", "-0.0", "-0e9", "+0", "-1e-999", "1e38", "1e39", "3.4e38", "3.5e38", "000.000",
        "340282356779733661637539395458142568447", "340282356779733661637539395458142568448",
        "340282356779733661637539395458142568447.99", "340282356779733661637539395458142568448.00",
        "3.40282356779733661637539395458142568447e38", "3.40282356779733661637539395458142568448e38",
        "0.000340282356779733661637539395458142568447e42", "0.00034028235677973366163753939545814256845e42",
        "34028235677973366163753939545814256844700000e-5", "34028235677973366163753939545814256844800000e-5",
        "340282346638528859811704183484516925440", "340282346638528859811704183484516925441",
        "99999999999999999999999999999999999999", "100000000000000000000000000000000000000",
        "999999999999999999999999999999999999999", "0.1e39", "0.1e40", "10e37", "10e38", "1e040",
        "1e-0040", "00001e38", "0000.0001e42", "0000.0001e43", "1e18446744073709551616",
        "1e-18446744073709551616", "1e1000000000000000000000000000000", "2e-1000000000000000000000000000000",
    ];
    for s in samples {
        let negative = s.starts_with('-')
            && s.bytes().take_while(|b| !b.eq_ignore_ascii_case(&b'e')).any(|b| (b'1'..=b'9').contains(&b));
        let expected = match s.parse::<f32>() {
            Ok(v) => v.is_finite() && !negative,
            Err(_) => false,
        };
        assert_eq!(is_size_number(s.as_bytes()), expected, "{:?}", s);
    }
}

#[test]
fn size_rejects_what_is_no_number() {
    for bad in ["", "px", "%", "abc", "10em", "10 px", " 10", "10px ", "1,5", "5%px", "10pxpx", "1e", "e5", ".", "+", "\u{e9}px"] {
        assert!(parse_size_attr(bad).is_none(), "{:?}", bad);
    }
}

#[test]
fn number_texts_are_those_a_float_parses() {
    let samples = [
        "0", "7", "007", "1.", ".5", "1.5", "+1.5", "-1.5", "1e5", "1E5", "1e+5", "1e-5", "1.e5",
        ".5e1", "inf", "INF", "-inf", "infinity", "Infinity", "nan", "NaN", "+nan", "", ".", "+",
        "-", "e", "e5", "1e", "1e+", ".e5", "1..2", "1.2.3", "1 ", " 1", "1_000", "0x10", "1f",
        "infinit", "infinityy", "na", "nann", "++1", "1e5.5", "1e5e5", "12a", "1.5.e3", "--1",
    ];
    for s in samples {
        assert_eq!(is_number_text(s.as_bytes()), s.parse::<f32>().is_ok(), "{:?}", s);
    }
}

#[test]
fn hints_follow_the_attributes() {
    let mut tree = new_tree();
    let attrs = vec![
        attr("id", "main"),
        attr("align", "center"),
        attr("width", "80%"),
        attr("height", "tall"),
        attr("bgcolor", "#abc"),
        attr("height", "20px"),
        attr("align", "middle"),
    ];
    let el = create_node(
        &mut tree,
        NodeData::Element(ElementData::new("table".to_string(), "".to_string(), attrs)),
    );
    let text = create_node(&mut tree, NodeData::Text { content: "x".to_string() });
    let mut hints = Vec::new();
    Handle::new(&tree, text).unwrap().synthesize_presentational_hints_for_legacy_attributes(&mut hints);
    assert!(hints.is_empty());
    Handle::new(&tree, el).unwrap().synthesize_presentational_hints_for_legacy_attributes(&mut hints);
    assert_eq!(hints.len(), 4);
    assert!(matches!(hints[0], PresentationalHint::TextAlign(TextAlignKeyword::MozCenter)));
    match &hints[1] {
        PresentationalHint::Width(LengthPercentage::Percent(n)) => assert_eq!(n, "80"),
        other => panic!("unexpected hint {:?}", other),
    }
    assert!(matches!(hints[2], PresentationalHint::BackgroundColor(LegacyColor { r: 10, g: 11, b: 12 })));
    match &hints[3] {
        PresentationalHint::Height(LengthPercentage::Px(n)) => assert_eq!(n, "20"),
        other => panic!("unexpected hint {:?}", other),
    }
}
