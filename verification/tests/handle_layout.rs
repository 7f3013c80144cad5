use blitz_dom::handle::Handle;
use blitz_dom::hints::parse_size_attr;
use blitz_dom::hints::LengthPercentage;

#[test]
fn assert_size_of_equals() {
    // A handle is a pair of references and nothing more.
    assert_eq!(std::mem::size_of::<Handle>(), 2 * std::mem::size_of::<usize>());
    assert_eq!(std::mem::align_of::<Handle>(), std::mem::align_of::<usize>());
}

#[test]
fn parse_inline() {
    match parse_size_attr("1306.5px") {
        Some(LengthPercentage::Px(number)) => assert_eq!(number, "1306.5"),
        other => panic!("unexpected size {:?}", other),
    }
    match parse_size_attr("50px") {
        Some(LengthPercentage::Px(number)) => assert_eq!(number, "50"),
        other => panic!("unexpected size {:?}", other),
    }
    assert!(parse_size_attr("hidden").is_none());
    assert!(parse_size_attr("none").is_none());
}
