use blitz_dom::decode::decode_image;
use blitz_dom::decode::image_fetch_err;
use blitz_dom::decode::ImageFetchErr;
use blitz_dom::decode::raster_or_none;
use blitz_dom::decode::vector_or_error;
use blitz_dom::decode::ImageOrSvg;
use blitz_dom::fetch::fetch_plan;
use blitz_dom::fetch::plan_for_data;
use blitz_dom::fetch::plan_for_parts;
use blitz_dom::fetch::FetchErr;
use blitz_dom::fetch::FetchPlan;
use blitz_dom::fetch::UrlParts;
use blitz_dom::fetch::FILE_SIZE_LIMIT;
use blitz_dom::fetch::USER_AGENT;
use blitz_dom::handle::Handle;
use blitz_dom::node::ElementData;
use blitz_dom::node::NodeData;
use blitz_dom::outline::bytes_blank;
use blitz_dom::outline::excerpt;
use blitz_dom::outline::text_excerpt;
use blitz_dom::outline::walk_tree;
use blitz_dom::outline::TreeLine;
use blitz_dom::outline::WalkEvent;
use blitz_dom::tree::append_child;
use blitz_dom::tree::create_node;
use blitz_dom::tree::new_tree;
use blitz_dom::tree::Relation;

fn element(tag: &str) -> NodeData {
    NodeData::Element(ElementData::new(tag.to_string(), "".to_string(), Vec::new()))
}

#[test]
fn listings_of_a_small_document() {
    let mut tree = new_tree();
    let html = create_node(&mut tree, element("html"));
    let blank = create_node(&mut tree, NodeData::Text { content: " \n".to_string() });
    let body = create_node(&mut tree, element("body"));
    let text = create_node(&mut tree, NodeData::Text { content: " hi ".to_string() });
    let br = create_node(&mut tree, element("br"));
    for (p, c) in [(0, html), (html, blank), (html, body), (body, text), (body, br)] {
        assert_eq!(append_child(&mut tree, Relation::Dom, p, c), Ok(()));
    }
    let root = Handle::new(&tree, 0).unwrap();
    let mut lines = Vec::new();
    root.print_tree(0, &mut lines);
    let line = |level, id| TreeLine { level, id };
    assert_eq!(
        lines,
        vec![line(0, 0), line(1, html), line(2, blank), line(2, body), line(3, text), line(3, br)]
    );
    let mut events = Vec::new();
    walk_tree(0, root, &mut events);
    assert_eq!(
        events,
        vec![
            WalkEvent::Enter { indent: 0, id: 0 },
            WalkEvent::Enter { indent: 2, id: html },
            WalkEvent::Enter { indent: 4, id: body },
            WalkEvent::Enter { indent: 6, id: text },
            WalkEvent::Enter { indent: 6, id: br },
            WalkEvent::Leave { indent: 4, id: body },
            WalkEvent::Leave { indent: 2, id: html },
        ]
    );
    let mut deep = Vec::new();
    Handle::new(&tree, body).unwrap().print_tree(usize::MAX, &mut deep);
    assert_eq!(deep, vec![line(usize::MAX, body), line(usize::MAX, text), line(usize::MAX, br)]);
    assert!(bytes_blank(b""));
    assert!(bytes_blank(b" \t\r\n\x0c"));
    assert!(!bytes_blank(b" \x0b"));
}

#[test]
fn fetch_plans() {
    match fetch_plan("data:text/plain;base64,aGVsbG8=") {
        Ok(FetchPlan::Inline(body)) => assert_eq!(body, b"hello"),
        other => panic!("unexpected plan {:?}", other),
    }
    match fetch_plan("data:,a%20b") {
        Ok(FetchPlan::Inline(body)) => assert_eq!(body, b"a b"),
        other => panic!("unexpected plan {:?}", other),
    }
    assert!(matches!(fetch_plan("data:no-comma"), Err(FetchErr::DataUrl)));
    match fetch_plan("file:///tmp/a%20b.png") {
        Ok(FetchPlan::File(path)) => assert_eq!(path, "/tmp/a%20b.png"),
        other => panic!("unexpected plan {:?}", other),
    }
    assert!(matches!(fetch_plan("https://example.org/x"), Ok(FetchPlan::Remote)));
    assert!(matches!(fetch_plan("DATA:,x"), Ok(FetchPlan::Remote)));
    assert!(matches!(fetch_plan("not a url"), Err(FetchErr::UrlParse(_))));
    assert!(matches!(fetch_plan(""), Err(FetchErr::UrlParse(_))));
    assert!(matches!(plan_for_data(None), Err(FetchErr::DataUrl)));
    let parts = |scheme: &str| UrlParts { scheme: scheme.to_string(), path: "/p".to_string() };
    assert!(matches!(plan_for_parts(parts("file")), FetchPlan::File(p) if p == "/p"));
    assert!(matches!(plan_for_parts(parts("files")), FetchPlan::Remote));
    assert!(matches!(plan_for_parts(parts("http")), FetchPlan::Remote));
    assert_eq!(FILE_SIZE_LIMIT, 1_000_000_000);
    assert!(USER_AGENT.starts_with("Mozilla/5.0"));
}

#[test]
fn raster_bytes_decode_as_raster_and_others_as_vector() {
    let fonts = std::sync::Arc::new(usvg::fontdb::Database::new());
    // The smallest GIF: one white pixel.
    let gif: [u8; 35] = [
        0x47, 0x49, 0x46, 0x38, 0x39, 0x61, 0x01, 0x00, 0x01, 0x00, 0x80, 0x00, 0x00, 0xff, 0xff, 0xff,
        0x00, 0x00, 0x00, 0x2c, 0x00, 0x00, 0x00, 0x00, 0x01, 0x00, 0x01, 0x00, 0x00, 0x02, 0x02, 0x44,
        0x01, 0x00, 0x3b,
    ];
    match decode_image(&gif, &fonts) {
        Ok(ImageOrSvg::Image(image)) => assert_eq!((image.width(), image.height()), (1, 1)),
        _ => panic!("a GIF is a raster image"),
    }
    let svg = b"<svg xmlns='http://www.w3.org/2000/svg' width='3' height='2'/>";
    match decode_image(svg, &fonts) {
        Ok(ImageOrSvg::Svg(tree)) => assert_eq!((tree.size().width(), tree.size().height()), (3.0, 2.0)),
        _ => panic!("an SVG document is a vector image"),
    }
    assert!(decode_image(b"neither", &fonts).is_err());
    assert!(vector_or_error(Err(usvg::Error::InvalidSize)).is_err());
    match raster_or_none(Ok(image::DynamicImage::new_rgb8(4, 3))) {
        Some(ImageOrSvg::Image(image)) => assert_eq!((image.width(), image.height()), (4, 3)),
        _ => panic!("a decoded raster image is used as it is"),
    }
    let unsupported = image::ImageError::Unsupported(image::error::ImageFormatHint::Unknown.into());
    assert!(raster_or_none(Err(unsupported)).is_none());
}

#[test]
fn excerpt_cuts_before_the_tenth_character() {
    assert_eq!(excerpt(""), ("", false));
    assert_eq!(excerpt("short"), ("short", false));
    assert_eq!(excerpt("0123456789"), ("0123456789", false));
    assert_eq!(excerpt("0123456789a"), ("012345678", true));
    assert_eq!(excerpt("0123456789abcdef"), ("012345678", true));
    // Four characters of three bytes each: more than ten bytes, fewer than ten characters.
    assert_eq!(excerpt("\u{4e00}\u{4e01}\u{4e02}\u{4e03}"), ("\u{4e00}\u{4e01}\u{4e02}", true));
    // Ten characters, eleven bytes.
    assert_eq!(excerpt("abcdefgh\u{e9}j"), ("abcdefgh\u{e9}", true));
    assert_eq!(text_excerpt("  hello \n"), ("hello", false));
    assert_eq!(text_excerpt("\u{a0} The quick brown fox \u{3000}"), ("The quick", true));
    assert_eq!(text_excerpt(" \t "), ("", false));
}

#[test]
fn a_failed_fetch_is_passed_on_with_its_cause() {
    assert!(matches!(image_fetch_err(FetchErr::DataUrl), ImageFetchErr::DataUrl));
    assert!(matches!(
        image_fetch_err(FetchErr::UrlParse(url::ParseError::EmptyHost)),
        ImageFetchErr::UrlParse(url::ParseError::EmptyHost)
    ));
    let missing = std::io::Error::new(std::io::ErrorKind::NotFound, "gone");
    match image_fetch_err(FetchErr::FileIo(missing)) {
        ImageFetchErr::FileIo(cause) => assert_eq!(cause.kind(), std::io::ErrorKind::NotFound),
        other => panic!("unexpected error {:?}", other),
    }
    let refused = std::io::Error::new(std::io::ErrorKind::ConnectionRefused, "refused");
    match image_fetch_err(FetchErr::Ureq(Box::new(ureq::Error::from(refused)))) {
        ImageFetchErr::Ureq(cause) => assert_eq!(cause.kind(), ureq::ErrorKind::Io),
        other => panic!("unexpected error {:?}", other),
    }
}
