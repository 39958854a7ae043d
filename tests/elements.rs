use baddown::{
    Bold, BulletList, Cursive, Element, Heading, HeadingType, HorizontalRule, HtmlBody,
    HtmlDocument, HtmlElement, HtmlHead, Image, Link, Monospace, NewLine, NumberedList, Paragraph,
    Text,
};

fn text(s: &str) -> Element {
    Element::Text(Text::new(s.to_string()))
}

#[test]
fn text_renders_verbatim() {
    assert_eq!(Text::new("a<b".to_string()).as_string(), "a<b");
    assert_eq!(Text::new(String::new()).as_string(), "");
}

#[test]
fn each_heading_level_renders() {
    let cases = [
        (HeadingType::H1, "<h1>x</h1>\n"),
        (HeadingType::H2, "<h2>x</h2>\n"),
        (HeadingType::H3, "<h3>x</h3>\n"),
        (HeadingType::H4, "<h4>x</h4>\n"),
        (HeadingType::H5, "<h5>x</h5>\n"),
        (HeadingType::H6, "<h6>x</h6>\n"),
    ];
    for (h, expected) in cases {
        assert_eq!(Heading::new(h, "x".to_string()).as_string(), expected);
    }
}

#[test]
fn paragraph_and_inline_nodes_render() {
    let p = Paragraph::new(vec![
        text("a"),
        Element::NewLine(NewLine),
        Element::Bold(Bold::new(vec![text("b")])),
        Element::Cursive(Cursive::new(vec![text("c")])),
        Element::Monospace(Monospace::new(vec![text("d")])),
        Element::HorizontalRule(HorizontalRule),
    ]);
    assert_eq!(
        p.as_string(),
        "<p>\na<br>\n<strong>b</strong><em>c</em><code>d</code><hr>\n</p>\n"
    );
    assert_eq!(Paragraph::new(vec![]).as_string(), "<p>\n\n</p>\n");
    assert_eq!(NewLine.as_string(), "<br>\n");
    assert_eq!(HorizontalRule.as_string(), "<hr>");
}

#[test]
fn lists_render_items_in_order() {
    let items = vec![vec![text("one")], vec![text("two"), text("!")]];
    assert_eq!(
        BulletList::new(items).as_string(),
        "<ul>\n<li>one</li>\n<li>two!</li>\n</ul>\n"
    );
    let items = vec![vec![text("x")]];
    assert_eq!(NumberedList::new(items).as_string(), "<ol>\n<li>x</li>\n</ol>\n");
    assert_eq!(BulletList::new(vec![]).as_string(), "<ul>\n</ul>\n");
    assert_eq!(NumberedList::new(vec![vec![]]).as_string(), "<ol>\n<li></li>\n</ol>\n");
}

#[test]
fn link_and_image_render_attributes() {
    assert_eq!(
        Link::new("n".to_string(), "u".to_string()).as_string(),
        "<a href=\"u\">n</a>"
    );
    assert_eq!(
        Image::new("alt".to_string(), "s.png".to_string()).as_string(),
        "<img src=\"s.png\" alt=\"alt\">\n"
    );
}

#[test]
fn document_is_head_then_body() {
    let head = HtmlHead::new("T".to_string());
    assert_eq!(head.as_string(), "<head>\n<title>T</title>\n</head>\n");
    let body = HtmlBody::new(vec![text("x")]);
    assert_eq!(body.as_string(), "<body>\nx</body>\n");
    let doc = HtmlDocument::new(head, body);
    assert_eq!(doc.as_string(), "<head>\n<title>T</title>\n</head>\n<body>\nx</body>\n");
}
