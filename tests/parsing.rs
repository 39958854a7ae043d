use baddown::{Element, HeadingType, HtmlDocument, HtmlElement, Parser};

fn parse(input: &str) -> HtmlDocument {
    Parser::parse(input.chars().collect(), "doc".to_string())
}

fn body_html(input: &str) -> String {
    parse(input).body.as_string()
}

fn text_of(e: &Element) -> String {
    match e {
        Element::Text(t) => t.content.clone(),
        _ => panic!("expected a text node"),
    }
}

#[test]
fn plain_text_is_one_paragraph() {
    let doc = parse("Hello world, this is plain.");
    assert_eq!(doc.body.elements.len(), 1);
    match &doc.body.elements[0] {
        Element::Paragraph(p) => {
            assert_eq!(p.content.len(), 1);
            assert_eq!(text_of(&p.content[0]), "Hello world, this is plain.");
        }
        _ => panic!("expected a paragraph"),
    }
    assert_eq!(doc.body.elements[0].as_string(), "<p>\nHello world, this is plain.\n</p>\n");
}

#[test]
fn heading_level_is_run_length_capped_at_six() {
    let expected = [
        HeadingType::H1,
        HeadingType::H2,
        HeadingType::H3,
        HeadingType::H4,
        HeadingType::H5,
        HeadingType::H6,
        HeadingType::H6,
        HeadingType::H6,
    ];
    for k in 1..=8usize {
        let input = format!("{}Title\n", "°".repeat(k));
        let doc = parse(&input);
        assert_eq!(doc.body.elements.len(), 1);
        match &doc.body.elements[0] {
            Element::Heading(h) => {
                assert_eq!(h.h_type, expected[k - 1]);
                assert_eq!(h.content, "Title");
            }
            _ => panic!("expected a heading"),
        }
    }
}

#[test]
fn heading_renders_with_level_tag() {
    assert_eq!(body_html("°°°Sub\n"), "<body>\n<h3>Sub</h3>\n</body>\n");
    assert_eq!(body_html("°°°°°°°°°Deep\n"), "<body>\n<h6>Deep</h6>\n</body>\n");
}

#[test]
fn bold_wraps_text() {
    let doc = parse("*bold*");
    match &doc.body.elements[0] {
        Element::Paragraph(p) => {
            let bold = p.content.iter().find_map(|e| match e {
                Element::Bold(b) => Some(b),
                _ => None,
            });
            let bold = bold.expect("a bold node");
            assert_eq!(bold.content.len(), 1);
            assert_eq!(text_of(&bold.content[0]), "bold");
            assert_eq!(bold.as_string(), "<strong>bold</strong>");
        }
        _ => panic!("expected a paragraph"),
    }
}

#[test]
fn doubled_asterisks_make_empty_bold_spans() {
    assert_eq!(
        body_html("**bold**"),
        "<body>\n<p>\n<strong></strong>bold<strong></strong>\n</p>\n</body>\n"
    );
}

#[test]
fn escaped_asterisks_are_literal() {
    let doc = parse("\\*not bold\\*");
    match &doc.body.elements[0] {
        Element::Paragraph(p) => {
            assert!(p.content.iter().all(|e| matches!(e, Element::Text(_))));
        }
        _ => panic!("expected a paragraph"),
    }
    assert_eq!(doc.body.as_string(), "<body>\n<p>\n*not bold*\n</p>\n</body>\n");
}

#[test]
fn bullet_list_items() {
    let doc = parse("{a}\n{b}\n{c}");
    assert_eq!(doc.body.elements.len(), 1);
    assert_eq!(
        doc.body.elements[0].as_string(),
        "<ul>\n<li>a</li>\n<li>b</li>\n<li>c</li>\n</ul>\n"
    );
}

#[test]
fn numbered_list_items() {
    assert_eq!(body_html("[x]\n[y]"), "<body>\n<ol>\n<li>x</li>\n<li>y</li>\n</ol>\n</body>\n");
}

#[test]
fn newline_inside_list_item_opens_nested_list() {
    assert_eq!(
        body_html("{a\n{b}}"),
        "<body>\n<ul>\n<li>a<ul>\n<li>b</li>\n</ul>\n</li>\n</ul>\n</body>\n"
    );
}

#[test]
fn link_renders_anchor() {
    let doc = parse(">>Site~http://x<<");
    match &doc.body.elements[0] {
        Element::Paragraph(p) => {
            let link = p.content.iter().find_map(|e| match e {
                Element::Link(l) => Some(l),
                _ => None,
            });
            let link = link.expect("a link node");
            assert_eq!(link.as_string(), "<a href=\"http://x\">Site</a>");
        }
        _ => panic!("expected a paragraph"),
    }
    assert_eq!(doc.body.as_string(), "<body>\n<p>\n<a href=\"http://x\">Site</a>\n</p>\n</body>\n");
}

#[test]
fn image_renders_img_tag() {
    let doc = parse("@Alt~img.png@");
    assert_eq!(doc.body.elements.len(), 1);
    assert_eq!(doc.body.elements[0].as_string(), "<img src=\"img.png\" alt=\"Alt\">\n");
}

#[test]
fn single_newline_keeps_paragraph() {
    let doc = parse("line1\nline2");
    assert_eq!(doc.body.elements.len(), 1);
    match &doc.body.elements[0] {
        Element::Paragraph(p) => {
            assert_eq!(p.content.len(), 3);
            assert_eq!(text_of(&p.content[0]), "line1");
            assert!(matches!(p.content[1], Element::NewLine(_)));
            assert_eq!(text_of(&p.content[2]), "line2");
        }
        _ => panic!("expected a paragraph"),
    }
    assert_eq!(doc.body.as_string(), "<body>\n<p>\nline1<br>\nline2\n</p>\n</body>\n");
}

#[test]
fn blank_line_separates_paragraphs() {
    assert_eq!(
        body_html("line1\n\nline2"),
        "<body>\n<p>\nline1\n</p>\n<p>\nline2\n</p>\n</body>\n"
    );
}

#[test]
fn list_after_newline_ends_paragraph() {
    let doc = parse("line1\n{item}");
    assert_eq!(doc.body.elements.len(), 2);
    assert!(matches!(doc.body.elements[0], Element::Paragraph(_)));
    assert!(matches!(doc.body.elements[1], Element::BulletList(_)));
    let doc = parse("line1\n[item]");
    assert!(matches!(doc.body.elements[1], Element::NumberedList(_)));
    assert_eq!(
        doc.body.as_string(),
        "<body>\n<p>\nline1\n</p>\n<ol>\n<li>item</li>\n</ol>\n</body>\n"
    );
}

#[test]
fn rendering_twice_is_identical() {
    let doc = parse("°Head\nSome *bold* and _em_ and 'code'.\n{one}\n{two}\n@a~b.png@");
    let first = doc.as_string();
    let second = doc.as_string();
    assert_eq!(first, second);
}

#[test]
fn heading_then_paragraph_end_to_end() {
    let doc = parse("°°Title\nBody *text*.");
    assert_eq!(doc.body.elements.len(), 2);
    match &doc.body.elements[0] {
        Element::Heading(h) => {
            assert_eq!(h.h_type, HeadingType::H2);
            assert_eq!(h.content, "Title");
        }
        _ => panic!("expected a heading"),
    }
    match &doc.body.elements[1] {
        Element::Paragraph(p) => {
            assert_eq!(p.content.len(), 3);
            assert_eq!(text_of(&p.content[0]), "Body ");
            match &p.content[1] {
                Element::Bold(b) => {
                    assert_eq!(b.content.len(), 1);
                    assert_eq!(text_of(&b.content[0]), "text");
                }
                _ => panic!("expected bold"),
            }
            assert_eq!(text_of(&p.content[2]), ".");
        }
        _ => panic!("expected a paragraph"),
    }
    assert_eq!(
        doc.as_string(),
        "<head>\n<title>doc</title>\n</head>\n<body>\n<h2>Title</h2>\n<p>\nBody <strong>text</strong>.\n</p>\n</body>\n"
    );
}

#[test]
fn empty_input_gives_empty_body() {
    let doc = parse("");
    assert!(doc.body.elements.is_empty());
    assert_eq!(doc.as_string(), "<head>\n<title>doc</title>\n</head>\n<body>\n</body>\n");
}

#[test]
fn horizontal_rule_keeps_text_order() {
    assert_eq!(body_html("a|-b"), "<body>\n<p>\na<hr>b\n</p>\n</body>\n");
}

#[test]
fn lone_bar_and_angle_are_literal() {
    assert_eq!(body_html("a|b"), "<body>\n<p>\na|b\n</p>\n</body>\n");
    assert_eq!(body_html("a>b"), "<body>\n<p>\na>b\n</p>\n</body>\n");
}

#[test]
fn trailing_backslash_is_literal() {
    assert_eq!(body_html("abc\\"), "<body>\n<p>\nabc\\\n</p>\n</body>\n");
}

#[test]
fn cursive_and_monospace() {
    assert_eq!(body_html("_it_ 'mono'"), "<body>\n<p>\n<em>it</em> <code>mono</code>\n</p>\n</body>\n");
}

#[test]
fn unterminated_bold_runs_to_end() {
    assert_eq!(body_html("x *abc"), "<body>\n<p>\nx <strong>abc</strong>\n</p>\n</body>\n");
}

#[test]
fn unterminated_link_and_image_are_truncated() {
    assert_eq!(body_html(">>name~http://y"), "<body>\n<p>\n<a href=\"http://y\">name</a>\n</p>\n</body>\n");
    assert_eq!(body_html("@alt"), "<body>\n<img src=\"\" alt=\"alt\">\n</body>\n");
}

#[test]
fn square_bracket_list_after_inline_newline_is_bullet_list() {
    assert_eq!(
        body_html("*a\n[b]*"),
        "<body>\n<p>\n<strong>a<ul>\n<li>b</li>\n</ul>\n</strong>\n</p>\n</body>\n"
    );
}

#[test]
fn heading_marker_ends_paragraph() {
    assert_eq!(body_html("text°H\n"), "<body>\n<p>\ntext\n</p>\n<h1>H</h1>\n</body>\n");
}

#[test]
fn html_is_not_escaped() {
    assert_eq!(body_html("a < b & c"), "<body>\n<p>\na < b & c\n</p>\n</body>\n");
}

#[test]
fn bullet_then_numbered_list_at_top_level() {
    assert_eq!(
        body_html("{a}\n[b]"),
        "<body>\n<ul>\n<li>a</li>\n</ul>\n<ol>\n<li>b</li>\n</ol>\n</body>\n"
    );
}

#[test]
fn heading_content_is_not_inline_parsed() {
    let doc = parse("°*x*_y_\n");
    assert_eq!(doc.body.elements.len(), 1);
    match &doc.body.elements[0] {
        Element::Heading(h) => {
            assert_eq!(h.h_type, HeadingType::H1);
            assert_eq!(h.content, "*x*_y_");
        }
        _ => panic!("expected a heading"),
    }
}
