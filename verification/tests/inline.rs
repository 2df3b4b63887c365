use html_inline::classify::RefClass;
use html_inline::classify::classify;
use html_inline::dom::Attr;
use html_inline::dom::Document;
use html_inline::dom::Elem;
use html_inline::dom::Node;
use html_inline::editor::html_inline;
use html_inline::editor::image_requests;
use html_inline::editor::style_requests;
use html_inline::text::trim;

fn attr(name: &str, value: &str) -> Attr {
    Attr { name: String::from(name), value: String::from(value) }
}

fn elem(name: &str, attrs: Vec<Attr>, children: Vec<Node>) -> Node {
    Node::Element(Elem { name: String::from(name), attrs, children })
}

fn as_elem(n: &Node) -> &Elem {
    match n {
        Node::Element(e) => e,
        _ => panic!("expected an element"),
    }
}

fn attr_of<'a>(e: &'a Elem, name: &str) -> Option<&'a str> {
    for a in &e.attrs {
        if a.name == name {
            return Some(&a.value);
        }
    }
    None
}

/// A 1x1 white PNG.
fn white_pixel_png() -> Vec<u8> {
    vec![
        137, 80, 78, 71, 13, 10, 26, 10, 0, 0, 0, 13, 73, 72, 68, 82, 0, 0, 0, 1, 0, 0, 0, 1, 8,
        2, 0, 0, 0, 144, 119, 83, 222, 0, 0, 0, 12, 73, 68, 65, 84, 120, 218, 99, 248, 255, 255,
        63, 0, 5, 254, 2, 254, 51, 18, 149, 20, 0, 0, 0, 0, 73, 69, 78, 68, 174, 66, 96, 130,
    ]
}

const WHITE_PIXEL_URI: &str = "data:image/png;base64,iVBORw0KGgoAAAANSUhEUgAAAAEAAAABCAIAAACQd1PeAAAADElEQVR42mP4//8/AAX+Av4zEpUUAAAAAElFTkSuQmCC";

#[test]
fn classify_matches_prefixes() {
    assert_eq!(classify("data:image/png;base64,xyz"), RefClass::AlreadyInlined);
    assert_eq!(classify("data:image/"), RefClass::AlreadyInlined);
    assert_eq!(classify("http://example.test/a.png"), RefClass::Remote);
    assert_eq!(classify("https://example.test/a.png"), RefClass::Remote);
    assert_eq!(classify("pixel.png"), RefClass::Local);
    assert_eq!(classify("testdata/pixel.png"), RefClass::Local);
    assert_eq!(classify(""), RefClass::Local);
    assert_eq!(classify("httpx://nope"), RefClass::Local);
    assert_eq!(classify("data:text/css,xyz"), RefClass::Local);
}

#[test]
fn local_pixel_becomes_exact_data_uri() {
    let doc = Document {
        nodes: vec![elem("div", vec![], vec![elem(
            "img",
            vec![attr("src", "pixel.png")],
            vec![],
        )])],
    };
    let reqs = image_requests(&doc);
    assert_eq!(reqs, vec![String::from("pixel.png")]);
    assert!(style_requests(&doc).is_empty());
    let (out, fails) = html_inline(doc, vec![Ok(white_pixel_png())], vec![]);
    assert!(fails.is_empty());
    let div = as_elem(&out.nodes[0]);
    let img = as_elem(&div.children[0]);
    assert_eq!(attr_of(img, "src"), Some(WHITE_PIXEL_URI));
}

#[test]
fn already_inlined_image_is_untouched() {
    let doc = Document {
        nodes: vec![elem(
            "img",
            vec![attr("class", "something"), attr("src", "data:image/png;base64,QUJD")],
            vec![],
        )],
    };
    assert!(image_requests(&doc).is_empty());
    let (out, fails) = html_inline(doc, vec![], vec![]);
    assert!(fails.is_empty());
    let img = as_elem(&out.nodes[0]);
    assert_eq!(img.attrs.len(), 2);
    assert_eq!(attr_of(img, "class"), Some("something"));
    assert_eq!(attr_of(img, "src"), Some("data:image/png;base64,QUJD"));
}

#[test]
fn missing_image_keeps_src_and_logs_one_entry() {
    let doc = Document {
        nodes: vec![elem(
            "img",
            vec![attr("src", "testdata/non-existant.png")],
            vec![],
        )],
    };
    let (out, fails) = html_inline(
        doc,
        vec![Err(String::from("No such file or directory (os error 2)"))],
        vec![],
    );
    assert_eq!(
        fails,
        vec![String::from(
            "image testdata/non-existant.png: No such file or directory (os error 2)"
        )]
    );
    let img = as_elem(&out.nodes[0]);
    assert_eq!(attr_of(img, "src"), Some("testdata/non-existant.png"));
}

#[test]
fn srcset_is_removed_whatever_the_outcome() {
    // A failing load still strips srcset.
    let doc = Document {
        nodes: vec![elem(
            "img",
            vec![attr("src", "a.png"), attr("srcset", "a-2x.png 2x")],
            vec![],
        )],
    };
    let (out, _fails) = html_inline(doc, vec![Err(String::from("nope"))], vec![]);
    let img = as_elem(&out.nodes[0]);
    assert_eq!(attr_of(img, "srcset"), None);
    assert_eq!(attr_of(img, "src"), Some("a.png"));

    // A successful load strips it too.
    let doc = Document {
        nodes: vec![elem(
            "img",
            vec![attr("src", "a.png"), attr("srcset", "a-2x.png 2x")],
            vec![],
        )],
    };
    let (out, fails) = html_inline(doc, vec![Ok(white_pixel_png())], vec![]);
    assert!(fails.is_empty());
    let img = as_elem(&out.nodes[0]);
    assert_eq!(attr_of(img, "srcset"), None);
    assert_eq!(attr_of(img, "src"), Some(WHITE_PIXEL_URI));

    // An already-inlined image with a srcset loses only the srcset.
    let doc = Document {
        nodes: vec![elem(
            "img",
            vec![attr("src", "data:image/png;base64,QUJD"), attr("srcset", "b.png 2x")],
            vec![],
        )],
    };
    let (out, fails) = html_inline(doc, vec![], vec![]);
    assert!(fails.is_empty());
    let img = as_elem(&out.nodes[0]);
    assert_eq!(attr_of(img, "srcset"), None);
    assert_eq!(attr_of(img, "src"), Some("data:image/png;base64,QUJD"));
}

#[test]
fn format_hint_is_sniffed_from_bytes() {
    for (bytes, prefix) in [
        (vec![0xffu8, 0xd8, 0xff, 0xe0, 1, 2, 3], "data:image/jpeg;base64,"),
        (vec![0x47, 0x49, 0x46, 0x38, 9, 9], "data:image/gif;base64,"),
        (vec![0x00, 0x00, 0x01, 0x00, 4, 4], "data:image/x-icon;base64,"),
        (vec![1, 2, 3], "data:image/png;base64,"),
    ] {
        let doc = Document {
            nodes: vec![elem("img", vec![attr("src", "https://example.test/x")], vec![])],
        };
        let (out, fails) = html_inline(doc, vec![Ok(bytes)], vec![]);
        assert!(fails.is_empty());
        let img = as_elem(&out.nodes[0]);
        let src = attr_of(img, "src").unwrap();
        assert!(src.starts_with(prefix), "got {}", src);
    }
}

#[test]
fn stylesheet_link_becomes_style_element() {
    let doc = Document {
        nodes: vec![elem("head", vec![], vec![elem(
            "link",
            vec![attr("rel", "stylesheet"), attr("href", "simple.css")],
            vec![],
        )])],
    };
    let reqs = style_requests(&doc);
    assert_eq!(reqs, vec![String::from("simple.css")]);
    let (out, fails) = html_inline(doc, vec![], vec![Ok(String::from("h1 { color: blue; }\n"))]);
    assert!(fails.is_empty());
    let head = as_elem(&out.nodes[0]);
    let style = as_elem(&head.children[0]);
    assert_eq!(style.name, "style");
    assert!(style.attrs.is_empty());
    assert_eq!(style.children.len(), 1);
    match &style.children[0] {
        Node::Text(t) => assert_eq!(t, "h1 { color: blue; }"),
        _ => panic!("expected the trimmed text child"),
    }
}

#[test]
fn inlining_is_deterministic() {
    let build = || Document {
        nodes: vec![elem("head", vec![], vec![elem(
            "link",
            vec![attr("rel", "stylesheet"), attr("href", "simple.css")],
            vec![],
        )])],
    };
    let run = || html_inline(build(), vec![], vec![Ok(String::from("  h1 { }  "))]);
    let (out1, fails1) = run();
    let (out2, fails2) = run();
    assert_eq!(fails1, fails2);
    let s1 = as_elem(&as_elem(&out1.nodes[0]).children[0]);
    let s2 = as_elem(&as_elem(&out2.nodes[0]).children[0]);
    assert_eq!(s1.name, s2.name);
    match (&s1.children[0], &s2.children[0]) {
        (Node::Text(a), Node::Text(b)) => {
            assert_eq!(a, b);
            assert_eq!(a, "h1 { }");
        },
        _ => panic!("expected text children"),
    }
}

#[test]
fn non_stylesheet_links_are_left_alone() {
    let doc = Document {
        nodes: vec![
            elem("link", vec![attr("rel", "icon"), attr("href", "i.png")], vec![]),
            elem("link", vec![attr("rel", "stylesheet")], vec![]),
        ],
    };
    assert!(style_requests(&doc).is_empty());
    let (out, fails) = html_inline(doc, vec![], vec![]);
    assert!(fails.is_empty());
    assert_eq!(as_elem(&out.nodes[0]).name, "link");
    assert_eq!(attr_of(as_elem(&out.nodes[0]), "href"), Some("i.png"));
    assert_eq!(as_elem(&out.nodes[1]).name, "link");
}

#[test]
fn one_failure_among_successes_logs_exactly_it() {
    let doc = Document {
        nodes: vec![
            elem("img", vec![attr("src", "ok.png")], vec![]),
            elem(
                "link",
                vec![attr("rel", "stylesheet"), attr("href", "gone.css")],
                vec![],
            ),
        ],
    };
    let (out, fails) = html_inline(
        doc,
        vec![Ok(white_pixel_png())],
        vec![Err(String::from("No such file or directory (os error 2)"))],
    );
    assert_eq!(
        fails,
        vec![String::from("style gone.css: No such file or directory (os error 2)")]
    );
    // The resolvable reference was still inlined.
    assert_eq!(attr_of(as_elem(&out.nodes[0]), "src"), Some(WHITE_PIXEL_URI));
    // The unresolvable link is still there, unchanged.
    let link = as_elem(&out.nodes[1]);
    assert_eq!(link.name, "link");
    assert_eq!(attr_of(link, "href"), Some("gone.css"));
}

#[test]
fn failures_come_in_document_order_images_first() {
    let doc = Document {
        nodes: vec![elem("body", vec![], vec![
            elem(
                "link",
                vec![attr("rel", "stylesheet"), attr("href", "s.css")],
                vec![],
            ),
            elem("img", vec![attr("src", "a.png")], vec![]),
            elem("div", vec![], vec![elem("img", vec![attr("src", "b.png")], vec![])]),
        ])],
    };
    assert_eq!(
        image_requests(&doc),
        vec![String::from("a.png"), String::from("b.png")]
    );
    assert_eq!(style_requests(&doc), vec![String::from("s.css")]);
    let (_out, fails) = html_inline(
        doc,
        vec![Err(String::from("e1")), Err(String::from("e2"))],
        vec![Err(String::from("e3"))],
    );
    assert_eq!(
        fails,
        vec![
            String::from("image a.png: e1"),
            String::from("image b.png: e2"),
            String::from("style s.css: e3"),
        ]
    );
}

#[test]
fn trim_strips_outer_white_space_only() {
    assert_eq!(trim("  h1 { color: blue; }\n\t"), "h1 { color: blue; }");
    assert_eq!(trim(""), "");
    assert_eq!(trim(" \t\r\n "), "");
    assert_eq!(trim("a  b"), "a  b");
    assert_eq!(trim("\u{a0}x\u{3000}"), "x");
}

#[test]
fn empty_document_is_unchanged() {
    let doc = Document { nodes: vec![] };
    assert!(image_requests(&doc).is_empty());
    assert!(style_requests(&doc).is_empty());
    let (out, fails) = html_inline(doc, vec![], vec![]);
    assert!(out.nodes.is_empty());
    assert!(fails.is_empty());
}

#[test]
fn img_without_src_is_not_selected() {
    let doc = Document {
        nodes: vec![elem("img", vec![attr("srcset", "a.png 2x")], vec![])],
    };
    assert!(image_requests(&doc).is_empty());
    let (out, fails) = html_inline(doc, vec![], vec![]);
    assert!(fails.is_empty());
    let img = as_elem(&out.nodes[0]);
    // Without a src the element is not processed, so even its srcset stays.
    assert_eq!(attr_of(img, "srcset"), Some("a.png 2x"));
}

#[test]
fn text_and_comments_pass_through() {
    let doc = Document {
        nodes: vec![
            Node::Doctype(html_inline::dom::Doctype {
                name: String::from("html"),
                public_id: String::new(),
                system_id: String::new(),
            }),
            Node::Comment(String::from(" a comment ")),
            Node::Text(String::from("plain text")),
        ],
    };
    assert!(image_requests(&doc).is_empty());
    assert!(style_requests(&doc).is_empty());
    let (out, fails) = html_inline(doc, vec![], vec![]);
    assert!(fails.is_empty());
    assert_eq!(out.nodes.len(), 3);
    match &out.nodes[2] {
        Node::Text(t) => assert_eq!(t, "plain text"),
        _ => panic!("expected the text node"),
    }
}
