use repub::error::ComposeError;
use repub::markup::{
    close_void_elements, heading_level, index_headings, node_text, register_to, DomAttribute,
    DomNode, NodeKind, QualifiedName,
};
use repub::message::RepubLogStatus;
use repub::path::FilePath;
use repub::toc::TableOfContents;

fn element(local: &str, children: Vec<DomNode>) -> DomNode {
    DomNode {
        data: NodeKind::Element {
            name: QualifiedName {
                prefix: None,
                ns: String::from("http://www.w3.org/1999/xhtml"),
                local: String::from(local),
            },
            attrs: Vec::new(),
        },
        children,
    }
}

fn text(content: &str) -> DomNode {
    DomNode { data: NodeKind::Text(String::from(content)), children: Vec::new() }
}

#[test]
fn only_the_first_five_levels_are_headings() {
    assert_eq!(heading_level("h1"), Some(1));
    assert_eq!(heading_level("h2"), Some(2));
    assert_eq!(heading_level("h3"), Some(3));
    assert_eq!(heading_level("h4"), Some(4));
    assert_eq!(heading_level("h5"), Some(5));
    assert_eq!(heading_level("h6"), None);
    assert_eq!(heading_level("H1"), None);
    assert_eq!(heading_level("p"), None);
    assert_eq!(heading_level(""), None);
}

#[test]
fn the_text_of_a_node_is_all_text_below_it() {
    let node = element(
        "h1",
        vec![text("a "), element("em", vec![text("b"), element("b", vec![text("c")])]), text(" d")],
    );
    let mut out = String::from(">");
    node_text(&node, &mut out);
    assert_eq!(out, ">a bc d");
    let comment = DomNode { data: NodeKind::Comment(String::from("no")), children: Vec::new() };
    let mut out = String::new();
    node_text(&comment, &mut out);
    assert_eq!(out, "");
}

#[test]
fn headings_at_the_top_are_indexed_and_marked() {
    let mut toc = TableOfContents::new();
    let nodes = vec![
        element("h1", vec![text("One <1>")]),
        element("p", vec![element("h2", vec![text("inside")])]),
        text("loose"),
        element("h3", vec![text("Three")]),
    ];
    let path = FilePath::from_str("OEBPS/text/ch1.xhtml");
    let (marked, logs) = index_headings(&mut toc, nodes, &path);
    assert_eq!(marked.len(), 4);
    let ids: Vec<Option<String>> = marked
        .iter()
        .map(|node| match &node.data {
            NodeKind::Element { attrs, .. } => attrs.last().map(|a: &DomAttribute| {
                assert_eq!(a.name.local, "id");
                assert_eq!(a.name.ns, "");
                assert!(a.name.prefix.is_none());
                a.value.clone()
            }),
            _ => None,
        })
        .collect();
    assert_eq!(
        ids,
        vec![Some(String::from("header0")), None, None, Some(String::from("header1"))]
    );
    // the first heading, a placeholder for level 2, and the third-level heading
    assert_eq!(toc.size(), 3);
    assert_eq!(logs.len(), 2);
    assert_eq!(logs[0].0, RepubLogStatus::Indexed);
    assert_eq!(logs[0].1, "# One &lt;1&gt; (ch1.xhtml)");
    assert_eq!(logs[1].1, "### Three (ch1.xhtml)");
    let nav = FilePath::from_str("OEBPS/navigation.xhtml");
    assert!(toc.to_xhtml(5, &nav).contains("<a href=\"text/ch1.xhtml#header0\">One &lt;1&gt;</a>"));
}

#[test]
fn elements_without_an_end_tag_are_closed_in_place() {
    assert_eq!(close_void_elements("<p>a<br>b</p>"), "<p>a<br />b</p>");
    assert_eq!(close_void_elements("<img src=\"a.png\"><hr>"), "<img src=\"a.png\" /><hr />");
    assert_eq!(close_void_elements("<p>plain</p>"), "<p>plain</p>");
    assert_eq!(close_void_elements(""), "");
    assert_eq!(close_void_elements("no tags > here"), "no tags > here");
    // a piece is told by how it begins, and only its first `>` is replaced
    assert_eq!(close_void_elements("<br>a > b"), "<br />a > b");
    assert_eq!(close_void_elements("<hrx>"), "<hrx />");
    assert_eq!(close_void_elements("brisk > walk"), "brisk  /> walk");
    assert_eq!(close_void_elements("<br"), "<br");
}

#[test]
fn a_document_is_read_marked_and_written_again() {
    let mut toc = TableOfContents::new();
    let path = FilePath::from_str("OEBPS/ch1.xhtml");
    let source = "<h1>Title &amp; <em>more</em></h1>\n<p>first<br>second</p>\n<img src=\"a.png\" alt=\"x\"><h2 class=\"c\">Sub</h2>";
    let (body, logs) = register_to(&mut toc, source, &path).unwrap();
    assert_eq!(
        body,
        "<h1 id=\"header0\">Title &amp; <em>more</em></h1>\n<p>first<br />second</p>\n<img src=\"a.png\" alt=\"x\" /><h2 class=\"c\" id=\"header1\">Sub</h2>"
    );
    assert_eq!(toc.size(), 2);
    assert_eq!(logs.len(), 2);
    assert_eq!(logs[0].1, "# Title & more (ch1.xhtml)");
    assert_eq!(logs[1].1, "## Sub (ch1.xhtml)");
    let second = "<h1>Next</h1>";
    let (body, _) = register_to(&mut toc, second, &path).unwrap();
    assert_eq!(body, "<h1 id=\"header2\">Next</h1>");
}

#[test]
fn what_is_read_is_a_tree_and_not_the_text() {
    let mut toc = TableOfContents::new();
    let path = FilePath::from_str("OEBPS/ch1.xhtml");
    // the reader closes the paragraph and the writer escapes the angle bracket
    let (body, _) = register_to(&mut toc, "<p>a > b<p>c", &path).unwrap();
    assert_eq!(body, "<p>a &gt; b</p><p>c</p>");
    let (body, _) = register_to(&mut toc, "<!-- note --><svg><circle r=\"1\"/></svg>", &path).unwrap();
    assert_eq!(body, "<!-- note --><svg><circle r=\"1\"></circle></svg>");
    assert_eq!(toc.size(), 0);
}

#[test]
fn an_error_names_what_went_wrong() {
    let path = FilePath::from_str("a/b.x");
    let cases = [
        (ComposeError::Unsupported(String::from("txt")), "unsupported extension: txt"),
        (ComposeError::NoExtension(path.clone()), "no extension: a/b.x"),
        (ComposeError::NotContent(String::from("png")), "not a content format: png"),
        (ComposeError::Missing(path.clone()), "does not exist: a/b.x"),
        (ComposeError::NotAFile(path.clone()), "not a file: a/b.x"),
        (
            ComposeError::Unrelated(path.clone(), FilePath::from_str("/c")),
            "no relative path from a/b.x to /c",
        ),
        (
            ComposeError::WritingMode(String::from("up")),
            "writing mode must be htb, vrl or vlr: up",
        ),
        (ComposeError::MissingValue(String::from("title")), "missing value: title"),
        (ComposeError::NotMarkdown(path.clone()), "not a .md file: a/b.x"),
        (ComposeError::TooManyHeadings, "too many headings"),
        (ComposeError::TooLong, "too long to be read or written as markup"),
        (ComposeError::NotATime(String::from("noon")), "not a time: noon"),
        (ComposeError::NoText(path.clone()), "the text was not read: a/b.x"),
        (ComposeError::OutOfOrder, "the steps were taken out of order"),
    ];
    for (error, message) in cases {
        assert_eq!(error.message(), message);
    }
}
