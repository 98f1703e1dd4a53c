use repub::path::FilePath;
use repub::toc::{Elem, Element, TableOfContents, ToCDummyItem, ToCItem, ToCItemTrait, A, LI, OL};

fn link(href: &str, text: &str) -> String {
    format!("<a href=\"{}\">{}</a>", href, text)
}

fn leaf(href: &str, text: &str) -> String {
    format!("<li>\n{}\n\n</li>", link(href, text))
}

#[test]
fn an_empty_table_has_no_markup() {
    let toc = TableOfContents::new();
    assert_eq!(toc.size(), 0);
    assert_eq!(toc.to_xhtml(2, &FilePath::from_str("OEBPS/navigation.xhtml")), "");
}

#[test]
fn the_anchors_count_the_nodes_that_were_there() {
    let mut toc = TableOfContents::new();
    let doc = FilePath::from_str("OEBPS/a.xhtml");
    assert_eq!(toc.push(1, String::from("one"), doc.clone()), "header0");
    assert_eq!(toc.size(), 1);
    assert_eq!(toc.push(2, String::from("two"), doc.clone()), "header1");
    assert_eq!(toc.push(1, String::from("three"), doc.clone()), "header2");
    assert_eq!(toc.size(), 3);
}

#[test]
fn a_skipped_level_gets_one_placeholder() {
    let mut toc = TableOfContents::new();
    let doc = FilePath::from_str("OEBPS/a.xhtml");
    assert_eq!(toc.push(1, String::from("A"), doc.clone()), "header0");
    assert_eq!(toc.push(3, String::from("C"), doc.clone()), "header1");
    // the heading, the placeholder for level 2, and the heading below it
    assert_eq!(toc.size(), 3);
    assert_eq!(toc.push(2, String::from("B"), doc.clone()), "header3");
    assert_eq!(toc.size(), 4);
    let nav = FilePath::from_str("OEBPS/navigation.xhtml");
    let below_placeholder = format!(
        "<li>\n<ol hidden=\"hidden\">\n{}\n</ol>\n</li>",
        leaf("a.xhtml#header1", "C")
    );
    let below_a = format!("<ol>\n{}\n{}\n</ol>", below_placeholder, leaf("a.xhtml#header3", "B"));
    let expected =
        format!("<ol>\n<li>\n{}\n{}\n</li>\n</ol>", link("a.xhtml#header0", "A"), below_a);
    assert_eq!(toc.to_xhtml(2, &nav), expected);
}

#[test]
fn a_first_heading_below_the_top_gets_a_placeholder_for_each_level_above() {
    let mut toc = TableOfContents::new();
    let doc = FilePath::from_str("OEBPS/a.xhtml");
    assert_eq!(toc.push(4, String::from("deep"), doc.clone()), "header0");
    assert_eq!(toc.size(), 4);
    assert_eq!(toc.push(5, String::from("deeper"), doc.clone()), "header4");
    assert_eq!(toc.size(), 5);
    let nav = FilePath::from_str("OEBPS/navigation.xhtml");
    let markup = toc.to_xhtml(5, &nav);
    assert_eq!(markup.matches("<li>").count(), 5);
    assert_eq!(markup.matches("<a ").count(), 2);
    assert_eq!(markup.matches("hidden").count(), 0);
}

#[test]
fn levels_from_the_depth_on_are_hidden_but_there() {
    let mut toc = TableOfContents::new();
    let doc = FilePath::from_str("OEBPS/a.xhtml");
    toc.push(1, String::from("A"), doc.clone());
    toc.push(2, String::from("B"), doc.clone());
    let nav = FilePath::from_str("OEBPS/navigation.xhtml");
    let shown = format!(
        "<ol>\n<li>\n{}\n<ol>\n{}\n</ol>\n</li>\n</ol>",
        link("a.xhtml#header0", "A"),
        leaf("a.xhtml#header1", "B")
    );
    assert_eq!(toc.to_xhtml(2, &nav), shown);
    let hidden = format!(
        "<ol>\n<li>\n{}\n<ol hidden=\"hidden\">\n{}\n</ol>\n</li>\n</ol>",
        link("a.xhtml#header0", "A"),
        leaf("a.xhtml#header1", "B")
    );
    assert_eq!(toc.to_xhtml(1, &nav), hidden);
    let all_hidden = format!(
        "<ol hidden=\"hidden\">\n<li>\n{}\n<ol hidden=\"hidden\">\n{}\n</ol>\n</li>\n</ol>",
        link("a.xhtml#header0", "A"),
        leaf("a.xhtml#header1", "B")
    );
    assert_eq!(toc.to_xhtml(0, &nav), all_hidden);
}

#[test]
fn a_link_leads_from_the_navigation_document_to_the_heading() {
    let mut toc = TableOfContents::new();
    toc.push(1, String::from("A"), FilePath::from_str("OEBPS/text/ch1.xhtml"));
    let nav = FilePath::from_str("OEBPS/navigation.xhtml");
    assert_eq!(
        toc.to_xhtml(2, &nav),
        format!("<ol>\n{}\n</ol>", leaf("text/ch1.xhtml#header0", "A"))
    );
    let elsewhere = FilePath::from_str("OEBPS/nav/navigation.xhtml");
    assert_eq!(
        toc.to_xhtml(2, &elsewhere),
        format!("<ol>\n{}\n</ol>", leaf("../text/ch1.xhtml#header0", "A"))
    );
}

#[test]
fn a_link_without_a_relative_path_has_an_empty_target() {
    let mut toc = TableOfContents::new();
    toc.push(1, String::from("A"), FilePath::from_str("/abs/ch1.xhtml"));
    let nav = FilePath::from_str("OEBPS/navigation.xhtml");
    assert_eq!(toc.to_xhtml(2, &nav), format!("<ol>\n{}\n</ol>", leaf("", "A")));
    let item = ToCItem {
        items: vec![],
        path_buf: FilePath::from_str("a.xhtml"),
        id: Some(String::from("header0")),
        title: String::from("T"),
        level: 1,
    };
    let a = item.to_a(&FilePath::from_str("/abs/navigation.xhtml")).unwrap();
    assert_eq!(a.text, "T");
    assert_eq!(a.href, "");
}

#[test]
fn a_prepared_heading_keeps_its_anchor() {
    let mut toc = TableOfContents::new();
    let item = ToCItem::new(
        2,
        String::from("title"),
        FilePath::from_str("ex/am/ple"),
        Some(String::from("sample id")),
    );
    assert_eq!(item.level(), 2);
    assert!(!item.is_dummy());
    assert_eq!(item.size(), 1);
    assert!(item.items().is_empty());
    let a = item.to_a(&FilePath::from_str("ex")).unwrap();
    assert_eq!(a.href, "am/ple#sample id");
    assert_eq!(a.text, "title");
    toc.insert(item);
    assert_eq!(toc.size(), 2);
    let without = ToCItem::new(1, String::from("t"), FilePath::from_str("ex/a.xhtml"), None);
    assert_eq!(without.to_a(&FilePath::from_str("ex")).unwrap().href, "a.xhtml#");
}

#[test]
fn a_placeholder_has_no_link_and_takes_headings() {
    let mut dummy = ToCDummyItem::new(1);
    assert!(dummy.is_dummy());
    assert_eq!(dummy.level(), 1);
    assert_eq!(dummy.size(), 1);
    assert!(dummy.to_a(&FilePath::from_str("ex")).is_none());
    dummy.push(ToCItem::new(3, String::from("t"), FilePath::from_str("ex/a.xhtml"), None));
    assert_eq!(dummy.size(), 3);
    assert_eq!(dummy.items().len(), 1);
    let li = dummy.to_xhtml_elem(9, &FilePath::from_str("ex"));
    assert_eq!(
        li.to_html(),
        "<li>\n<ol>\n<li>\n<ol>\n<li>\n<a href=\"a.xhtml#\">t</a>\n\n</li>\n</ol>\n</li>\n</ol>\n</li>"
    );
}

#[test]
fn a_heading_takes_deeper_headings_below_itself() {
    let mut item = ToCItem::new(1, String::from("A"), FilePath::from_str("ex/a.xhtml"), None);
    item.push(ToCItem::new(2, String::from("B"), FilePath::from_str("ex/a.xhtml"), None));
    item.push(ToCItem::new(2, String::from("C"), FilePath::from_str("ex/a.xhtml"), None));
    assert_eq!(item.size(), 3);
    assert_eq!(item.items().len(), 2);
}

#[test]
fn elements_are_written_as_they_nest() {
    let a = A { href: String::from("x#y"), text: String::from("T") };
    assert_eq!(a.to_html(), "<a href=\"x#y\">T</a>");
    assert!(a.elems().is_none());
    let mut li = LI { elems: Vec::new() };
    assert_eq!(li.to_html(), "<li>\n\n</li>");
    li.push(Element::A(a));
    assert_eq!(li.to_html(), "<li>\n<a href=\"x#y\">T</a>\n</li>");
    assert_eq!(li.elems().unwrap().len(), 1);
    let mut ol = OL { elems: Vec::new(), hidden: true };
    assert_eq!(ol.to_html(), "");
    ol.push(Element::LI(li));
    assert_eq!(ol.to_html(), "<ol hidden=\"hidden\">\n<li>\n<a href=\"x#y\">T</a>\n</li>\n</ol>");
    ol.push(Element::LI(LI { elems: Vec::new() }));
    assert_eq!(
        ol.to_html(),
        "<ol hidden=\"hidden\">\n<li>\n<a href=\"x#y\">T</a>\n</li>\n<li>\n\n</li>\n</ol>"
    );
    let elem = TableOfContents::new().to_xhtml_elem(0, &FilePath::from_str("ex"));
    assert!(elem.hidden);
    assert!(elem.elems.is_empty());
}
