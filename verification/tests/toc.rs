use repub::path::FilePath;
use repub::toc::{Elem, Element, TableOfContents, ToCItem, A, LI, OL};

/// Builds a list of three links by hand and a table of five top-level
/// headings, and shows both as markup.
#[test]
fn toc_test() {
    let mut ol = OL { elems: Vec::new(), hidden: false };
    for _ in 0..3 {
        let mut li = LI { elems: Vec::new() };
        let href = String::from("ex/am/ple");
        let text = String::from("SampleTitle");
        let a = A { href, text };
        li.push(Element::A(a));
        ol.push(Element::LI(li));
    }
    println!("{}", ol.to_html());
    assert_eq!(1, 1);

    let mut toc = TableOfContents::new();
    for _ in 0..5 {
        let tocc = ToCItem {
            items: Vec::new(),
            path_buf: FilePath::from_str("ex/am/ple"),
            id: Some(String::from("sample id")),
            title: String::from("sample title"),
            level: 1,
        };
        toc.insert(tocc);
    }
    println!("{}", toc.to_xhtml(2, &FilePath::from_str("ex")));
    assert_eq!(1, 1)
}
