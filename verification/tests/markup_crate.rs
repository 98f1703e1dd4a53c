use repub::error::ComposeError;
use repub::markup::{
    read_fragment, register_to, text_is_short, write_markup, DomAttribute, DomNode, NodeKind,
    QualifiedName, TEXT_LIMIT,
};
use repub::path::FilePath;
use repub::toc::TableOfContents;

fn attribute(name: &str, value: &str) -> DomAttribute {
    DomAttribute {
        name: QualifiedName { prefix: None, ns: String::new(), local: String::from(name) },
        value: String::from(value),
    }
}

/// Reads a list, gives the list at the top an identifier, and shows the
/// markup that is written for it.
#[test]
fn test_html5ever() {
    let html_data = "\
<ol>
    <li>
        <a href=\"IIIF_Images.xhtml#header-iiifのマニフェストからimageの一覧を引き出す\">IIIFのマニフェストからImageの一覧を引き出す</a>
    </li>
    <li>
        <a href=\"IIIF_Images.xhtml#header-知見\">知見</a>
        <ol>
            <li>
                <a href=\"IIIF_Images.xhtml#header-rustにおける実行時引数の取得\">Rustにおける実行時引数の取得</a>
            </li>
            <li>
                <a href=\"IIIF_Images.xhtml#header-serde_json\">serde_json</a>
                <ol hidden=\"hidden\">
                    <li>
                        <a href=\"IIIF_Images.xhtml#header-フィールドのrename\">フィールドのRename</a>
                    </li>
                    <li>
                        <a href=\"IIIF_Images.xhtml#header-deserializejson---struct時に余計なフィールドを無視する\">Deserialize(JSON -> Struct)時に、余計なフィールドを無視する</a>
                    </li>
                </ol>
            </li>
        </ol>
    </li>
</ol>
    ";
    let mut nodes = read_fragment(html_data, "body").unwrap();
    for child in nodes.iter_mut() {
        match &mut child.data {
            NodeKind::Element { name, attrs } => {
                if name.local == "ol" {
                    attrs.push(attribute("id", "new_id"));
                }
            },
            _ => {},
        }
    }
    let written = write_markup(&nodes).unwrap();
    println!("{}", written);
    assert!(written.starts_with("<ol id=\"new_id\">\n    <li>"));
    assert!(written.contains("Deserialize(JSON -&gt; Struct)"));
    assert_eq!(written.matches("<ol").count(), 3);
    assert_eq!(1, 1)
}

#[test]
fn markup_is_read_as_a_tree_of_plain_values() {
    let nodes = read_fragment("<p class=\"x\" id=y>a<!--c--><b>d</b></p>tail", "body").unwrap();
    assert_eq!(nodes.len(), 2);
    match &nodes[0].data {
        NodeKind::Element { name, attrs } => {
            assert_eq!(name.local, "p");
            assert_eq!(name.ns, "http://www.w3.org/1999/xhtml");
            assert!(name.prefix.is_none());
            let pairs: Vec<(&str, &str)> =
                attrs.iter().map(|a| (a.name.local.as_str(), a.value.as_str())).collect();
            assert_eq!(pairs, vec![("class", "x"), ("id", "y")]);
        },
        other => panic!("{:?}", other),
    }
    assert_eq!(nodes[0].children.len(), 3);
    assert!(matches!(&nodes[0].children[0].data, NodeKind::Text(t) if t == "a"));
    assert!(matches!(&nodes[0].children[1].data, NodeKind::Comment(c) if c == "c"));
    assert!(matches!(&nodes[0].children[2].data, NodeKind::Element { name, .. } if name.local == "b"));
    assert!(matches!(&nodes[1].data, NodeKind::Text(t) if t == "tail"));
    assert_eq!(write_markup(&nodes).unwrap(), "<p class=\"x\" id=\"y\">a<!--c--><b>d</b></p>tail");
}

#[test]
fn the_context_decides_how_markup_is_read() {
    let cell = "<td>x</td>";
    assert_eq!(write_markup(&read_fragment(cell, "tr").unwrap()).unwrap(), "<td>x</td>");
    assert_eq!(write_markup(&read_fragment(cell, "body").unwrap()).unwrap(), "x");
}

#[test]
fn what_cannot_be_written_is_not_written() {
    let root = DomNode { data: NodeKind::Document, children: Vec::new() };
    assert!(write_markup(&vec![root]).is_none());
    let hidden = DomNode {
        data: NodeKind::Text(String::from("t")),
        children: vec![DomNode { data: NodeKind::Document, children: Vec::new() }],
    };
    assert_eq!(write_markup(&vec![hidden]).unwrap(), "t");
    let inside = DomNode {
        data: NodeKind::Element {
            name: QualifiedName {
                prefix: None,
                ns: String::from("http://www.w3.org/1999/xhtml"),
                local: String::from("p"),
            },
            attrs: Vec::new(),
        },
        children: vec![DomNode { data: NodeKind::Document, children: Vec::new() }],
    };
    assert!(write_markup(&vec![inside]).is_none());
    let doctype = DomNode {
        data: NodeKind::Doctype {
            name: String::from("html"),
            public_id: String::new(),
            system_id: String::new(),
        },
        children: Vec::new(),
    };
    let instruction = DomNode {
        data: NodeKind::ProcessingInstruction {
            target: String::from("xml"),
            contents: String::from("v"),
        },
        children: Vec::new(),
    };
    assert_eq!(write_markup(&vec![doctype, instruction]).unwrap(), "<!DOCTYPE html><?xml v>");
    assert_eq!(write_markup(&Vec::new()).unwrap(), "");
}

#[test]
fn names_keep_their_namespace_and_prefix() {
    let source = "<svg viewBox=\"0 0 1 1\"><use xlink:href=\"#a\" xml:lang=\"en\"></use></svg><math><mi>x</mi></math>";
    let nodes = read_fragment(source, "body").unwrap();
    match &nodes[0].data {
        NodeKind::Element { name, attrs } => {
            assert_eq!(name.local, "svg");
            assert_eq!(name.ns, "http://www.w3.org/2000/svg");
            assert_eq!(attrs[0].name.local, "viewBox");
        },
        other => panic!("{:?}", other),
    }
    match &nodes[0].children[0].data {
        NodeKind::Element { attrs, .. } => {
            assert_eq!(attrs[0].name.local, "href");
            assert_eq!(attrs[0].name.ns, "http://www.w3.org/1999/xlink");
            assert_eq!(attrs[0].name.prefix.as_deref(), Some("xlink"));
            assert_eq!(attrs[1].name.ns, "http://www.w3.org/XML/1998/namespace");
        },
        other => panic!("{:?}", other),
    }
    assert_eq!(write_markup(&nodes).unwrap(), source);
}

#[test]
fn text_is_escaped_where_the_element_asks_for_it() {
    let source = "<p>a &lt; b &amp; c\u{a0}d</p><style>a > b { }</style><p title=\"x &quot; y\">q</p>";
    let nodes = read_fragment(source, "body").unwrap();
    assert!(matches!(&nodes[0].children[0].data, NodeKind::Text(t) if t == "a < b & c\u{a0}d"));
    assert_eq!(
        write_markup(&nodes).unwrap(),
        "<p>a &lt; b &amp; c&nbsp;d</p><style>a > b { }</style><p title=\"x &quot; y\">q</p>"
    );
}

#[test]
fn a_text_beyond_the_limit_is_neither_read_nor_written() {
    assert_eq!(TEXT_LIMIT, 1_073_741_823);
    assert!(text_is_short(""));
    assert!(text_is_short("short"));
    let long = "a".repeat(TEXT_LIMIT + 1);
    assert!(!text_is_short(&long));
    assert!(text_is_short(&long[1..]));
    assert!(read_fragment(&long, "body").is_none());
    let mut toc = TableOfContents::new();
    let refused = register_to(&mut toc, &long, &FilePath::from_str("OEBPS/a.xhtml"));
    assert!(matches!(refused, Err(ComposeError::TooLong)));
    assert_eq!(toc.size(), 0);
    let node = DomNode { data: NodeKind::Comment(long), children: Vec::new() };
    assert!(write_markup(&vec![node]).is_none());
}
