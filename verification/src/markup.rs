//! Markup as a tree: read and written by the `html5ever` crate, and held here
//! as plain values, so that the headings can be found and marked in it.

use crate::error::ComposeError;
use crate::message::RepubLog;
use crate::path::{file_name_of, FilePath};
use crate::text::{
    angles_escaped, begins_with, escape_angles, first_replaced, join, joined, pieces,
    replace_first, split, starts_with, str_eq,
};
use crate::toc::{
    forest_count, fragment_id_text, heading_entry, lemma_placed_count, placed, Entry,
    TableOfContents,
};
use html5ever::tendril::TendrilSink;
use markup5ever_rcdom::{Node, NodeData};
use std::cell::RefCell;
use std::rc::Rc;
use vstd::prelude::*;

verus! {

/// The namespace of the elements of a content document.
pub const HTML_NAMESPACE: &'static str = "http://www.w3.org/1999/xhtml";

/// The element in which the markup of a content document is read.
pub const FRAGMENT_CONTEXT: &'static str = "body";

/// A node of the tree that `markup5ever_rcdom` builds.
#[verifier::external_type_specification]
#[verifier::external_body]
pub struct ExNode(Node);

/// What a node of the tree that `markup5ever_rcdom` builds holds.
#[verifier::external_type_specification]
#[verifier::external_body]
pub struct ExNodeData(NodeData);

/// The name of an element or attribute in `html5ever`.
#[verifier::external_type_specification]
#[verifier::external_body]
pub struct ExQualName(html5ever::QualName);

/// An attribute in `html5ever`.
#[verifier::external_type_specification]
#[verifier::external_body]
pub struct ExAttribute(html5ever::Attribute);

/// The name of an element or an attribute: the local name, the namespace it
/// belongs to, and the prefix it was written with.
#[derive(Debug)]
pub struct QualifiedName {
    pub prefix: Option<String>,
    pub ns: String,
    pub local: String,
}

/// An attribute of an element.
#[derive(Debug)]
pub struct DomAttribute {
    pub name: QualifiedName,
    pub value: String,
}

/// What a node is.
#[derive(Debug)]
#[allow(inconsistent_fields)]
pub enum NodeKind {
    /// The root of a document.
    Document,
    /// A document type declaration.
    Doctype { name: String, public_id: String, system_id: String },
    /// Text.
    Text(String),
    /// A comment.
    Comment(String),
    /// An element.
    Element { name: QualifiedName, attrs: Vec<DomAttribute> },
    /// A processing instruction.
    ProcessingInstruction { target: String, contents: String },
}

/// A node of a markup tree, with the nodes below it.
#[derive(Debug)]
pub struct DomNode {
    pub data: NodeKind,
    pub children: Vec<DomNode>,
}

/// What a name is.
pub ghost struct Name {
    pub prefix: Option<Seq<char>>,
    pub ns: Seq<char>,
    pub local: Seq<char>,
}

/// What an attribute is.
pub ghost struct Attr {
    pub name: Name,
    pub value: Seq<char>,
}

/// What a node holds.
#[allow(inconsistent_fields)]
pub ghost enum Kind {
    Document,
    Doctype { name: Seq<char>, public_id: Seq<char>, system_id: Seq<char> },
    Text(Seq<char>),
    Comment(Seq<char>),
    Element { name: Name, attrs: Seq<Attr> },
    ProcessingInstruction { target: Seq<char>, contents: Seq<char> },
}

/// What a node is, with all below it.
pub ghost struct Tree {
    pub data: Kind,
    pub children: Seq<Tree>,
}

impl View for QualifiedName {
    type V = Name;

    open spec fn view(&self) -> Name {
        Name { prefix: crate::path::opt_text(self.prefix), ns: self.ns@, local: self.local@ }
    }
}

impl View for DomAttribute {
    type V = Attr;

    open spec fn view(&self) -> Attr {
        Attr { name: self.name@, value: self.value@ }
    }
}

/// The views of a list of attributes.
pub open spec fn attrs_view(attrs: Seq<DomAttribute>) -> Seq<Attr> {
    Seq::new(attrs.len(), |i: int| attrs[i]@)
}

impl View for NodeKind {
    type V = Kind;

    open spec fn view(&self) -> Kind {
        match self {
            NodeKind::Document => Kind::Document,
            NodeKind::Doctype { name, public_id, system_id } => Kind::Doctype {
                name: name@,
                public_id: public_id@,
                system_id: system_id@,
            },
            NodeKind::Text(text) => Kind::Text(text@),
            NodeKind::Comment(text) => Kind::Comment(text@),
            NodeKind::Element { name, attrs } => Kind::Element {
                name: name@,
                attrs: attrs_view(attrs@),
            },
            NodeKind::ProcessingInstruction { target, contents } => Kind::ProcessingInstruction {
                target: target@,
                contents: contents@,
            },
        }
    }
}

/// The views of a list of nodes.
pub open spec fn trees_view(nodes: Seq<DomNode>) -> Seq<Tree>
    decreases nodes,
{
    if nodes.len() == 0 {
        Seq::empty()
    } else {
        trees_view(nodes.drop_last()).push(nodes.last()@)
    }
}

impl View for DomNode {
    type V = Tree;

    open spec fn view(&self) -> Tree
        decreases self,
    {
        Tree { data: self.data@, children: trees_view(self.children@) }
    }
}

/// The view of a list of nodes holds the view of each node, in order.
pub proof fn lemma_trees_view(nodes: Seq<DomNode>)
    ensures
        trees_view(nodes).len() == nodes.len(),
        forall|i: int| 0 <= i < nodes.len() ==> trees_view(nodes)[i] == (#[trigger] nodes[i])@,
    decreases nodes.len(),
{
    if nodes.len() > 0 {
        lemma_trees_view(nodes.drop_last());
        assert(trees_view(nodes) == trees_view(nodes.drop_last()).push(nodes.last()@));
        assert forall|i: int| 0 <= i < nodes.len() implies trees_view(nodes)[i] == (
        #[trigger] nodes[i])@ by {
            if i < nodes.len() - 1 {
                assert(nodes.drop_last()[i] == nodes[i]);
            }
        }
    }
}

/// One more node at the end gives one more tree at the end.
pub proof fn lemma_trees_view_push(nodes: Seq<DomNode>, node: DomNode)
    ensures
        trees_view(nodes.push(node)) == trees_view(nodes).push(node@),
{
    assert(nodes.push(node).drop_last() == nodes);
    assert(nodes.push(node).last() == node);
}

/// Whether a tree can be written as markup: it is no document root, and
/// where it is an element, all below it can be written too.
pub open spec fn can_be_written(tree: Tree) -> bool
    decreases tree,
{
    tree.data !is Document && (tree.data is Element ==> forall|i: int|
        0 <= i < tree.children.len() ==> can_be_written(#[trigger] tree.children[i]))
}

/// Whether all of `trees` can be written as markup.
pub open spec fn all_can_be_written(trees: Seq<Tree>) -> bool {
    forall|i: int| 0 <= i < trees.len() ==> can_be_written(#[trigger] trees[i])
}

/// The most characters that a text may have to be handed to the markup
/// reader or writer: they hold no text of more than `u32::MAX` bytes, and a
/// character takes four bytes at most.
pub const TEXT_LIMIT: usize = 0x3FFF_FFFF;

/// Whether a text is short enough for the markup reader and writer.
pub open spec fn text_fits(text: Seq<char>) -> bool {
    4 * text.len() <= u32::MAX
}

/// Whether the value of each attribute is short enough.
pub open spec fn attrs_fit(attrs: Seq<Attr>) -> bool {
    forall|i: int| 0 <= i < attrs.len() ==> text_fits((#[trigger] attrs[i]).value)
}

/// Whether each text that a node holds is short enough.
pub open spec fn kind_fits(kind: Kind) -> bool {
    match kind {
        Kind::Document => true,
        Kind::Doctype { name, public_id, system_id } => text_fits(name) && text_fits(public_id)
            && text_fits(system_id),
        Kind::Text(text) => text_fits(text),
        Kind::Comment(text) => text_fits(text),
        Kind::Element { attrs, .. } => attrs_fit(attrs),
        Kind::ProcessingInstruction { target, contents } => text_fits(target) && text_fits(
            contents,
        ),
    }
}

/// Whether each text in a node and in all below it is short enough.
pub open spec fn tree_fits(tree: Tree) -> bool
    decreases tree,
{
    kind_fits(tree.data) && forall|i: int|
        0 <= i < tree.children.len() ==> tree_fits(#[trigger] tree.children[i])
}

/// Whether each text in all of `trees` is short enough.
pub open spec fn all_fit(trees: Seq<Tree>) -> bool {
    forall|i: int| 0 <= i < trees.len() ==> tree_fits(#[trigger] trees[i])
}

/// The nodes that `html5ever::parse_fragment` reads from a piece of markup,
/// inside an element of the name and namespace given: the nodes below the
/// root of the tree that it builds.
pub uninterp spec fn parsed_fragment(
    html: Seq<char>,
    namespace: Seq<char>,
    context: Seq<char>,
    scripting: bool,
) -> Seq<Tree>;

/// The markup that `html5ever::serialize` writes for a list of nodes.
pub uninterp spec fn serialized_markup(nodes: Seq<Tree>) -> Seq<char>;

/// Converts a name of `html5ever` into a name of this library, part by part.
#[verifier::external_body]
fn name_from_qual(name: &html5ever::QualName) -> QualifiedName {
    QualifiedName {
        prefix: name.prefix.as_ref().map(|p| p.to_string()),
        ns: name.ns.to_string(),
        local: name.local.to_string(),
    }
}

/// Converts a name of this library into a name of `html5ever`, part by part.
#[verifier::external_body]
fn qual_from_name(name: &QualifiedName) -> html5ever::QualName {
    html5ever::QualName::new(
        name.prefix.as_ref().map(|p| html5ever::Prefix::from(p.as_str())),
        html5ever::Namespace::from(name.ns.as_str()),
        html5ever::LocalName::from(name.local.as_str()),
    )
}

/// Converts an attribute of `html5ever` into an attribute of this library.
#[verifier::external_body]
fn attribute_from(attr: &html5ever::Attribute) -> DomAttribute {
    DomAttribute { name: name_from_qual(&attr.name), value: attr.value.to_string() }
}

/// Converts an attribute of this library into an attribute of `html5ever`.
/// The value becomes a tendril, which holds no text beyond its limit.
#[verifier::external_body]
fn attribute_to(attr: &DomAttribute) -> html5ever::Attribute
    requires
        text_fits(attr@.value),
{
    html5ever::Attribute { name: qual_from_name(&attr.name), value: attr.value.as_str().into() }
}

/// Converts what a node of `markup5ever_rcdom` holds into the same kind of
/// this library, field by field.
#[verifier::external_body]
fn kind_from_data(data: &NodeData) -> NodeKind {
    match data {
        NodeData::Document => NodeKind::Document,
        NodeData::Doctype { name, public_id, system_id } => NodeKind::Doctype { name: name.to_string(), public_id: public_id.to_string(), system_id: system_id.to_string() },
        NodeData::Text { contents } => NodeKind::Text(contents.borrow().to_string()),
        NodeData::Comment { contents } => NodeKind::Comment(contents.to_string()),
        NodeData::Element { name, attrs, .. } => NodeKind::Element { name: name_from_qual(name), attrs: attrs.borrow().iter().map(attribute_from).collect() },
        NodeData::ProcessingInstruction { target, contents } => NodeKind::ProcessingInstruction { target: target.to_string(), contents: contents.to_string() },
    }
}

/// Makes what an element node of `markup5ever_rcdom` holds from the name and
/// the attributes of an element of this library; it gets no template
/// contents, and is no integration point. The values of the attributes
/// become tendrils.
#[verifier::external_body]
fn element_data(name: &QualifiedName, attrs: &Vec<DomAttribute>) -> NodeData
    requires
        attrs_fit(attrs_view(attrs@)),
{
    NodeData::Element {
        name: qual_from_name(name),
        attrs: RefCell::new(attrs.iter().map(attribute_to).collect()),
        template_contents: RefCell::new(None),
        mathml_annotation_xml_integration_point: false,
    }
}

/// Converts what a node of this library holds into the same kind of
/// `markup5ever_rcdom`, field by field. Each text becomes a tendril, which
/// holds no text beyond its limit.
#[verifier::external_body]
fn data_from_kind(kind: &NodeKind) -> NodeData
    requires
        kind_fits(kind@),
{
    match kind {
        NodeKind::Document => NodeData::Document,
        NodeKind::Doctype { name, public_id, system_id } => NodeData::Doctype { name: name.as_str().into(), public_id: public_id.as_str().into(), system_id: system_id.as_str().into() },
        NodeKind::Text(text) => NodeData::Text { contents: RefCell::new(text.as_str().into()) },
        NodeKind::Comment(text) => NodeData::Comment { contents: text.as_str().into() },
        NodeKind::Element { name, attrs } => element_data(name, attrs),
        NodeKind::ProcessingInstruction { target, contents } => NodeData::ProcessingInstruction { target: target.as_str().into(), contents: contents.as_str().into() },
    }
}

/// Converts a node of `markup5ever_rcdom`, with all below it, into a node of
/// this library.
#[verifier::external_body]
fn node_from_handle(handle: &Node) -> DomNode {
    DomNode {
        data: kind_from_data(&handle.data),
        children: handle.children.borrow().iter().map(|child| node_from_handle(child)).collect(),
    }
}

/// Converts a node of this library, with all below it, into a node of
/// `markup5ever_rcdom`; each text in it becomes a tendril.
#[verifier::external_body]
fn handle_from_node(node: &DomNode) -> Rc<Node>
    requires
        tree_fits(node@),
{
    let handle = Node::new(data_from_kind(&node.data));
    handle.children.borrow_mut().extend(node.children.iter().map(handle_from_node));
    handle
}

/// Reads a piece of markup by `html5ever::parse_fragment`, inside an element
/// of the name and namespace given and with the crate's default options, and
/// returns the nodes below the root of the tree. What the nodes are is up to
/// the crate; it builds no document root below another node, so all of them
/// can be written again. The markup is handed over as a tendril, which holds
/// no text beyond its limit.
#[verifier::external_body]
pub(crate) fn parse_fragment_nodes(
    html: &str,
    namespace: &str,
    context: &str,
    scripting: bool,
) -> (nodes: Vec<DomNode>)
    requires
        text_fits(html@),
    ensures
        trees_view(nodes@) == parsed_fragment(html@, namespace@, context@, scripting),
        all_can_be_written(trees_view(nodes@)),
{
    let name = html5ever::QualName::new(None, html5ever::Namespace::from(namespace), html5ever::LocalName::from(context));
    let dom = html5ever::parse_fragment(markup5ever_rcdom::RcDom::default(), html5ever::ParseOpts::default(), name, Vec::new(), scripting).one(html);
    let root = dom.document.children.borrow()[0].clone();
    let nodes = root.children.borrow().iter().map(|child| node_from_handle(child)).collect();
    nodes
}

/// Writes nodes as markup by `html5ever::serialize`, with the crate's default
/// options. The text is up to the crate; it cannot write a document root, and
/// it takes each text of the nodes as a tendril.
#[verifier::external_body]
pub(crate) fn serialize_nodes(nodes: &Vec<DomNode>) -> (html: String)
    requires
        all_can_be_written(trees_view(nodes@)),
        all_fit(trees_view(nodes@)),
    ensures
        html@ == serialized_markup(trees_view(nodes@)),
{
    let root = Node::new(NodeData::Document);
    root.children.borrow_mut().extend(nodes.iter().map(handle_from_node));
    let mut bytes: Vec<u8> = Vec::new();
    let handle = markup5ever_rcdom::SerializableHandle::from(root);
    html5ever::serialize(&mut bytes, &handle, html5ever::serialize::SerializeOpts::default()).unwrap();
    String::from_utf8(bytes).unwrap()
}

/// The heading level that a local name stands for: `h1` to `h5`.
pub open spec fn level_of_local(local: Seq<char>) -> Option<u8> {
    if local == "h1"@ {
        Some(1u8)
    } else if local == "h2"@ {
        Some(2u8)
    } else if local == "h3"@ {
        Some(3u8)
    } else if local == "h4"@ {
        Some(4u8)
    } else if local == "h5"@ {
        Some(5u8)
    } else {
        None
    }
}

/// The heading level of a node: that of its local name, where it is an
/// element.
pub open spec fn heading_level_of(tree: Tree) -> Option<u8> {
    match tree.data {
        Kind::Element { name, .. } => level_of_local(name.local),
        _ => None,
    }
}

/// All text in and below a node, in document order.
pub open spec fn text_of(tree: Tree) -> Seq<char>
    decreases tree,
{
    let own = match tree.data {
        Kind::Text(text) => text,
        _ => Seq::empty(),
    };
    own + texts_of(tree.children)
}

/// All text in and below the nodes, in document order.
pub open spec fn texts_of(trees: Seq<Tree>) -> Seq<char>
    decreases trees,
{
    if trees.len() == 0 {
        Seq::empty()
    } else {
        texts_of(trees.drop_last()) + text_of(trees.last())
    }
}

/// The attribute that names the anchor of an element.
pub open spec fn id_attr(id: Seq<char>) -> Attr {
    Attr { name: Name { prefix: None, ns: Seq::empty(), local: "id"@ }, value: id }
}

/// An element with one more attribute behind those it has; any other node as
/// it is.
pub open spec fn with_attr(tree: Tree, attr: Attr) -> Tree {
    match tree.data {
        Kind::Element { name, attrs } => Tree {
            data: Kind::Element { name, attrs: attrs.push(attr) },
            children: tree.children,
        },
        _ => tree,
    }
}

/// `n` number signs.
pub open spec fn hashes(n: nat) -> Seq<char> {
    Seq::new(n, |i: int| '#')
}

/// The report that a heading was taken into the table of contents: as many
/// number signs as its level, its title, and the name of the file in brackets.
pub open spec fn heading_log(level: u8, title: Seq<char>, path: Seq<Seq<char>>) -> Seq<char> {
    let file = match file_name_of(path) {
        Some(name) => name,
        None => Seq::empty(),
    };
    hashes(level as nat) + " "@ + title + " ("@ + file + ")"@
}

/// What comes of a document when its headings are taken into a table of
/// contents.
pub ghost struct Indexed {
    /// The table of contents afterwards.
    pub toc: Seq<Entry>,
    /// The nodes of the document, each heading with its anchor.
    pub nodes: Seq<Tree>,
    /// The reports, one for each heading.
    pub logs: Seq<Seq<char>>,
}

/// What comes of the top-level nodes of a document at `path` when its
/// headings are taken, in order, into the table of contents `toc`: every
/// top-level element `h1` to `h5` is pushed with its level, its text with
/// the angle brackets escaped as its title, and gets the anchor that the
/// push returns as a new last attribute `id`; all other nodes stay as they
/// are.
pub open spec fn indexed(toc: Seq<Entry>, nodes: Seq<Tree>, path: Seq<Seq<char>>) -> Indexed
    decreases nodes.len(),
{
    if nodes.len() == 0 {
        Indexed { toc, nodes: Seq::empty(), logs: Seq::empty() }
    } else {
        let before = indexed(toc, nodes.drop_last(), path);
        let node = nodes.last();
        match heading_level_of(node) {
            Some(level) => {
                let id = fragment_id_text(forest_count(before.toc));
                let title = angles_escaped(text_of(node));
                Indexed {
                    toc: placed(before.toc, 0, heading_entry(level, title, Some(id), path)),
                    nodes: before.nodes.push(with_attr(node, id_attr(id))),
                    logs: before.logs.push(heading_log(level, title, path)),
                }
            },
            None => Indexed {
                toc: before.toc,
                nodes: before.nodes.push(node),
                logs: before.logs,
            },
        }
    }
}

/// The texts of a list of progress reports.
pub open spec fn log_texts(logs: Seq<RepubLog>) -> Seq<Seq<char>> {
    Seq::new(logs.len(), |i: int| logs[i].1@)
}

/// Whether all of `logs` report a heading.
pub open spec fn all_indexed(logs: Seq<RepubLog>) -> bool {
    forall|i: int| 0 <= i < logs.len() ==> (#[trigger] logs[i]).0 is Indexed
}

/// Taking the headings of a document adds at most five nodes for each node of
/// the document to the table of contents, and never removes one.
pub proof fn lemma_indexed_count(toc: Seq<Entry>, nodes: Seq<Tree>, path: Seq<Seq<char>>)
    ensures
        forest_count(toc) <= forest_count(indexed(toc, nodes, path).toc),
        forest_count(indexed(toc, nodes, path).toc) <= forest_count(toc) + 5 * nodes.len(),
        indexed(toc, nodes, path).nodes.len() == nodes.len(),
    decreases nodes.len(),
{
    if nodes.len() > 0 {
        lemma_indexed_count(toc, nodes.drop_last(), path);
        let before = indexed(toc, nodes.drop_last(), path);
        let node = nodes.last();
        match heading_level_of(node) {
            Some(level) => {
                let id = fragment_id_text(forest_count(before.toc));
                let title = angles_escaped(text_of(node));
                let item = heading_entry(level, title, Some(id), path);
                assert(forest_count(Seq::<Entry>::empty()) == 0);
                assert(crate::toc::node_count(item) == 1);
                lemma_placed_count(before.toc, 0, item);
            },
            None => {},
        }
    }
}

/// Marking the headings leaves every node writable.
pub proof fn lemma_indexed_written(toc: Seq<Entry>, nodes: Seq<Tree>, path: Seq<Seq<char>>)
    requires
        all_can_be_written(nodes),
    ensures
        all_can_be_written(indexed(toc, nodes, path).nodes),
    decreases nodes.len(),
{
    if nodes.len() > 0 {
        lemma_indexed_count(toc, nodes.drop_last(), path);
        assert(all_can_be_written(nodes.drop_last())) by {
            assert forall|i: int| 0 <= i < nodes.drop_last().len() implies can_be_written(
                #[trigger] nodes.drop_last()[i],
            ) by {
                assert(nodes.drop_last()[i] == nodes[i]);
            }
        }
        lemma_indexed_written(toc, nodes.drop_last(), path);
        let before = indexed(toc, nodes.drop_last(), path);
        let after = indexed(toc, nodes, path);
        let node = nodes.last();
        assert(can_be_written(nodes[nodes.len() - 1]));
        assert forall|i: int| 0 <= i < after.nodes.len() implies can_be_written(
            #[trigger] after.nodes[i],
        ) by {
            if i < before.nodes.len() {
                assert(after.nodes[i] == before.nodes[i]);
            } else {
                match heading_level_of(node) {
                    Some(level) => {
                        let id = fragment_id_text(forest_count(before.toc));
                        let marked = with_attr(node, id_attr(id));
                        assert(after.nodes[i] == marked);
                        assert(marked.children == node.children);
                        assert(can_be_written(marked));
                    },
                    None => {
                        assert(after.nodes[i] == node);
                    },
                }
            }
        }
    }
}

/// The headings among `nodes`, in order.
pub open spec fn headings_of(nodes: Seq<Tree>) -> Seq<Tree>
    decreases nodes.len(),
{
    if nodes.len() == 0 {
        Seq::empty()
    } else if heading_level_of(nodes.last()) is Some {
        headings_of(nodes.drop_last()).push(nodes.last())
    } else {
        headings_of(nodes.drop_last())
    }
}

/// The table of contents `toc` after the headings `headings` of the document
/// at `path` were pushed into it, in order.
pub open spec fn taken(toc: Seq<Entry>, headings: Seq<Tree>, path: Seq<Seq<char>>) -> Seq<Entry>
    decreases headings.len(),
{
    if headings.len() == 0 {
        toc
    } else {
        let before = taken(toc, headings.drop_last(), path);
        let node = headings.last();
        placed(
            before,
            0,
            heading_entry(
                heading_level_of(node)->0,
                angles_escaped(text_of(node)),
                Some(fragment_id_text(forest_count(before))),
                path,
            ),
        )
    }
}

/// Only the headings of a document count for the table of contents: what
/// stands between them changes nothing.
pub proof fn lemma_indexed_is_taken(toc: Seq<Entry>, nodes: Seq<Tree>, path: Seq<Seq<char>>)
    ensures
        indexed(toc, nodes, path).toc == taken(toc, headings_of(nodes), path),
    decreases nodes.len(),
{
    if nodes.len() > 0 {
        lemma_indexed_is_taken(toc, nodes.drop_last(), path);
        if heading_level_of(nodes.last()) is Some {
            let headings = headings_of(nodes);
            assert(headings.drop_last() == headings_of(nodes.drop_last()));
            assert(headings.last() == nodes.last());
        }
    }
}

/// The entry of a chapter: a heading of the first level, taken when the table
/// held `count` nodes, with one heading of the second level below it.
pub open spec fn chapter_entry(first: Tree, second: Tree, count: nat, path: Seq<Seq<char>>) -> Entry {
    Entry {
        level: 1,
        heading: Some(
            crate::toc::Heading {
                title: angles_escaped(text_of(first)),
                id: Some(fragment_id_text(count)),
                path,
            },
        ),
        items: seq![
            heading_entry(
                2,
                angles_escaped(text_of(second)),
                Some(fragment_id_text(count + 1)),
                path,
            ),
        ],
    }
}

/// Whether the headings of a document are one of the first level and, behind
/// it, one of the second.
pub open spec fn is_chapter(nodes: Seq<Tree>) -> bool {
    &&& headings_of(nodes).len() == 2
    &&& heading_level_of(headings_of(nodes)[0]) == Some(1u8)
    &&& heading_level_of(headings_of(nodes)[1]) == Some(2u8)
}

/// A document with one heading of the first level and one of the second
/// behind it adds one entry at the top of the table of contents, with one
/// entry below it and no placeholder; the two get the next two anchors.
pub proof fn lemma_indexed_chapter(toc: Seq<Entry>, nodes: Seq<Tree>, path: Seq<Seq<char>>)
    requires
        is_chapter(nodes),
    ensures
        indexed(toc, nodes, path).toc == toc.push(
            chapter_entry(headings_of(nodes)[0], headings_of(nodes)[1], forest_count(toc), path),
        ),
        forest_count(indexed(toc, nodes, path).toc) == forest_count(toc) + 2,
{
    lemma_indexed_is_taken(toc, nodes, path);
    let headings = headings_of(nodes);
    let first = headings[0];
    let second = headings[1];
    let count = forest_count(toc);
    assert(headings.drop_last() == seq![first]);
    assert(headings.drop_last().drop_last() == Seq::<Tree>::empty());
    assert(taken(toc, headings.drop_last().drop_last(), path) == toc);
    let top = heading_entry(1, angles_escaped(text_of(first)), Some(fragment_id_text(count)), path);
    let one = taken(toc, headings.drop_last(), path);
    assert(headings.drop_last().last() == first);
    assert(one == placed(toc, 0, top));
    assert(one == toc.push(top));
    assert(forest_count(Seq::<Entry>::empty()) == 0);
    assert(crate::toc::node_count(top) == 1);
    crate::toc::lemma_forest_count_push(toc, top);
    assert(forest_count(one) == count + 1);
    let sub = heading_entry(
        2,
        angles_escaped(text_of(second)),
        Some(fragment_id_text(count + 1)),
        path,
    );
    let two = taken(toc, headings, path);
    assert(headings.last() == second);
    assert(two == placed(one, 0, sub));
    assert(one.last() == top);
    assert(one.drop_last() == toc);
    assert(placed(top.items, 1, sub) == Seq::<Entry>::empty().push(sub));
    assert(Seq::<Entry>::empty().push(sub) == seq![sub]);
    let chapter = chapter_entry(first, second, count, path);
    assert(crate::toc::with_items(top, seq![sub]) == chapter);
    assert(two == toc.push(chapter)) by {
        reveal_with_fuel(placed, 2);
    }
    crate::toc::lemma_forest_count_push(toc, chapter);
    crate::toc::lemma_forest_count_push(Seq::empty(), sub);
    assert(crate::toc::node_count(sub) == 1);
    assert(crate::toc::node_count(chapter) == 1 + forest_count(seq![sub]));
}

/// Three documents, each with one heading of the first level and one of the
/// second behind it, give an empty table of contents three entries at the
/// top, each with one entry below it: six nodes, none of them a placeholder,
/// with the anchors of the counts 0 to 5 in the order of the headings.
pub proof fn lemma_three_chapters(
    first: Seq<Tree>,
    second: Seq<Tree>,
    third: Seq<Tree>,
    paths: Seq<Seq<Seq<char>>>,
)
    requires
        is_chapter(first),
        is_chapter(second),
        is_chapter(third),
        paths.len() == 3,
    ensures
        ({
            let one = indexed(Seq::empty(), first, paths[0]).toc;
            let two = indexed(one, second, paths[1]).toc;
            let three = indexed(two, third, paths[2]).toc;
            &&& three == seq![
                chapter_entry(headings_of(first)[0], headings_of(first)[1], 0, paths[0]),
                chapter_entry(headings_of(second)[0], headings_of(second)[1], 2, paths[1]),
                chapter_entry(headings_of(third)[0], headings_of(third)[1], 4, paths[2]),
            ]
            &&& forest_count(three) == 6
        }),
{
    assert(forest_count(Seq::<Entry>::empty()) == 0);
    let one = indexed(Seq::empty(), first, paths[0]).toc;
    lemma_indexed_chapter(Seq::empty(), first, paths[0]);
    let two = indexed(one, second, paths[1]).toc;
    lemma_indexed_chapter(one, second, paths[1]);
    let three = indexed(two, third, paths[2]).toc;
    lemma_indexed_chapter(two, third, paths[2]);
    assert(three == seq![
        chapter_entry(headings_of(first)[0], headings_of(first)[1], 0, paths[0]),
        chapter_entry(headings_of(second)[0], headings_of(second)[1], 2, paths[1]),
        chapter_entry(headings_of(third)[0], headings_of(third)[1], 4, paths[2]),
    ]);
}

fn nodes_text(nodes: &Vec<DomNode>, text: &mut String)
    ensures
        final(text)@ == old(text)@ + texts_of(trees_view(nodes@)),
    decreases nodes,
{
    let mut i: usize = 0;
    proof {
        lemma_trees_view(nodes@);
        assert(old(text)@ + Seq::<char>::empty() == old(text)@);
    }
    while i < nodes.len()
        invariant
            i <= nodes.len(),
            text@ == old(text)@ + texts_of(trees_view(nodes@).take(i as int)),
            trees_view(nodes@).len() == nodes@.len(),
            forall|k: int| 0 <= k < nodes@.len() ==> trees_view(nodes@)[k] == (#[trigger] nodes@[k])@,
        decreases nodes.len() - i,
    {
        let ghost before = text@;
        node_text(&nodes[i], text);
        proof {
            let next = trees_view(nodes@).take(i + 1);
            assert(next.drop_last() == trees_view(nodes@).take(i as int));
            assert(next.last() == nodes@[i as int]@);
            assert(old(text)@ + texts_of(next.drop_last()) + text_of(next.last()) == old(text)@ + (
            texts_of(next.drop_last()) + text_of(next.last())));
        }
        i += 1;
    }
    assert(trees_view(nodes@).take(nodes@.len() as int) == trees_view(nodes@));
}

/// Appends all text in and below `node` to `text`, in document order.
pub fn node_text(node: &DomNode, text: &mut String)
    ensures
        final(text)@ == old(text)@ + text_of(node@),
    decreases node,
{
    match &node.data {
        NodeKind::Text(own) => {
            text.append(own.as_str());
        },
        _ => {
            assert(text@ + Seq::<char>::empty() == text@);
        },
    }
    let ghost own = text@;
    nodes_text(&node.children, text);
    proof {
        let first = match node@.data {
            Kind::Text(t) => t,
            _ => Seq::empty(),
        };
        assert(old(text)@ + first + texts_of(node@.children) == old(text)@ + (first + texts_of(
            node@.children,
        )));
    }
}

/// The heading level that the element name `local` stands for.
pub fn heading_level(local: &str) -> (level: Option<u8>)
    ensures
        level == level_of_local(local@),
{
    if str_eq(local, "h1") {
        Some(1)
    } else if str_eq(local, "h2") {
        Some(2)
    } else if str_eq(local, "h3") {
        Some(3)
    } else if str_eq(local, "h4") {
        Some(4)
    } else if str_eq(local, "h5") {
        Some(5)
    } else {
        None
    }
}

fn heading_report(level: u8, title: &str, path: &FilePath) -> (log: RepubLog)
    ensures
        log.0 is Indexed,
        log.1@ == heading_log(level, title@, path@),
{
    let mut text = String::new();
    let mut i: u8 = 0;
    while i < level
        invariant
            i <= level,
            text@ == hashes(i as nat),
        decreases level - i,
    {
        crate::text::push_char(&mut text, '#');
        assert(hashes((i + 1) as nat) == hashes(i as nat).push('#'));
        i += 1;
    }
    text.append(" ");
    text.append(title);
    text.append(" (");
    match path.file_name() {
        Some(name) => {
            text.append(name.as_str());
        },
        None => {
            assert(text@ + Seq::<char>::empty() == text@);
        },
    }
    text.append(")");
    RepubLog::indexed(text.as_str())
}

/// Takes the headings among the top-level nodes of the document at `path`
/// into the table of contents, and marks each with the anchor it was given.
/// Returns the nodes and the reports.
pub fn index_headings(toc: &mut TableOfContents, nodes: Vec<DomNode>, path: &FilePath) -> (out: (
    Vec<DomNode>,
    Vec<RepubLog>,
))
    requires
        old(toc).wf(),
        forest_count(old(toc)@) + 5 * nodes@.len() <= usize::MAX,
    ensures
        final(toc).wf(),
        final(toc)@ == indexed(old(toc)@, trees_view(nodes@), path@).toc,
        trees_view(out.0@) == indexed(old(toc)@, trees_view(nodes@), path@).nodes,
        log_texts(out.1@) == indexed(old(toc)@, trees_view(nodes@), path@).logs,
        all_indexed(out.1@),
        old(toc).anchored() ==> final(toc).anchored(),
{
    let mut marked: Vec<DomNode> = Vec::new();
    let mut logs: Vec<RepubLog> = Vec::new();
    let ghost all = nodes@;
    let ghost trees = trees_view(nodes@);
    let ghost start = toc@;
    proof {
        lemma_trees_view(all);
        assert(trees.take(0) == Seq::<Tree>::empty());
        assert(log_texts(logs@) == Seq::<Seq<char>>::empty());
    }
    for node in it: nodes
        invariant
            it.seq() == all,
            trees == trees_view(all),
            trees.len() == all.len(),
            forall|k: int| 0 <= k < all.len() ==> trees[k] == (#[trigger] all[k])@,
            toc.wf(),
            old(toc).anchored() ==> toc.anchored(),
            forest_count(start) + 5 * all.len() <= usize::MAX,
            toc@ == indexed(start, trees.take(it.index() as int), path@).toc,
            trees_view(marked@) == indexed(start, trees.take(it.index() as int), path@).nodes,
            log_texts(logs@) == indexed(start, trees.take(it.index() as int), path@).logs,
            all_indexed(logs@),
    {
        let ghost done = it.index() as int;
        let ghost before = indexed(start, trees.take(done), path@);
        proof {
            assert(trees.take(done + 1).drop_last() == trees.take(done));
            assert(trees.take(done + 1).last() == node@);
            lemma_indexed_count(start, trees.take(done), path@);
        }
        let DomNode { data, children } = node;
        let data = match data {
            NodeKind::Element { name, mut attrs } => {
                match heading_level(name.local.as_str()) {
                    Some(level) => {
                        let mut title = String::new();
                        nodes_text(&children, &mut title);
                        assert(Seq::<char>::empty() + texts_of(trees_view(children@)) == texts_of(
                            trees_view(children@),
                        ));
                        assert(text_of(node@) == Seq::<char>::empty() + texts_of(node@.children));
                        let title = escape_angles(title.as_str());
                        let report = heading_report(level, title.as_str(), path);
                        let id = toc.push(level, title, path.clone());
                        let ghost attrs_before = attrs_view(attrs@);
                        let attr = DomAttribute {
                            name: QualifiedName {
                                prefix: None,
                                ns: String::new(),
                                local: String::from_str("id"),
                            },
                            value: id,
                        };
                        attrs.push(attr);
                        assert(attrs_view(attrs@) == attrs_before.push(attr@));
                        let ghost logs_before = log_texts(logs@);
                        logs.push(report);
                        assert(log_texts(logs@) == logs_before.push(report.1@));
                    },
                    None => {},
                }
                NodeKind::Element { name, attrs }
            },
            other => other,
        };
        let next = DomNode { data, children };
        proof {
            lemma_trees_view_push(marked@, next);
        }
        marked.push(next);
    }
    assert(trees.take(all.len() as int) == trees);
    (marked, logs)
}

/// A piece of markup that follows a `<`, with its first `>` written as ` />`
/// where the piece begins with `img`, `br` or `hr`: such an element has no
/// end tag, and the stricter dialect wants it closed in place.
pub open spec fn void_closed_piece(piece: Seq<char>) -> Seq<char> {
    if begins_with(piece, "img"@) || begins_with(piece, "br"@) || begins_with(piece, "hr"@) {
        first_replaced(piece, '>', " />"@)
    } else {
        piece
    }
}

/// Each piece with its element closed in place where it has to be.
pub open spec fn void_closed_pieces(parts: Seq<Seq<char>>) -> Seq<Seq<char>> {
    Seq::new(parts.len(), |i: int| void_closed_piece(parts[i]))
}

/// Markup with the elements `img`, `br` and `hr` closed in place: the text
/// is taken apart at every `<`, each piece is corrected, and the pieces are
/// put together again.
pub open spec fn void_closed(html: Seq<char>) -> Seq<char> {
    joined(void_closed_pieces(pieces(html, '<')), "<"@)
}

/// Closes the elements `img`, `br` and `hr` in place.
pub fn close_void_elements(html: &str) -> (out: String)
    ensures
        out@ == void_closed(html@),
{
    let parts = split(html, '<');
    let mut closed: Vec<String> = Vec::new();
    let mut i: usize = 0;
    while i < parts.len()
        invariant
            i <= parts.len(),
            closed.deep_view() == void_closed_pieces(parts.deep_view().take(i as int)),
        decreases parts.len() - i,
    {
        let piece = parts[i].as_str();
        let fixed = if starts_with(piece, "img") || starts_with(piece, "br") || starts_with(
            piece,
            "hr",
        ) {
            replace_first(piece, '>', " />")
        } else {
            String::from_str(piece)
        };
        let ghost before = closed.deep_view();
        closed.push(fixed);
        proof {
            assert(closed.deep_view() == before.push(fixed@));
            assert(void_closed_pieces(parts.deep_view().take(i + 1)) == void_closed_pieces(
                parts.deep_view().take(i as int),
            ).push(void_closed_piece(parts.deep_view()[i as int])));
        }
        i += 1;
    }
    assert(parts.deep_view().take(parts.len() as int) == parts.deep_view());
    join(&closed, "<")
}

/// The nodes of a content document, as they are read from its markup.
pub open spec fn document_nodes(xhtml: Seq<char>) -> Seq<Tree> {
    parsed_fragment(xhtml, HTML_NAMESPACE@, FRAGMENT_CONTEXT@, false)
}

/// Whether the table of contents has room for the headings of a document
/// with `nodes` top-level nodes, whatever they are.
pub open spec fn has_room(toc: Seq<Entry>, nodes: nat) -> bool {
    forest_count(toc) + 5 * nodes <= usize::MAX
}

/// The body of a content document whose headings were taken into `toc`: the
/// nodes, each heading with its anchor, written as markup, with the elements
/// `img`, `br` and `hr` closed in place.
pub open spec fn registered_body(toc: Seq<Entry>, xhtml: Seq<char>, path: Seq<Seq<char>>) -> Seq<
    char,
> {
    void_closed(serialized_markup(indexed(toc, document_nodes(xhtml), path).nodes))
}

fn nodes_writable(nodes: &Vec<DomNode>) -> (writable: bool)
    ensures
        writable == all_can_be_written(trees_view(nodes@)),
    decreases nodes,
{
    proof {
        lemma_trees_view(nodes@);
    }
    let mut i: usize = 0;
    while i < nodes.len()
        invariant
            i <= nodes.len(),
            trees_view(nodes@).len() == nodes@.len(),
            forall|k: int| 0 <= k < nodes@.len() ==> trees_view(nodes@)[k] == (#[trigger] nodes@[k])@,
            forall|k: int| 0 <= k < i ==> can_be_written(#[trigger] trees_view(nodes@)[k]),
        decreases nodes.len() - i,
    {
        if !node_writable(&nodes[i]) {
            assert(!can_be_written(trees_view(nodes@)[i as int]));
            return false;
        }
        i += 1;
    }
    true
}

fn node_writable(node: &DomNode) -> (writable: bool)
    ensures
        writable == can_be_written(node@),
    decreases node,
{
    match &node.data {
        NodeKind::Document => false,
        NodeKind::Element { .. } => {
            let writable = nodes_writable(&node.children);
            proof {
                let below = node@.children;
                if writable {
                    assert forall|i: int| 0 <= i < below.len() implies can_be_written(
                        #[trigger] below[i],
                    ) by {}
                } else {
                    if can_be_written(node@) {
                        assert forall|i: int| 0 <= i < below.len() implies can_be_written(
                            #[trigger] below[i],
                        ) by {
                            assert(can_be_written(node@.children[i]));
                        }
                    }
                }
            }
            writable
        },
        NodeKind::Doctype { .. } => true,
        NodeKind::Text(_) => true,
        NodeKind::Comment(_) => true,
        NodeKind::ProcessingInstruction { .. } => true,
    }
}

/// Whether `text` is short enough for the markup reader and writer.
pub fn text_is_short(text: &str) -> (short: bool)
    ensures
        short == text_fits(text@),
{
    text.unicode_len() <= TEXT_LIMIT
}

fn attrs_short(attrs: &Vec<DomAttribute>) -> (short: bool)
    ensures
        short == attrs_fit(attrs_view(attrs@)),
{
    let mut i: usize = 0;
    while i < attrs.len()
        invariant
            i <= attrs.len(),
            forall|k: int| 0 <= k < i ==> text_fits((#[trigger] attrs_view(attrs@)[k]).value),
        decreases attrs.len() - i,
    {
        if !text_is_short(attrs[i].value.as_str()) {
            assert(!text_fits(attrs_view(attrs@)[i as int].value));
            return false;
        }
        i += 1;
    }
    true
}

fn kind_short(kind: &NodeKind) -> (short: bool)
    ensures
        short == kind_fits(kind@),
{
    match kind {
        NodeKind::Document => true,
        NodeKind::Doctype { name, public_id, system_id } => text_is_short(name.as_str())
            && text_is_short(public_id.as_str()) && text_is_short(system_id.as_str()),
        NodeKind::Text(text) => text_is_short(text.as_str()),
        NodeKind::Comment(text) => text_is_short(text.as_str()),
        NodeKind::Element { attrs, .. } => attrs_short(attrs),
        NodeKind::ProcessingInstruction { target, contents } => text_is_short(target.as_str())
            && text_is_short(contents.as_str()),
    }
}

fn nodes_short(nodes: &Vec<DomNode>) -> (short: bool)
    ensures
        short == all_fit(trees_view(nodes@)),
    decreases nodes,
{
    proof {
        lemma_trees_view(nodes@);
    }
    let mut i: usize = 0;
    while i < nodes.len()
        invariant
            i <= nodes.len(),
            trees_view(nodes@).len() == nodes@.len(),
            forall|k: int| 0 <= k < nodes@.len() ==> trees_view(nodes@)[k] == (#[trigger] nodes@[k])@,
            forall|k: int| 0 <= k < i ==> tree_fits(#[trigger] trees_view(nodes@)[k]),
        decreases nodes.len() - i,
    {
        if !node_short(&nodes[i]) {
            assert(!tree_fits(trees_view(nodes@)[i as int]));
            return false;
        }
        i += 1;
    }
    true
}

fn node_short(node: &DomNode) -> (short: bool)
    ensures
        short == tree_fits(node@),
    decreases node,
{
    if !kind_short(&node.data) {
        return false;
    }
    let short = nodes_short(&node.children);
    proof {
        let below = node@.children;
        if short {
            assert forall|i: int| 0 <= i < below.len() implies tree_fits(#[trigger] below[i]) by {}
        } else {
            if tree_fits(node@) {
                assert forall|i: int| 0 <= i < below.len() implies tree_fits(
                    #[trigger] below[i],
                ) by {
                    assert(tree_fits(node@.children[i]));
                }
            }
        }
    }
    short
}

/// Reads a piece of markup as it stands inside an element named `context`,
/// and returns its nodes; a text that is too long for the reader is not read.
pub fn read_fragment(html: &str, context: &str) -> (nodes: Option<Vec<DomNode>>)
    ensures
        match nodes {
            Some(nodes) => {
                &&& text_fits(html@)
                &&& trees_view(nodes@) == parsed_fragment(html@, HTML_NAMESPACE@, context@, false)
                &&& all_can_be_written(trees_view(nodes@))
            },
            None => !text_fits(html@),
        },
{
    if text_is_short(html) {
        Some(parse_fragment_nodes(html, HTML_NAMESPACE, context, false))
    } else {
        None
    }
}

/// Whether nodes can be written as markup: no document root is among them or
/// below an element, and no text in them is too long for the writer.
pub open spec fn can_write(trees: Seq<Tree>) -> bool {
    all_can_be_written(trees) && all_fit(trees)
}

/// Writes nodes as markup, where they can be written.
pub fn write_markup(nodes: &Vec<DomNode>) -> (html: Option<String>)
    ensures
        match html {
            Some(text) => can_write(trees_view(nodes@)) && text@ == serialized_markup(
                trees_view(nodes@),
            ),
            None => !can_write(trees_view(nodes@)),
        },
{
    if nodes_writable(nodes) && nodes_short(nodes) {
        Some(serialize_nodes(nodes))
    } else {
        None
    }
}

/// Why a document is not taken into the table of contents.
pub ghost enum Refused {
    /// The markup, or a text in it, is too long for the reader and writer.
    TooLong,
    /// The table of contents has no room for the document.
    TooManyHeadings,
}

/// Why the document with the markup `xhtml` is not taken into `toc`, if it
/// is not: the markup is too long to be read; or the table has no room for
/// it; or a text in what was read is too long to be written again.
pub open spec fn refused(toc: Seq<Entry>, xhtml: Seq<char>) -> Option<Refused> {
    if !text_fits(xhtml) {
        Some(Refused::TooLong)
    } else if !has_room(toc, document_nodes(xhtml).len()) {
        Some(Refused::TooManyHeadings)
    } else if !all_fit(document_nodes(xhtml)) {
        Some(Refused::TooLong)
    } else {
        None
    }
}

/// Whether the error `e` reports the refusal `why`.
pub open spec fn reports_refusal(e: ComposeError, why: Refused) -> bool {
    match why {
        Refused::TooLong => e is TooLong,
        Refused::TooManyHeadings => e is TooManyHeadings,
    }
}

/// An anchor is short enough to be written.
pub proof fn lemma_fragment_id_fits(count: nat)
    requires
        count <= usize::MAX,
    ensures
        text_fits(fragment_id_text(count)),
{
    reveal_strlit("header");
    crate::text::lemma_decimal_short(count);
}

/// Marking the headings of nodes whose texts are short enough leaves their
/// texts short enough.
pub proof fn lemma_indexed_fit(toc: Seq<Entry>, nodes: Seq<Tree>, path: Seq<Seq<char>>)
    requires
        all_fit(nodes),
        forest_count(toc) + 5 * nodes.len() <= usize::MAX,
    ensures
        all_fit(indexed(toc, nodes, path).nodes),
    decreases nodes.len(),
{
    if nodes.len() > 0 {
        lemma_indexed_count(toc, nodes.drop_last(), path);
        assert(all_fit(nodes.drop_last())) by {
            assert forall|i: int| 0 <= i < nodes.drop_last().len() implies tree_fits(
                #[trigger] nodes.drop_last()[i],
            ) by {
                assert(nodes.drop_last()[i] == nodes[i]);
            }
        }
        lemma_indexed_fit(toc, nodes.drop_last(), path);
        let before = indexed(toc, nodes.drop_last(), path);
        let after = indexed(toc, nodes, path);
        let node = nodes.last();
        assert(tree_fits(nodes[nodes.len() - 1]));
        assert forall|i: int| 0 <= i < after.nodes.len() implies tree_fits(
            #[trigger] after.nodes[i],
        ) by {
            if i < before.nodes.len() {
                assert(after.nodes[i] == before.nodes[i]);
            } else {
                match heading_level_of(node) {
                    Some(level) => {
                        let id = fragment_id_text(forest_count(before.toc));
                        lemma_fragment_id_fits(forest_count(before.toc));
                        let marked = with_attr(node, id_attr(id));
                        assert(after.nodes[i] == marked);
                        assert(marked.children == node.children);
                        match node.data {
                            Kind::Element { name, attrs } => {
                                assert forall|k: int| 0 <= k < attrs.push(id_attr(id)).len() implies text_fits(
                                    (#[trigger] attrs.push(id_attr(id))[k]).value,
                                ) by {
                                    if k < attrs.len() {
                                        assert(text_fits(attrs[k].value));
                                    }
                                }
                            },
                            _ => {},
                        }
                        assert(tree_fits(marked));
                    },
                    None => {
                        assert(after.nodes[i] == node);
                    },
                }
            }
        }
    }
}

/// Reads the markup of a content document, takes its headings into the
/// table of contents, and returns the markup with the anchors of the
/// headings, in the stricter dialect, together with the reports. Where the
/// document is refused, nothing is changed.
pub fn register_to(toc: &mut TableOfContents, xhtml: &str, path: &FilePath) -> (result: Result<
    (String, Vec<RepubLog>),
    ComposeError,
>)
    requires
        old(toc).wf(),
    ensures
        final(toc).wf(),
        old(toc).anchored() ==> final(toc).anchored(),
        match result {
            Ok((body, logs)) => {
                &&& refused(old(toc)@, xhtml@) is None
                &&& final(toc)@ == indexed(old(toc)@, document_nodes(xhtml@), path@).toc
                &&& body@ == registered_body(old(toc)@, xhtml@, path@)
                &&& log_texts(logs@) == indexed(old(toc)@, document_nodes(xhtml@), path@).logs
                &&& all_indexed(logs@)
            },
            Err(e) => {
                &&& refused(old(toc)@, xhtml@) is Some
                &&& reports_refusal(e, refused(old(toc)@, xhtml@)->0)
                &&& *final(toc) == *old(toc)
            },
        },
{
    let nodes = match read_fragment(xhtml, FRAGMENT_CONTEXT) {
        Some(nodes) => nodes,
        None => {
            return Err(ComposeError::TooLong);
        },
    };
    proof {
        lemma_trees_view(nodes@);
    }
    let room = usize::MAX - toc.size();
    if nodes.len() > room / 5 {
        return Err(ComposeError::TooManyHeadings);
    }
    if !nodes_short(&nodes) {
        return Err(ComposeError::TooLong);
    }
    proof {
        lemma_indexed_written(toc@, trees_view(nodes@), path@);
        lemma_indexed_fit(toc@, trees_view(nodes@), path@);
    }
    let (marked, logs) = index_headings(toc, nodes, path);
    let html = serialize_nodes(&marked);
    Ok((close_void_elements(html.as_str()), logs))
}

} // verus!
