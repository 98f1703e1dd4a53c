//! The table of contents: a tree of headings that is built from the headings
//! in the order in which the documents hold them.

use crate::path::{path_diff_of, rendered, FilePath, PathDiff};
use crate::text::{decimal_text, lemma_decimal_injective, push_decimal};
use vstd::prelude::*;

verus! {

/// What a heading is: its title, its anchor, and the document that holds it.
pub ghost struct Heading {
    pub title: Seq<char>,
    pub id: Option<Seq<char>>,
    pub path: Seq<Seq<char>>,
}

/// A node of the tree: a heading with the entries below it, or, where
/// `heading` is `None`, a placeholder that only holds entries.
pub ghost struct Entry {
    pub level: u8,
    pub heading: Option<Heading>,
    pub items: Seq<Entry>,
}

/// A heading of the table of contents.
#[derive(Debug)]
pub struct ToCItem {
    pub items: Vec<ToCNode>,
    pub path_buf: FilePath,
    pub id: Option<String>,
    pub title: String,
    pub level: u8,
}

/// A placeholder for a level that has no heading of its own.
#[derive(Debug)]
pub struct ToCDummyItem {
    items: Vec<ToCNode>,
    level: u8,
}

/// A node of the table of contents.
#[derive(Debug)]
pub enum ToCNode {
    Item(ToCItem),
    Dummy(ToCDummyItem),
}

/// The entries that a list of nodes stands for.
pub open spec fn forest_view(nodes: Seq<ToCNode>) -> Seq<Entry>
    decreases nodes,
{
    if nodes.len() == 0 {
        Seq::empty()
    } else {
        forest_view(nodes.drop_last()).push(nodes.last()@)
    }
}

impl View for ToCNode {
    type V = Entry;

    open spec fn view(&self) -> Entry
        decreases self,
    {
        match self {
            ToCNode::Item(item) => item@,
            ToCNode::Dummy(dummy) => dummy@,
        }
    }
}

impl View for ToCItem {
    type V = Entry;

    open spec fn view(&self) -> Entry
        decreases self,
    {
        Entry {
            level: self.level,
            heading: Some(
                Heading {
                    title: self.title@,
                    id: match self.id {
                        Some(id) => Some(id@),
                        None => None,
                    },
                    path: self.path_buf@,
                },
            ),
            items: forest_view(self.items@),
        }
    }
}

impl View for ToCDummyItem {
    type V = Entry;

    closed spec fn view(&self) -> Entry
        decreases self,
    {
        Entry { level: self.level, heading: None, items: forest_view(self.items@) }
    }
}

/// The view of a list of nodes holds the view of each node, in order.
pub proof fn lemma_forest_view(nodes: Seq<ToCNode>)
    ensures
        forest_view(nodes).len() == nodes.len(),
        forall|i: int| 0 <= i < nodes.len() ==> forest_view(nodes)[i] == (#[trigger] nodes[i])@,
    decreases nodes.len(),
{
    if nodes.len() > 0 {
        lemma_forest_view(nodes.drop_last());
        assert(forest_view(nodes) == forest_view(nodes.drop_last()).push(nodes.last()@));
        assert forall|i: int| 0 <= i < nodes.len() implies forest_view(nodes)[i] == (
        #[trigger] nodes[i])@ by {
            if i < nodes.len() - 1 {
                assert(nodes.drop_last()[i] == nodes[i]);
            }
        }
    }
}

/// The number of nodes in the tree below and including `entry`.
pub open spec fn node_count(entry: Entry) -> nat
    decreases entry,
{
    1 + forest_count(entry.items)
}

/// The number of nodes in the trees of `entries`.
pub open spec fn forest_count(entries: Seq<Entry>) -> nat
    decreases entries,
{
    if entries.len() == 0 {
        0
    } else {
        forest_count(entries.drop_last()) + node_count(entries.last())
    }
}

/// Whether `entry` and all below it sit at the depth that their level names:
/// `entry` at `depth`, its entries one deeper, and so on.
pub open spec fn nested_at(entry: Entry, depth: int) -> bool
    decreases entry,
{
    entry.level == depth && forall|i: int|
        0 <= i < entry.items.len() ==> nested_at(#[trigger] entry.items[i], depth + 1)
}

/// Whether all of `entries` sit at `depth`, and all below them accordingly.
pub open spec fn forest_nested(entries: Seq<Entry>, depth: int) -> bool {
    forall|i: int| 0 <= i < entries.len() ==> nested_at(#[trigger] entries[i], depth)
}

/// The placeholder for `level` that holds `items`.
pub open spec fn placeholder(level: u8, items: Seq<Entry>) -> Entry {
    Entry { level, heading: None, items }
}

/// `entry` with other entries below it.
pub open spec fn with_items(entry: Entry, items: Seq<Entry>) -> Entry {
    Entry { level: entry.level, heading: entry.heading, items }
}

/// The entries of a node of level `level` after `item` was placed below it:
/// an item of the next level becomes the last entry; a deeper one goes below
/// the last entry, or, where there is none, below a new placeholder for the
/// next level.
pub open spec fn placed(items: Seq<Entry>, level: u8, item: Entry) -> Seq<Entry>
    decreases item.level - level,
{
    if level + 1 >= item.level {
        items.push(item)
    } else if items.len() > 0 {
        items.drop_last().push(
            with_items(items.last(), placed(items.last().items, (level + 1) as u8, item)),
        )
    } else {
        items.push(
            placeholder((level + 1) as u8, placed(Seq::empty(), (level + 1) as u8, item)),
        )
    }
}

/// The anchor of the heading that is pushed when the tree holds `count` nodes.
pub open spec fn fragment_id_text(count: nat) -> Seq<char> {
    "header"@ + decimal_text(count)
}

/// A list of entries holds at least as many nodes as any of its prefixes, and
/// as any one of its entries.
pub proof fn lemma_forest_count_parts(entries: Seq<Entry>, n: int)
    requires
        0 <= n <= entries.len(),
    ensures
        forest_count(entries.take(n)) <= forest_count(entries),
        n < entries.len() ==> forest_count(entries.take(n)) + node_count(entries[n])
            == forest_count(entries.take(n + 1)),
    decreases entries.len(),
{
    if n == entries.len() {
        assert(entries.take(n) == entries);
    } else {
        lemma_forest_count_parts(entries.drop_last(), n);
        assert(entries.drop_last().take(n) == entries.take(n));
        assert(entries.take(n + 1).drop_last() == entries.take(n));
        assert(entries.take(n + 1).last() == entries[n]);
    }
}

/// One more node at the end gives one more entry at the end.
pub proof fn lemma_forest_view_push(nodes: Seq<ToCNode>, node: ToCNode)
    ensures
        forest_view(nodes.push(node)) == forest_view(nodes).push(node@),
{
    assert(nodes.push(node).drop_last() == nodes);
    assert(nodes.push(node).last() == node);
}

/// One more entry at the end adds the nodes of its tree.
pub proof fn lemma_forest_count_push(entries: Seq<Entry>, entry: Entry)
    ensures
        forest_count(entries.push(entry)) == forest_count(entries) + node_count(entry),
{
    assert(entries.push(entry).drop_last() == entries);
    assert(entries.push(entry).last() == entry);
}

/// Placing an item keeps every node at the depth that its level names.
pub proof fn lemma_placed_nested(items: Seq<Entry>, level: u8, item: Entry)
    requires
        level < item.level,
        forest_nested(items, level + 1),
        nested_at(item, item.level as int),
    ensures
        forest_nested(placed(items, level, item), level + 1),
    decreases item.level - level,
{
    let after = placed(items, level, item);
    if level + 1 >= item.level {
        assert forall|i: int| 0 <= i < after.len() implies nested_at(#[trigger] after[i], level + 1) by {
            if i < items.len() {
                assert(after[i] == items[i]);
            }
        }
    } else if items.len() > 0 {
        let last = items.last();
        assert(nested_at(last, level + 1));
        assert(forest_nested(last.items, level + 2));
        lemma_placed_nested(last.items, (level + 1) as u8, item);
        let below = placed(last.items, (level + 1) as u8, item);
        assert(nested_at(with_items(last, below), level + 1));
        assert forall|i: int| 0 <= i < after.len() implies nested_at(#[trigger] after[i], level + 1) by {
            if i < items.len() - 1 {
                assert(after[i] == items[i]);
            }
        }
    } else {
        lemma_placed_nested(Seq::empty(), (level + 1) as u8, item);
        let below = placed(Seq::empty(), (level + 1) as u8, item);
        assert(nested_at(placeholder((level + 1) as u8, below), level + 1));
    }
}

/// Placing an item adds its own nodes and at most one placeholder for each
/// level between the node and the item.
pub proof fn lemma_placed_count(items: Seq<Entry>, level: u8, item: Entry)
    requires
        level < item.level,
    ensures
        forest_count(placed(items, level, item)) >= forest_count(items) + node_count(item),
        forest_count(placed(items, level, item)) <= forest_count(items) + node_count(item)
            + item.level - level - 1,
    decreases item.level - level,
{
    if level + 1 >= item.level {
        lemma_forest_count_push(items, item);
    } else if items.len() > 0 {
        let last = items.last();
        let below = placed(last.items, (level + 1) as u8, item);
        lemma_placed_count(last.items, (level + 1) as u8, item);
        lemma_forest_count_push(items.drop_last(), with_items(last, below));
        lemma_forest_count_push(items.drop_last(), last);
        assert(items.drop_last().push(last) == items);
        assert(node_count(with_items(last, below)) == 1 + forest_count(below));
        assert(node_count(last) == 1 + forest_count(last.items));
    } else {
        let below = placed(Seq::empty(), (level + 1) as u8, item);
        lemma_placed_count(Seq::empty(), (level + 1) as u8, item);
        lemma_forest_count_push(items, placeholder((level + 1) as u8, below));
        assert(node_count(placeholder((level + 1) as u8, below)) == 1 + forest_count(below));
        assert(forest_count(Seq::<Entry>::empty()) == 0);
    }
}

fn push_into(items: &mut Vec<ToCNode>, level: u8, item: ToCItem)
    requires
        level < item.level,
        forest_nested(forest_view(old(items)@), level + 1),
    ensures
        forest_view(final(items)@) == placed(forest_view(old(items)@), level, item@),
    decreases item.level - level,
{
    let ghost before = forest_view(items@);
    proof {
        lemma_forest_view(items@);
    }
    if level + 1 == item.level {
        proof {
            lemma_forest_view_push(items@, ToCNode::Item(item));
        }
        items.push(ToCNode::Item(item));
    } else {
        match items.pop() {
            Some(last) => {
                let ghost rest = items@;
                proof {
                    assert(old(items)@.drop_last() == rest);
                    assert(before.last() == last@);
                    assert(nested_at(before[before.len() - 1], level + 1));
                    assert(forest_view(rest) == before.drop_last());
                }
                match last {
                    ToCNode::Item(mut node) => {
                        let ghost below = node@.items;
                        proof {
                            assert(forest_nested(below, level + 2)) by {
                                assert forall|i: int| 0 <= i < below.len() implies nested_at(
                                    #[trigger] below[i],
                                    level + 2,
                                ) by {
                                    assert(nested_at(node@.items[i], level + 2));
                                }
                            }
                        }
                        push_into(&mut node.items, level + 1, item);
                        proof {
                            assert(node@ == with_items(last@, placed(below, (level + 1) as u8, item@)));
                            lemma_forest_view_push(rest, ToCNode::Item(node));
                        }
                        items.push(ToCNode::Item(node));
                    },
                    ToCNode::Dummy(mut node) => {
                        let ghost below = node@.items;
                        proof {
                            assert(forest_nested(below, level + 2)) by {
                                assert forall|i: int| 0 <= i < below.len() implies nested_at(
                                    #[trigger] below[i],
                                    level + 2,
                                ) by {
                                    assert(nested_at(node@.items[i], level + 2));
                                }
                            }
                        }
                        push_into(&mut node.items, level + 1, item);
                        proof {
                            assert(node@ == with_items(last@, placed(below, (level + 1) as u8, item@)));
                            lemma_forest_view_push(rest, ToCNode::Dummy(node));
                        }
                        items.push(ToCNode::Dummy(node));
                    },
                }
            },
            None => {
                let mut dummy = ToCDummyItem::new(level + 1);
                assert(forest_nested(Seq::<Entry>::empty(), level + 2));
                assert(forest_view(dummy.items@) == Seq::<Entry>::empty());
                push_into(&mut dummy.items, level + 1, item);
                proof {
                    assert(dummy@ == placeholder(
                        (level + 1) as u8,
                        placed(Seq::empty(), (level + 1) as u8, item@),
                    ));
                    lemma_forest_view_push(items@, ToCNode::Dummy(dummy));
                }
                items.push(ToCNode::Dummy(dummy));
            },
        }
    }
}

fn count_nodes(items: &Vec<ToCNode>) -> (n: usize)
    requires
        forest_count(forest_view(items@)) <= usize::MAX,
    ensures
        n == forest_count(forest_view(items@)),
    decreases items,
{
    let mut n: usize = 0;
    let mut i: usize = 0;
    proof {
        lemma_forest_view(items@);
    }
    while i < items.len()
        invariant
            i <= items.len(),
            forest_count(forest_view(items@)) <= usize::MAX,
            n == forest_count(forest_view(items@).take(i as int)),
            forest_view(items@).len() == items@.len(),
            forall|k: int| 0 <= k < items@.len() ==> forest_view(items@)[k] == (#[trigger] items@[k])@,
        decreases items.len() - i,
    {
        proof {
            lemma_forest_count_parts(forest_view(items@), i as int);
            lemma_forest_count_parts(forest_view(items@), i + 1);
        }
        n = n + count_node(&items[i]);
        i += 1;
    }
    assert(forest_view(items@).take(items@.len() as int) == forest_view(items@));
    n
}

impl ToCDummyItem {
    /// A placeholder for `level` that holds nothing yet.
    pub fn new(level: u8) -> (dummy: ToCDummyItem)
        ensures
            dummy@ == placeholder(level, Seq::empty()),
    {
        ToCDummyItem { items: Vec::new(), level }
    }
}

fn count_node(node: &ToCNode) -> (n: usize)
    requires
        node_count(node@) <= usize::MAX,
    ensures
        n == node_count(node@),
    decreases node,
{
    match node {
        ToCNode::Item(node) => 1 + count_nodes(&node.items),
        ToCNode::Dummy(node) => 1 + count_nodes(&node.items),
    }
}

/// What the elements of the navigation list are.
pub ghost enum Markup {
    /// A link.
    Link { href: Seq<char>, text: Seq<char> },
    /// A list item.
    Item { elems: Seq<Markup> },
    /// An ordered list, which a reader may have to keep folded.
    List { elems: Seq<Markup>, hidden: bool },
}

/// A link.
#[derive(Debug)]
pub struct A {
    pub href: String,
    pub text: String,
}

/// A list item.
#[derive(Debug)]
pub struct LI {
    pub elems: Vec<Element>,
}

/// An ordered list.
#[derive(Debug)]
pub struct OL {
    pub elems: Vec<Element>,
    pub hidden: bool,
}

/// An element of the navigation list.
#[derive(Debug)]
pub enum Element {
    A(A),
    LI(LI),
    OL(OL),
}

/// What a list of elements stands for.
pub open spec fn elements_view(elems: Seq<Element>) -> Seq<Markup>
    decreases elems,
{
    if elems.len() == 0 {
        Seq::empty()
    } else {
        elements_view(elems.drop_last()).push(elems.last()@)
    }
}

impl View for Element {
    type V = Markup;

    open spec fn view(&self) -> Markup
        decreases self,
    {
        match self {
            Element::A(a) => a@,
            Element::LI(li) => li@,
            Element::OL(ol) => ol@,
        }
    }
}

impl View for A {
    type V = Markup;

    open spec fn view(&self) -> Markup {
        Markup::Link { href: self.href@, text: self.text@ }
    }
}

impl View for LI {
    type V = Markup;

    open spec fn view(&self) -> Markup
        decreases self,
    {
        Markup::Item { elems: elements_view(self.elems@) }
    }
}

impl View for OL {
    type V = Markup;

    open spec fn view(&self) -> Markup
        decreases self,
    {
        Markup::List { elems: elements_view(self.elems@), hidden: self.hidden }
    }
}

/// One more element at the end gives one more piece of markup at the end.
pub proof fn lemma_elements_view_push(elems: Seq<Element>, elem: Element)
    ensures
        elements_view(elems.push(elem)) == elements_view(elems).push(elem@),
{
    assert(elems.push(elem).drop_last() == elems);
    assert(elems.push(elem).last() == elem);
}

/// The view of a list of elements holds the view of each element, in order.
pub proof fn lemma_elements_view(elems: Seq<Element>)
    ensures
        elements_view(elems).len() == elems.len(),
        forall|i: int| 0 <= i < elems.len() ==> elements_view(elems)[i] == (#[trigger] elems[i])@,
    decreases elems.len(),
{
    if elems.len() > 0 {
        lemma_elements_view(elems.drop_last());
        assert(elements_view(elems) == elements_view(elems.drop_last()).push(elems.last()@));
        assert forall|i: int| 0 <= i < elems.len() implies elements_view(elems)[i] == (
        #[trigger] elems[i])@ by {
            if i < elems.len() - 1 {
                assert(elems.drop_last()[i] == elems[i]);
            }
        }
    }
}

/// The text of an element: a link as `<a>`, an item as `<li>` around its
/// elements, a list as `<ol>` around its elements, marked `hidden` where it is
/// to stay folded. A list without elements has no text at all.
pub open spec fn html_of(markup: Markup) -> Seq<char>
    decreases markup,
{
    match markup {
        Markup::Link { href, text } => "<a href=\""@ + href + "\">"@ + text + "</a>"@,
        Markup::Item { elems } => "<li>\n"@ + html_lines(elems) + "\n</li>"@,
        Markup::List { elems, hidden } => if elems.len() == 0 {
            Seq::empty()
        } else if hidden {
            "<ol hidden=\"hidden\">\n"@ + html_lines(elems) + "\n</ol>"@
        } else {
            "<ol>\n"@ + html_lines(elems) + "\n</ol>"@
        },
    }
}

/// The texts of `elems`, each on lines of its own.
pub open spec fn html_lines(elems: Seq<Markup>) -> Seq<char>
    decreases elems,
{
    if elems.len() == 0 {
        Seq::empty()
    } else if elems.len() == 1 {
        html_of(elems[0])
    } else {
        html_lines(elems.drop_last()) + "\n"@ + html_of(elems.last())
    }
}

fn elements_html(elems: &Vec<Element>) -> (out: String)
    ensures
        out@ == html_lines(elements_view(elems@)),
    decreases elems,
{
    let mut out = String::new();
    let mut i: usize = 0;
    proof {
        lemma_elements_view(elems@);
    }
    while i < elems.len()
        invariant
            i <= elems.len(),
            out@ == html_lines(elements_view(elems@).take(i as int)),
            elements_view(elems@).len() == elems@.len(),
            forall|k: int| 0 <= k < elems@.len() ==> elements_view(elems@)[k] == (#[trigger] elems@[k])@,
        decreases elems.len() - i,
    {
        if i > 0 {
            out.append("\n");
        }
        let piece = element_html(&elems[i]);
        out.append(piece.as_str());
        proof {
            let next = elements_view(elems@).take(i + 1);
            assert(next.drop_last() == elements_view(elems@).take(i as int));
            assert(next.last() == elems@[i as int]@);
        }
        i += 1;
    }
    assert(elements_view(elems@).take(elems@.len() as int) == elements_view(elems@));
    out
}

fn element_html(elem: &Element) -> (out: String)
    ensures
        out@ == html_of(elem@),
    decreases elem,
{
    match elem {
        Element::A(a) => {
            let mut out = String::from_str("<a href=\"");
            out.append(a.href.as_str());
            out.append("\">");
            out.append(a.text.as_str());
            out.append("</a>");
            out
        },
        Element::LI(li) => {
            let mut out = String::from_str("<li>\n");
            out.append(elements_html(&li.elems).as_str());
            out.append("\n</li>");
            out
        },
        Element::OL(ol) => {
            if ol.elems.len() == 0 {
                proof {
                    lemma_elements_view(ol.elems@);
                }
                String::new()
            } else {
                proof {
                    lemma_elements_view(ol.elems@);
                }
                let mut out = if ol.hidden {
                    String::from_str("<ol hidden=\"hidden\">\n")
                } else {
                    String::from_str("<ol>\n")
                };
                out.append(elements_html(&ol.elems).as_str());
                out.append("\n</ol>");
                out
            }
        },
    }
}

/// An element of the navigation list, which can be written as text.
pub trait Elem {
    /// What the element is.
    spec fn markup(&self) -> Markup;

    /// The elements inside this one, where it can hold any.
    fn elems(&self) -> (inner: Option<&Vec<Element>>)
        ensures
            match inner {
                Some(elems) => match self.markup() {
                    Markup::Link { .. } => false,
                    Markup::Item { elems: held } => held == elements_view(elems@),
                    Markup::List { elems: held, .. } => held == elements_view(elems@),
                },
                None => self.markup() is Link,
            },
    ;

    /// The element as text.
    fn to_html(&self) -> (out: String)
        ensures
            out@ == html_of(self.markup()),
    ;
}

impl Elem for A {
    open spec fn markup(&self) -> Markup {
        self@
    }

    fn elems(&self) -> (inner: Option<&Vec<Element>>) {
        None
    }

    fn to_html(&self) -> (out: String) {
        let mut out = String::from_str("<a href=\"");
        out.append(self.href.as_str());
        out.append("\">");
        out.append(self.text.as_str());
        out.append("</a>");
        out
    }
}

impl Elem for LI {
    open spec fn markup(&self) -> Markup {
        self@
    }

    fn elems(&self) -> (inner: Option<&Vec<Element>>) {
        Some(&self.elems)
    }

    fn to_html(&self) -> (out: String) {
        let mut out = String::from_str("<li>\n");
        out.append(elements_html(&self.elems).as_str());
        out.append("\n</li>");
        out
    }
}

impl LI {
    /// Puts `elem` behind the elements that the item holds.
    pub fn push(&mut self, elem: Element)
        ensures
            final(self)@ == (Markup::Item { elems: old(self)@->Item_elems.push(elem@) }),
    {
        proof {
            lemma_elements_view_push(self.elems@, elem);
        }
        self.elems.push(elem);
    }
}

impl Elem for OL {
    open spec fn markup(&self) -> Markup {
        self@
    }

    fn elems(&self) -> (inner: Option<&Vec<Element>>) {
        Some(&self.elems)
    }

    fn to_html(&self) -> (out: String) {
        proof {
            lemma_elements_view(self.elems@);
        }
        if self.elems.len() == 0 {
            String::new()
        } else {
            let mut out = if self.hidden {
                String::from_str("<ol hidden=\"hidden\">\n")
            } else {
                String::from_str("<ol>\n")
            };
            out.append(elements_html(&self.elems).as_str());
            out.append("\n</ol>");
            out
        }
    }
}

impl Elem for Element {
    open spec fn markup(&self) -> Markup {
        self@
    }

    fn elems(&self) -> (inner: Option<&Vec<Element>>) {
        match self {
            Element::A(a) => a.elems(),
            Element::LI(li) => li.elems(),
            Element::OL(ol) => ol.elems(),
        }
    }

    fn to_html(&self) -> (out: String) {
        element_html(self)
    }
}

impl OL {
    /// Puts `elem` behind the elements that the list holds.
    pub fn push(&mut self, elem: Element)
        ensures
            final(self)@ == (Markup::List {
                elems: old(self)@->List_elems.push(elem@),
                hidden: old(self).hidden,
            }),
    {
        proof {
            lemma_elements_view_push(self.elems@, elem);
        }
        self.elems.push(elem);
    }
}

/// The target of the link to a heading, as written in the navigation
/// document `nav`: the relative path to the heading's document, `#`, and the
/// heading's anchor; a heading without an anchor has an empty anchor part.
/// Where there is no relative path from the navigation document to the
/// heading's document, the target is empty: the link stays in the list, but
/// leads nowhere.
pub open spec fn href_of(heading: Heading, nav: Seq<Seq<char>>) -> Seq<char> {
    match path_diff_of(nav, heading.path) {
        Some(rel) => {
            let anchor = match heading.id {
                Some(id) => id,
                None => Seq::empty(),
            };
            rendered(rel) + "#"@ + anchor
        },
        None => Seq::empty(),
    }
}

/// The link to a heading.
pub open spec fn link_of(heading: Heading, nav: Seq<Seq<char>>) -> Markup {
    Markup::Link { href: href_of(heading, nav), text: heading.title }
}

/// The list item of an entry: the link to its heading, where it has one, and
/// the list of the entries below it. That list is marked hidden where the
/// entry's level has reached `min_level`: deeper headings stay in the
/// document but are not shown.
pub open spec fn item_markup(entry: Entry, min_level: u8, nav: Seq<Seq<char>>) -> Markup
    decreases entry,
{
    let list = Markup::List {
        elems: items_markup(entry.items, min_level, nav),
        hidden: entry.level >= min_level,
    };
    match entry.heading {
        Some(heading) => Markup::Item { elems: seq![link_of(heading, nav), list] },
        None => Markup::Item { elems: seq![list] },
    }
}

/// The list items of `entries`, in order.
pub open spec fn items_markup(entries: Seq<Entry>, min_level: u8, nav: Seq<Seq<char>>) -> Seq<
    Markup,
>
    decreases entries,
{
    if entries.len() == 0 {
        Seq::empty()
    } else {
        items_markup(entries.drop_last(), min_level, nav).push(
            item_markup(entries.last(), min_level, nav),
        )
    }
}

/// The navigation list of a whole table of contents, whose top level is 0.
pub open spec fn toc_markup(entries: Seq<Entry>, min_level: u8, nav: Seq<Seq<char>>) -> Markup {
    Markup::List { elems: items_markup(entries, min_level, nav), hidden: 0 >= min_level }
}

/// The entry of a heading that holds nothing below it.
pub open spec fn heading_entry(
    level: u8,
    title: Seq<char>,
    id: Option<Seq<char>>,
    path: Seq<Seq<char>>,
) -> Entry {
    Entry { level, heading: Some(Heading { title, id, path }), items: Seq::empty() }
}

fn nodes_elems(items: &Vec<ToCNode>, min_level: u8, nav: &FilePath) -> (elems: Vec<Element>)
    ensures
        elements_view(elems@) == items_markup(forest_view(items@), min_level, nav@),
    decreases items,
{
    let mut elems: Vec<Element> = Vec::new();
    let mut i: usize = 0;
    proof {
        lemma_forest_view(items@);
    }
    while i < items.len()
        invariant
            i <= items.len(),
            elements_view(elems@) == items_markup(
                forest_view(items@).take(i as int),
                min_level,
                nav@,
            ),
            forest_view(items@).len() == items@.len(),
            forall|k: int| 0 <= k < items@.len() ==> forest_view(items@)[k] == (#[trigger] items@[k])@,
        decreases items.len() - i,
    {
        let li = node_elem(&items[i], min_level, nav);
        proof {
            lemma_elements_view_push(elems@, Element::LI(li));
            let next = forest_view(items@).take(i + 1);
            assert(next.drop_last() == forest_view(items@).take(i as int));
            assert(next.last() == items@[i as int]@);
        }
        elems.push(Element::LI(li));
        i += 1;
    }
    assert(forest_view(items@).take(items@.len() as int) == forest_view(items@));
    elems
}

fn heading_link(item: &ToCItem, nav: &FilePath) -> (a: A)
    ensures
        a@ == link_of(item@.heading->0, nav@),
{
    let href = match FilePath::path_diff(nav, &item.path_buf) {
        Some(rel) => {
            let mut href = rel.to_string();
            href.append("#");
            match &item.id {
                Some(id) => {
                    href.append(id.as_str());
                },
                None => {
                    assert(href@ + Seq::<char>::empty() == href@);
                },
            }
            href
        },
        None => String::new(),
    };
    A { href, text: item.title.clone() }
}

fn item_elem(item: &ToCItem, min_level: u8, nav: &FilePath) -> (li: LI)
    ensures
        li@ == item_markup(item@, min_level, nav@),
    decreases item,
{
    let mut elems: Vec<Element> = Vec::new();
    let a = heading_link(item, nav);
    let list = OL {
        elems: nodes_elems(&item.items, min_level, nav),
        hidden: item.level >= min_level,
    };
    proof {
        lemma_elements_view_push(elems@, Element::A(a));
        lemma_elements_view_push(elems@.push(Element::A(a)), Element::OL(list));
        assert(elements_view(elems@) == Seq::<Markup>::empty());
        assert(Seq::<Markup>::empty().push(a@).push(list@) == seq![a@, list@]);
    }
    elems.push(Element::A(a));
    elems.push(Element::OL(list));
    LI { elems }
}

fn dummy_elem(dummy: &ToCDummyItem, min_level: u8, nav: &FilePath) -> (li: LI)
    ensures
        li@ == item_markup(dummy@, min_level, nav@),
    decreases dummy,
{
    let mut elems: Vec<Element> = Vec::new();
    let list = OL {
        elems: nodes_elems(&dummy.items, min_level, nav),
        hidden: dummy.level >= min_level,
    };
    proof {
        lemma_elements_view_push(elems@, Element::OL(list));
        assert(elements_view(elems@) == Seq::<Markup>::empty());
        assert(Seq::<Markup>::empty().push(list@) == seq![list@]);
    }
    elems.push(Element::OL(list));
    LI { elems }
}

fn node_elem(node: &ToCNode, min_level: u8, nav: &FilePath) -> (li: LI)
    ensures
        li@ == item_markup(node@, min_level, nav@),
    decreases node,
{
    match node {
        ToCNode::Item(item) => item_elem(item, min_level, nav),
        ToCNode::Dummy(dummy) => dummy_elem(dummy, min_level, nav),
    }
}

/// What every node of the table of contents offers.
pub trait ToCItemTrait {
    /// The node and all below it.
    spec fn entry(&self) -> Entry;

    /// The nodes directly below this one.
    fn items(&self) -> (items: &Vec<ToCNode>)
        ensures
            forest_view(items@) == self.entry().items,
    ;

    /// The heading level of the node.
    fn level(&self) -> (level: u8)
        ensures
            level == self.entry().level,
    ;

    /// Whether the node is a placeholder.
    fn is_dummy(&self) -> (dummy: bool)
        ensures
            dummy == (self.entry().heading is None),
    ;

    /// Places `item` below this node.
    fn push(&mut self, item: ToCItem)
        requires
            old(self).entry().level < item.level,
            nested_at(old(self).entry(), old(self).entry().level as int),
        ensures
            final(self).entry() == with_items(
                old(self).entry(),
                placed(old(self).entry().items, old(self).entry().level, item@),
            ),
    ;

    /// The link to the node's heading; a placeholder has none.
    fn to_a(&self, navigation_path: &FilePath) -> (a: Option<A>)
        ensures
            match self.entry().heading {
                Some(heading) => a is Some && a->0@ == link_of(heading, navigation_path@),
                None => a is None,
            },
    ;

    /// The list item of the node in the navigation document.
    fn to_xhtml_elem(&self, min_level: u8, navigation_path: &FilePath) -> (li: LI)
        ensures
            li@ == item_markup(self.entry(), min_level, navigation_path@),
    ;

    /// The number of nodes in the tree below and including this one.
    fn size(&self) -> (n: usize)
        requires
            node_count(self.entry()) <= usize::MAX,
        ensures
            n == node_count(self.entry()),
    ;
}

impl ToCItem {
    /// A heading that holds nothing below it.
    pub fn new(level: u8, title: String, path_buf: FilePath, id: Option<String>) -> (item: ToCItem)
        ensures
            item@ == heading_entry(level, title@, crate::path::opt_text(id), path_buf@),
    {
        ToCItem { items: Vec::new(), path_buf, id, title, level }
    }
}

impl ToCItemTrait for ToCItem {
    open spec fn entry(&self) -> Entry {
        self@
    }

    fn items(&self) -> (items: &Vec<ToCNode>) {
        &self.items
    }

    fn level(&self) -> (level: u8) {
        self.level
    }

    fn is_dummy(&self) -> (dummy: bool) {
        false
    }

    fn push(&mut self, item: ToCItem) {
        proof {
            assert(forest_nested(self@.items, self.level + 1)) by {
                assert forall|i: int| 0 <= i < self@.items.len() implies nested_at(
                    #[trigger] self@.items[i],
                    self.level + 1,
                ) by {}
            }
        }
        push_into(&mut self.items, self.level, item);
    }

    fn to_a(&self, navigation_path: &FilePath) -> (a: Option<A>) {
        Some(heading_link(self, navigation_path))
    }

    fn to_xhtml_elem(&self, min_level: u8, navigation_path: &FilePath) -> (li: LI) {
        item_elem(self, min_level, navigation_path)
    }

    fn size(&self) -> (n: usize) {
        1 + count_nodes(&self.items)
    }
}

impl ToCItemTrait for ToCDummyItem {
    open spec fn entry(&self) -> Entry {
        self@
    }

    fn items(&self) -> (items: &Vec<ToCNode>) {
        &self.items
    }

    fn level(&self) -> (level: u8) {
        self.level
    }

    fn is_dummy(&self) -> (dummy: bool) {
        true
    }

    fn push(&mut self, item: ToCItem) {
        proof {
            assert(forest_nested(self@.items, self.level + 1)) by {
                assert forall|i: int| 0 <= i < self@.items.len() implies nested_at(
                    #[trigger] self@.items[i],
                    self.level + 1,
                ) by {}
            }
        }
        push_into(&mut self.items, self.level, item);
    }

    fn to_a(&self, navigation_path: &FilePath) -> (a: Option<A>) {
        None
    }

    fn to_xhtml_elem(&self, min_level: u8, navigation_path: &FilePath) -> (li: LI) {
        dummy_elem(self, min_level, navigation_path)
    }

    fn size(&self) -> (n: usize) {
        1 + count_nodes(&self.items)
    }
}

impl ToCItemTrait for ToCNode {
    open spec fn entry(&self) -> Entry {
        self@
    }

    fn items(&self) -> (items: &Vec<ToCNode>) {
        match self {
            ToCNode::Item(node) => node.items(),
            ToCNode::Dummy(node) => node.items(),
        }
    }

    fn level(&self) -> (level: u8) {
        match self {
            ToCNode::Item(node) => node.level(),
            ToCNode::Dummy(node) => node.level(),
        }
    }

    fn is_dummy(&self) -> (dummy: bool) {
        match self {
            ToCNode::Item(node) => node.is_dummy(),
            ToCNode::Dummy(node) => node.is_dummy(),
        }
    }

    fn push(&mut self, item: ToCItem) {
        match self {
            ToCNode::Item(node) => node.push(item),
            ToCNode::Dummy(node) => node.push(item),
        }
    }

    fn to_a(&self, navigation_path: &FilePath) -> (a: Option<A>) {
        match self {
            ToCNode::Item(node) => node.to_a(navigation_path),
            ToCNode::Dummy(node) => node.to_a(navigation_path),
        }
    }

    fn to_xhtml_elem(&self, min_level: u8, navigation_path: &FilePath) -> (li: LI) {
        node_elem(self, min_level, navigation_path)
    }

    fn size(&self) -> (n: usize) {
        match self {
            ToCNode::Item(node) => node.size(),
            ToCNode::Dummy(node) => node.size(),
        }
    }
}

/// The table of contents: the top-level nodes, in document order.
#[derive(Debug)]
pub struct TableOfContents {
    items: Vec<ToCNode>,
}

impl View for TableOfContents {
    type V = Seq<Entry>;

    closed spec fn view(&self) -> Seq<Entry> {
        forest_view(self.items@)
    }
}

impl TableOfContents {
    /// Whether every node sits at the depth that its level names, and the
    /// nodes can be counted.
    pub open spec fn wf(&self) -> bool {
        forest_nested(self@, 1) && forest_count(self@) <= usize::MAX
    }

    /// Whether every heading of the table has an anchor that `push` has given:
    /// `header` and a node count that the table had before it held all its
    /// nodes. It holds of a table that was filled by `push` alone.
    pub open spec fn anchored(&self) -> bool {
        forest_anchored(self@, forest_count(self@))
    }

    /// A table of contents without entries.
    pub fn new() -> (toc: TableOfContents)
        ensures
            toc@ == Seq::<Entry>::empty(),
            toc.wf(),
            toc.anchored(),
    {
        let toc = TableOfContents { items: Vec::new() };
        assert(forest_count(Seq::<Entry>::empty()) == 0);
        toc
    }

    /// The number of nodes, placeholders included.
    pub fn size(&self) -> (n: usize)
        requires
            self.wf(),
        ensures
            n == forest_count(self@),
    {
        count_nodes(&self.items)
    }

    /// Places a prepared heading: at the top where its level is 1, else below
    /// the last node of each level above it, with a placeholder wherever such
    /// a node is missing.
    pub fn insert(&mut self, item: ToCItem)
        requires
            old(self).wf(),
            1 <= item.level,
            nested_at(item@, item.level as int),
            forest_count(old(self)@) + node_count(item@) + item.level - 1 <= usize::MAX,
        ensures
            final(self)@ == placed(old(self)@, 0, item@),
            final(self).wf(),
            forest_count(final(self)@) == forest_count(old(self)@) + node_count(item@)
                + item.level - 1 - chain_len(old(self)@, (item.level - 1) as nat),
            forest_count(old(self)@) + node_count(item@) <= forest_count(final(self)@)
                <= forest_count(old(self)@) + node_count(item@) + item.level - 1,
    {
        proof {
            lemma_placed_nested(self@, 0, item@);
            lemma_placed_count(self@, 0, item@);
            lemma_placed_count_exact(self@, 0, item@);
        }
        push_into(&mut self.items, 0, item);
    }

    /// Takes the next heading of the documents into the tree and returns the
    /// anchor that it was given: `header` and the number of nodes that the
    /// tree held before.
    pub fn push(&mut self, level: u8, title: String, document_path: FilePath) -> (fragment_id:
        String)
        requires
            old(self).wf(),
            1 <= level <= crate::MAX_HEADING_LEVEL,
            forest_count(old(self)@) + level <= usize::MAX,
        ensures
            fragment_id@ == fragment_id_text(forest_count(old(self)@)),
            final(self)@ == placed(
                old(self)@,
                0,
                heading_entry(level, title@, Some(fragment_id@), document_path@),
            ),
            final(self).wf(),
            forest_count(final(self)@) == forest_count(old(self)@) + level - chain_len(
                old(self)@,
                (level - 1) as nat,
            ),
            old(self).anchored() ==> final(self).anchored(),
            forest_count(old(self)@) < forest_count(final(self)@) <= forest_count(old(self)@)
                + level,
    {
        let mut fragment_id = String::from_str("header");
        push_decimal(&mut fragment_id, self.size());
        let item = ToCItem::new(level, title, document_path, Some(fragment_id.clone()));
        assert(forest_count(Seq::<Entry>::empty()) == 0);
        assert(node_count(item@) == 1);
        proof {
            lemma_placed_count(self@, 0, item@);
            lemma_placed_count_exact(self@, 0, item@);
            if self.anchored() {
                let before = forest_count(self@);
                let after = forest_count(placed(self@, 0, item@));
                assert(before < before + 1 && fragment_id@ == fragment_id_text(before));
                assert(is_anchor_below(fragment_id@, before + 1));
                assert(entry_anchored(item@, before + 1));
                lemma_entry_anchored_grows(item@, before + 1, after);
                lemma_forest_anchored_grows(self@, before, after);
                lemma_placed_anchored(self@, 0, item@, after);
            }
        }
        self.insert(item);
        fragment_id
    }

    /// The navigation list as elements.
    pub fn to_xhtml_elem(&self, min_level: u8, nav: &FilePath) -> (ol: OL)
        ensures
            ol@ == toc_markup(self@, min_level, nav@),
    {
        OL { elems: nodes_elems(&self.items, min_level, nav), hidden: 0 >= min_level }
    }

    /// The navigation list as text.
    pub fn to_xhtml(&self, min_level: u8, nav: &FilePath) -> (out: String)
        ensures
            out@ == html_of(toc_markup(self@, min_level, nav@)),
    {
        self.to_xhtml_elem(min_level, nav).to_html()
    }
}

/// How far the chain of last entries leads down from `items`, followed for
/// at most `steps` steps: the number of levels below a node that already have
/// a node for the next item to go under.
pub open spec fn chain_len(items: Seq<Entry>, steps: nat) -> nat
    decreases steps,
{
    if steps == 0 || items.len() == 0 {
        0
    } else {
        1 + chain_len(items.last().items, (steps - 1) as nat)
    }
}

/// Placing an item adds its own nodes and one placeholder for each level
/// between the node and the item that the chain of last entries does not
/// reach.
pub proof fn lemma_placed_count_exact(items: Seq<Entry>, level: u8, item: Entry)
    requires
        level < item.level,
    ensures
        chain_len(items, (item.level - level - 1) as nat) <= item.level - level - 1,
        forest_count(placed(items, level, item)) == forest_count(items) + node_count(item)
            + (item.level - level - 1) - chain_len(items, (item.level - level - 1) as nat),
    decreases item.level - level,
{
    if level + 1 >= item.level {
        lemma_forest_count_push(items, item);
    } else if items.len() > 0 {
        let last = items.last();
        let below = placed(last.items, (level + 1) as u8, item);
        lemma_placed_count_exact(last.items, (level + 1) as u8, item);
        lemma_forest_count_push(items.drop_last(), with_items(last, below));
        lemma_forest_count_push(items.drop_last(), last);
        assert(items.drop_last().push(last) == items);
        assert(node_count(with_items(last, below)) == 1 + forest_count(below));
        assert(node_count(last) == 1 + forest_count(last.items));
    } else {
        let below = placed(Seq::empty(), (level + 1) as u8, item);
        lemma_placed_count_exact(Seq::empty(), (level + 1) as u8, item);
        lemma_forest_count_push(items, placeholder((level + 1) as u8, below));
        assert(node_count(placeholder((level + 1) as u8, below)) == 1 + forest_count(below));
        assert(forest_count(Seq::<Entry>::empty()) == 0);
    }
}

/// Below a node that holds nothing, an item gets exactly one placeholder for
/// each level between the node and itself.
pub proof fn lemma_placed_into_empty(level: u8, item: Entry)
    requires
        level < item.level,
    ensures
        placed(Seq::empty(), level, item).len() == 1,
        forest_count(placed(Seq::empty(), level, item)) == node_count(item) + item.level - level
            - 1,
        level + 1 < item.level ==> placed(Seq::empty(), level, item)[0] == placeholder(
            (level + 1) as u8,
            placed(Seq::empty(), (level + 1) as u8, item),
        ),
        level + 1 == item.level ==> placed(Seq::empty(), level, item)[0] == item,
    decreases item.level - level,
{
    assert(forest_count(Seq::<Entry>::empty()) == 0);
    if level + 1 >= item.level {
        lemma_forest_count_push(Seq::empty(), item);
    } else {
        let below = placed(Seq::empty(), (level + 1) as u8, item);
        lemma_placed_into_empty((level + 1) as u8, item);
        lemma_forest_count_push(Seq::empty(), placeholder((level + 1) as u8, below));
        assert(node_count(placeholder((level + 1) as u8, below)) == 1 + forest_count(below));
    }
}

/// Whether `id` is the anchor that is given at one of the node counts below
/// `bound`.
pub open spec fn is_anchor_below(id: Seq<char>, bound: nat) -> bool {
    exists|k: nat| k < bound && id == #[trigger] fragment_id_text(k)
}

/// Whether every heading in and below `entry` has an anchor that was given at
/// a node count below `bound`.
pub open spec fn entry_anchored(entry: Entry, bound: nat) -> bool
    decreases entry,
{
    &&& match entry.heading {
        Some(heading) => heading.id is Some && is_anchor_below(heading.id->0, bound),
        None => true,
    }
    &&& forall|i: int|
        0 <= i < entry.items.len() ==> entry_anchored(#[trigger] entry.items[i], bound)
}

/// Whether every heading in and below `entries` has an anchor that was given
/// at a node count below `bound`.
pub open spec fn forest_anchored(entries: Seq<Entry>, bound: nat) -> bool {
    forall|i: int| 0 <= i < entries.len() ==> entry_anchored(#[trigger] entries[i], bound)
}

/// An anchor that was given at a count below `bound` is not the anchor that is
/// given at `bound`.
pub proof fn lemma_anchor_is_new(id: Seq<char>, bound: nat)
    requires
        is_anchor_below(id, bound),
    ensures
        id != fragment_id_text(bound),
{
    let k = choose|k: nat| k < bound && id == #[trigger] fragment_id_text(k);
    lemma_fragment_ids_differ(k, bound);
}

/// What holds of the anchors below a bound holds below every greater bound.
pub proof fn lemma_entry_anchored_grows(entry: Entry, bound: nat, greater: nat)
    requires
        bound <= greater,
        entry_anchored(entry, bound),
    ensures
        entry_anchored(entry, greater),
    decreases entry,
{
    match entry.heading {
        Some(heading) => {
            let k = choose|k: nat| k < bound && heading.id->0 == #[trigger] fragment_id_text(k);
            assert(k < greater && heading.id->0 == fragment_id_text(k));
        },
        None => {},
    }
    assert forall|i: int| 0 <= i < entry.items.len() implies entry_anchored(
        #[trigger] entry.items[i],
        greater,
    ) by {
        assert(entry_anchored(entry.items[i], bound));
        lemma_entry_anchored_grows(entry.items[i], bound, greater);
    }
}

/// What holds of the anchors below a bound holds below every greater bound.
pub proof fn lemma_forest_anchored_grows(entries: Seq<Entry>, bound: nat, greater: nat)
    requires
        bound <= greater,
        forest_anchored(entries, bound),
    ensures
        forest_anchored(entries, greater),
{
    assert forall|i: int| 0 <= i < entries.len() implies entry_anchored(
        #[trigger] entries[i],
        greater,
    ) by {
        lemma_entry_anchored_grows(entries[i], bound, greater);
    }
}

/// Placing an item whose anchors were given below a bound among entries of
/// which the same holds gives entries of which it holds.
pub proof fn lemma_placed_anchored(items: Seq<Entry>, level: u8, item: Entry, bound: nat)
    requires
        level < item.level,
        forest_anchored(items, bound),
        entry_anchored(item, bound),
    ensures
        forest_anchored(placed(items, level, item), bound),
    decreases item.level - level,
{
    let after = placed(items, level, item);
    if level + 1 >= item.level {
        assert forall|i: int| 0 <= i < after.len() implies entry_anchored(
            #[trigger] after[i],
            bound,
        ) by {
            if i < items.len() {
                assert(after[i] == items[i]);
            }
        }
    } else if items.len() > 0 {
        let last = items.last();
        assert(entry_anchored(items[items.len() - 1], bound));
        assert(forest_anchored(last.items, bound));
        lemma_placed_anchored(last.items, (level + 1) as u8, item, bound);
        let below = placed(last.items, (level + 1) as u8, item);
        assert(entry_anchored(with_items(last, below), bound));
        assert forall|i: int| 0 <= i < after.len() implies entry_anchored(
            #[trigger] after[i],
            bound,
        ) by {
            if i < items.len() - 1 {
                assert(after[i] == items[i]);
            }
        }
    } else {
        assert(forest_anchored(Seq::<Entry>::empty(), bound));
        lemma_placed_anchored(Seq::empty(), (level + 1) as u8, item, bound);
        let below = placed(Seq::empty(), (level + 1) as u8, item);
        assert(entry_anchored(placeholder((level + 1) as u8, below), bound));
    }
}

/// A heading as a document gives it: its level, its title, and the document.
pub ghost struct Incoming {
    pub level: u8,
    pub title: Seq<char>,
    pub path: Seq<Seq<char>>,
}

/// The table of contents after `push` took the headings of `headings`, in
/// order, into an empty one.
pub open spec fn built(headings: Seq<Incoming>) -> Seq<Entry>
    decreases headings.len(),
{
    if headings.len() == 0 {
        Seq::empty()
    } else {
        let before = built(headings.drop_last());
        let next = headings.last();
        placed(
            before,
            0,
            heading_entry(
                next.level,
                next.title,
                Some(fragment_id_text(forest_count(before))),
                next.path,
            ),
        )
    }
}

/// The anchor that the heading at `index` was given.
pub open spec fn id_at(headings: Seq<Incoming>, index: int) -> Seq<char> {
    fragment_id_text(forest_count(built(headings.take(index))))
}

/// Whatever the order of the heading levels, every node of the tree sits at
/// the depth that its level names: a top-level node has level 1, the nodes
/// below a node of level `n` have level `n + 1`. So no node lies higher than
/// its level says, and on the way down to a heading there is exactly one node
/// for each level above it, a heading or a placeholder.
pub proof fn lemma_built_nested(headings: Seq<Incoming>)
    requires
        forall|i: int| 0 <= i < headings.len() ==> 1 <= (#[trigger] headings[i]).level,
    ensures
        forest_nested(built(headings), 1),
    decreases headings.len(),
{
    if headings.len() > 0 {
        lemma_built_nested(headings.drop_last());
        let before = built(headings.drop_last());
        let next = headings.last();
        let item = heading_entry(
            next.level,
            next.title,
            Some(fragment_id_text(forest_count(before))),
            next.path,
        );
        assert(1 <= headings[headings.len() - 1].level);
        lemma_placed_nested(before, 0, item);
    }
}

/// Each heading adds at least one node to the tree.
pub proof fn lemma_built_grows(headings: Seq<Incoming>, i: int, j: int)
    requires
        0 <= i < j <= headings.len(),
        forall|k: int| 0 <= k < headings.len() ==> 1 <= (#[trigger] headings[k]).level,
    ensures
        forest_count(built(headings.take(i))) < forest_count(built(headings.take(j))),
    decreases j - i,
{
    let upto = headings.take(j);
    let before = built(upto.drop_last());
    let next = upto.last();
    let item = heading_entry(
        next.level,
        next.title,
        Some(fragment_id_text(forest_count(before))),
        next.path,
    );
    assert(upto.drop_last() == headings.take(j - 1));
    assert(next == headings[j - 1]);
    assert(forest_count(Seq::<Entry>::empty()) == 0);
    assert(node_count(item) == 1);
    lemma_placed_count(before, 0, item);
    if i < j - 1 {
        lemma_built_grows(headings, i, j - 1);
    }
}

/// Different node counts give different anchors.
pub proof fn lemma_fragment_ids_differ(a: nat, b: nat)
    requires
        a != b,
    ensures
        fragment_id_text(a) != fragment_id_text(b),
{
    let prefix = "header"@;
    if fragment_id_text(a) == fragment_id_text(b) {
        assert((prefix + decimal_text(a)).subrange(
            prefix.len() as int,
            (prefix + decimal_text(a)).len() as int,
        ) == decimal_text(a));
        assert((prefix + decimal_text(b)).subrange(
            prefix.len() as int,
            (prefix + decimal_text(b)).len() as int,
        ) == decimal_text(b));
        lemma_decimal_injective(a, b);
    }
}

/// The anchors are given in the order of the calls, each from the number of
/// nodes at that moment, and no two headings of a run get the same one,
/// whatever shape the tree takes.
pub proof fn lemma_built_ids_distinct(headings: Seq<Incoming>, i: int, j: int)
    requires
        0 <= i < j < headings.len(),
        forall|k: int| 0 <= k < headings.len() ==> 1 <= (#[trigger] headings[k]).level,
    ensures
        forest_count(built(headings.take(i))) < forest_count(built(headings.take(j))),
        id_at(headings, i) != id_at(headings, j),
{
    lemma_built_grows(headings, i, j);
    lemma_fragment_ids_differ(
        forest_count(built(headings.take(i))),
        forest_count(built(headings.take(j))),
    );
}

} // verus!
