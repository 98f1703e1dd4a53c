//! The composition of a package: the files are staged one kind after the
//! other, each is entered into the registry of what was staged, the
//! navigation document and the package document are rendered from what the
//! registry and the table of contents hold.

use crate::data::{ContentSource, ContentSourceView, ConvertType, InputData};
use crate::listing::Listing;
use crate::error::ComposeError;
use crate::load::{Config, PageProgressionDirection, Source, SourceView};
use crate::markdown::{markdown_html, markdown_to_html, MarkdownOptions};
use crate::markup::{
    document_nodes, indexed, refused, register_to, registered_body, reports_refusal, Refused,
};
use crate::media_type::{classify, MediaType, Properties};
use crate::message::{RepubLog, RepubWarning};
use crate::path::{
    extension_of, joined_path, path_diff_of, rendered, with_extension_of, FilePath, PathDiff,
};
use crate::text::{decimal_text, join, joined, push_decimal};
use crate::tmpfile::{below, Action, StageAction, TmpDir};
use crate::toc::{html_of, toc_markup, Entry, TableOfContents};
use vstd::prelude::*;

verus! {

/// A staged file: where it came from, where it lies in the staging tree,
/// its identifier in the package, its media type, and what it is marked as.
#[derive(Debug)]
pub struct ComposedItem {
    pub src: Option<Source>,
    pub path: FilePath,
    pub id: String,
    pub media_type: MediaType,
    pub properties: Vec<Properties>,
}

/// What a staged file is.
pub ghost struct Item {
    pub src: Option<SourceView>,
    pub path: Seq<Seq<char>>,
    pub id: Seq<char>,
    pub media_type: MediaType,
    pub properties: Seq<Properties>,
}

impl View for ComposedItem {
    type V = Item;

    open spec fn view(&self) -> Item {
        Item {
            src: match self.src {
                Some(src) => Some(src@),
                None => None,
            },
            path: self.path@,
            id: self.id@,
            media_type: self.media_type,
            properties: self.properties@,
        }
    }
}

/// The views of a list of staged files.
pub open spec fn items_view(items: Seq<ComposedItem>) -> Seq<Item> {
    Seq::new(items.len(), |i: int| items[i]@)
}

/// The identifier of the file that is staged as number `ordinal` of its kind.
pub open spec fn item_id(namespace: Seq<char>, ordinal: nat) -> Seq<char> {
    namespace + decimal_text(ordinal)
}

/// What registering a file at `path` returns: the staged file with its
/// identifier and the media type of its extension, without properties, or
/// the refusal of the extension.
pub open spec fn registered(
    src: Option<SourceView>,
    path: Seq<Seq<char>>,
    namespace: Seq<char>,
    ordinal: nat,
    result: Result<ComposedItem, ComposeError>,
) -> bool {
    match result {
        Ok(item) => {
            &&& extension_of(path) is Some
            &&& classify(extension_of(path)->0) == Some(item.media_type)
            &&& item@ == (Item {
                src,
                path,
                id: item_id(namespace, ordinal),
                media_type: item.media_type,
                properties: Seq::empty(),
            })
        },
        Err(e) => match extension_of(path) {
            Some(ext) => classify(ext) is None && (e matches ComposeError::Unsupported(x) && x@
                == ext),
            None => (e matches ComposeError::NoExtension(p) && p@ == path),
        },
    }
}

/// The texts of a list of properties.
pub open spec fn property_texts(properties: Seq<Properties>) -> Seq<Seq<char>> {
    Seq::new(properties.len(), |i: int| properties[i].text())
}

/// The properties of a manifest entry: nothing where the file has none, else
/// the attribute with the properties, a space between each two.
pub open spec fn properties_text(properties: Seq<Properties>) -> Seq<char> {
    if properties.len() == 0 {
        Seq::empty()
    } else {
        " properties=\""@ + joined(property_texts(properties), " "@) + "\""@
    }
}

/// The manifest entry of a staged file, as written in the package document
/// at `opf`; none where there is no relative path from there to the file.
pub open spec fn manifest_item_text(item: Item, opf: Seq<Seq<char>>) -> Option<Seq<char>> {
    match path_diff_of(opf, item.path) {
        Some(rel) => Some(
            "<item id=\""@ + item.id + "\" href=\""@ + rendered(rel) + "\" media-type=\""@
                + item.media_type.text() + "\""@ + properties_text(item.properties) + " />"@,
        ),
        None => None,
    }
}

/// The entry of a staged file in the reading order.
pub open spec fn spine_item_text(item: Item) -> Seq<char> {
    "<itemref idref=\""@ + item.id + "\" />"@
}

/// The link to a style sheet, as written in the document at `from`; none
/// where there is no relative path from there to the style sheet.
pub open spec fn style_link_text(style: Item, from: Seq<Seq<char>>) -> Option<Seq<char>> {
    match path_diff_of(from, style.path) {
        Some(rel) => Some(
            "<link type=\"text/css\" rel=\"stylesheet\" href=\""@ + rendered(rel) + "\" />"@,
        ),
        None => None,
    }
}

/// Whether a piece of text can be written for each of `items`.
pub open spec fn all_some(texts: Seq<Option<Seq<char>>>) -> bool {
    forall|i: int| 0 <= i < texts.len() ==> (#[trigger] texts[i]) is Some
}

/// The texts that there are.
pub open spec fn all_texts(texts: Seq<Option<Seq<char>>>) -> Seq<Seq<char>> {
    Seq::new(texts.len(), |i: int| texts[i]->0)
}

/// The links to the style sheets `styles`, as written in the document at
/// `from`.
pub open spec fn style_links(styles: Seq<Item>, from: Seq<Seq<char>>) -> Seq<Option<Seq<char>>> {
    Seq::new(styles.len(), |i: int| style_link_text(styles[i], from))
}

/// What rendering the links to style sheets returns: the links, each on a
/// line of its own, or the refusal that names the first style sheet to which
/// there is no relative path.
pub open spec fn linked(
    styles: Seq<Item>,
    from: Seq<Seq<char>>,
    result: Result<String, ComposeError>,
) -> bool {
    match result {
        Ok(text) => all_some(style_links(styles, from)) && text@ == joined(
            all_texts(style_links(styles, from)),
            "\n"@,
        ),
        Err(e) => exists|i: int|
            0 <= i < styles.len() && (#[trigger] style_links(styles, from)[i]) is None && (
            e matches ComposeError::Unrelated(a, b) && a@ == from && b@ == styles[i].path),
    }
}

impl ComposedItem {
    /// Registers the staged copy at `path` of the source file `src` as number
    /// `len` of its kind.
    pub fn new(src: &Source, path: &FilePath, namespace: &str, len: usize) -> (result: Result<
        ComposedItem,
        ComposeError,
    >)
        ensures
            registered(Some(src@), path@, namespace@, len as nat, result),
    {
        match MediaType::try_from(path) {
            Ok(media_type) => {
                let mut id = String::from_str(namespace);
                push_decimal(&mut id, len);
                Ok(
                    ComposedItem {
                        src: Some(src.copy()),
                        path: path.clone(),
                        id,
                        media_type,
                        properties: Vec::new(),
                    },
                )
            },
            Err(e) => Err(e),
        }
    }

    /// Registers the file at `path`, which was made and not copied, as number
    /// `len` of its kind.
    pub fn without_src(path: &FilePath, namespace: &str, len: usize) -> (result: Result<
        ComposedItem,
        ComposeError,
    >)
        ensures
            registered(None, path@, namespace@, len as nat, result),
    {
        match MediaType::try_from(path) {
            Ok(media_type) => {
                let mut id = String::from_str(namespace);
                push_decimal(&mut id, len);
                Ok(
                    ComposedItem {
                        src: None,
                        path: path.clone(),
                        id,
                        media_type,
                        properties: Vec::new(),
                    },
                )
            },
            Err(e) => Err(e),
        }
    }

    /// The manifest entry of the file in the package document at `opf_path`.
    pub fn as_manifest_item(&self, opf_path: &FilePath) -> (result: Result<String, ComposeError>)
        ensures
            match result {
                Ok(text) => manifest_item_text(self@, opf_path@) == Some(text@),
                Err(e) => manifest_item_text(self@, opf_path@) is None && (
                e matches ComposeError::Unrelated(a, b) && a@ == opf_path@ && b@ == self.path@),
            },
    {
        let rel = match FilePath::path_diff(opf_path, &self.path) {
            Some(rel) => rel,
            None => {
                return Err(ComposeError::Unrelated(opf_path.clone(), self.path.clone()));
            },
        };
        let mut names: Vec<String> = Vec::new();
        let mut i: usize = 0;
        while i < self.properties.len()
            invariant
                i <= self.properties.len(),
                names.deep_view() == property_texts(self.properties@.take(i as int)),
            decreases self.properties.len() - i,
        {
            let ghost before = names.deep_view();
            let name = self.properties[i].to_string();
            names.push(name);
            assert(names.deep_view() == before.push(name@));
            assert(property_texts(self.properties@.take(i + 1)) == property_texts(
                self.properties@.take(i as int),
            ).push(self.properties@[i as int].text()));
            i += 1;
        }
        assert(self.properties@.take(self.properties@.len() as int) == self.properties@);
        let mut text = String::from_str("<item id=\"");
        text.append(self.id.as_str());
        text.append("\" href=\"");
        text.append(rel.to_string().as_str());
        text.append("\" media-type=\"");
        text.append(self.media_type.to_string().as_str());
        text.append("\"");
        if self.properties.len() > 0 {
            let mut properties = String::from_str(" properties=\"");
            properties.append(join(&names, " ").as_str());
            properties.append("\"");
            text.append(properties.as_str());
        } else {
            assert(text@ + Seq::<char>::empty() == text@);
        }
        text.append(" />");
        Ok(text)
    }

    /// The entry of the file in the reading order.
    pub fn as_spine_item(&self) -> (text: String)
        ensures
            text@ == spine_item_text(self@),
    {
        let mut text = String::from_str("<itemref idref=\"");
        text.append(self.id.as_str());
        text.append("\" />");
        text
    }

    /// A copy of the staged file.
    pub fn copy(&self) -> (item: ComposedItem)
        ensures
            item@ == self@,
    {
        ComposedItem {
            src: match &self.src {
                Some(src) => Some(src.copy()),
                None => None,
            },
            path: self.path.clone(),
            id: self.id.clone(),
            media_type: self.media_type,
            properties: self.properties.clone(),
        }
    }

    /// Whether the file is marked as a navigation document.
    pub fn is_nav(&self) -> (nav: bool)
        ensures
            nav == self@.properties.contains(Properties::Nav),
    {
        let mut i: usize = 0;
        while i < self.properties.len()
            invariant
                i <= self.properties.len(),
                forall|k: int| 0 <= k < i ==> self.properties@[k] != Properties::Nav,
            decreases self.properties.len() - i,
        {
            if self.properties[i].is_nav() {
                assert(self.properties@[i as int] == Properties::Nav);
                return true;
            }
            i += 1;
        }
        false
    }
}

/// The link block for the style sheets `styles` in the document at `from`.
pub fn links_to(styles: &Vec<ComposedItem>, from: &FilePath) -> (result: Result<
    String,
    ComposeError,
>)
    ensures
        linked(items_view(styles@), from@, result),
{
    let mut lines: Vec<String> = Vec::new();
    let ghost links = style_links(items_view(styles@), from@);
    let mut i: usize = 0;
    while i < styles.len()
        invariant
            i <= styles.len(),
            links == style_links(items_view(styles@), from@),
            all_some(links.take(i as int)),
            lines.deep_view() == all_texts(links.take(i as int)),
        decreases styles.len() - i,
    {
        match FilePath::path_diff(from, &styles[i].path) {
            Some(rel) => {
                let mut line = String::from_str(
                    "<link type=\"text/css\" rel=\"stylesheet\" href=\"",
                );
                line.append(rel.to_string().as_str());
                line.append("\" />");
                let ghost before = lines.deep_view();
                lines.push(line);
                proof {
                    assert(lines.deep_view() == before.push(line@));
                    assert(links[i as int] == Some(line@));
                    assert(all_texts(links.take(i + 1)) == all_texts(links.take(i as int)).push(
                        line@,
                    ));
                    assert forall|k: int| 0 <= k < links.take(i + 1).len() implies (
                    #[trigger] links.take(i + 1)[k]) is Some by {
                        if k < i {
                            assert(links.take(i as int)[k] is Some);
                        }
                    }
                }
            },
            None => {
                assert(links[i as int] is None);
                return Err(ComposeError::Unrelated(from.clone(), styles[i].path.clone()));
            },
        }
        i += 1;
    }
    assert(links.take(styles@.len() as int) == links);
    Ok(join(&lines, "\n"))
}

/// The registry of what was staged, one list for each kind.
#[derive(Debug)]
pub struct Composed {
    /// The content documents.
    pub contents: Vec<ComposedItem>,
    /// The style sheets.
    pub style_items: Vec<ComposedItem>,
    /// All other files.
    pub static_items: Vec<ComposedItem>,
}

impl Composed {
    /// A registry that holds nothing.
    pub fn new() -> (composed: Composed)
        ensures
            composed.contents@.len() == 0,
            composed.style_items@.len() == 0,
            composed.static_items@.len() == 0,
    {
        Composed { contents: Vec::new(), style_items: Vec::new(), static_items: Vec::new() }
    }

    /// The links to all style sheets of the registry, as written in the
    /// document at `content_path`, each on a line of its own.
    pub fn styles_links(&self, content_path: &FilePath) -> (result: Result<String, ComposeError>)
        ensures
            linked(items_view(self.style_items@), content_path@, result),
    {
        links_to(&self.style_items, content_path)
    }
}

/// How far the composition has come. The steps are taken in this order, and
/// each needs the one before it; only the cover image may be left out.
#[derive(Debug, Clone, Copy, PartialEq, Eq, Structural)]
pub enum Stage {
    Init,
    StyleStaged,
    StaticStaged,
    ContentStaged,
    CoverStaged,
    NavigationRendered,
    PackageRendered,
    Archived,
}

/// What a step of the composition leaves to its caller: what has to be done
/// in the file system, and what is to be reported.
#[derive(Debug)]
pub struct StageOutcome {
    pub actions: Vec<StageAction>,
    pub logs: Vec<RepubLog>,
    pub warnings: Vec<RepubWarning>,
}

/// What a step of the composition comes to.
pub ghost struct Outcome {
    pub actions: Seq<Action>,
    pub logs: Seq<Seq<char>>,
    pub warnings: Seq<Seq<char>>,
}

impl View for StageOutcome {
    type V = Outcome;

    open spec fn view(&self) -> Outcome {
        Outcome {
            actions: crate::tmpfile::actions_view(self.actions@),
            logs: crate::markup::log_texts(self.logs@),
            warnings: crate::load::warning_texts(self.warnings@),
        }
    }
}

impl StageOutcome {
    /// Nothing to do and nothing to report.
    pub fn new() -> (outcome: StageOutcome)
        ensures
            outcome@ == (Outcome {
                actions: Seq::empty(),
                logs: Seq::empty(),
                warnings: Seq::empty(),
            }),
    {
        let outcome = StageOutcome {
            actions: Vec::new(),
            logs: Vec::new(),
            warnings: Vec::new(),
        };
        assert(outcome@.actions == Seq::<Action>::empty());
        assert(outcome@.logs == Seq::<Seq<char>>::empty());
        assert(outcome@.warnings == Seq::<Seq<char>>::empty());
        outcome
    }

    fn push_action(&mut self, action: StageAction)
        ensures
            final(self)@ == (Outcome { actions: old(self)@.actions.push(action@), ..old(self)@ }),
    {
        self.actions.push(action);
        assert(final(self)@.actions == old(self)@.actions.push(action@));
    }

    fn push_log(&mut self, log: RepubLog)
        ensures
            final(self)@ == (Outcome { logs: old(self)@.logs.push(log.1@), ..old(self)@ }),
    {
        self.logs.push(log);
        assert(final(self)@.logs == old(self)@.logs.push(log.1@));
    }

    fn push_warning(&mut self, warning: RepubWarning)
        ensures
            final(self)@ == (Outcome {
                warnings: old(self)@.warnings.push(warning.0@),
                ..old(self)@
            }),
    {
        self.warnings.push(warning);
        assert(final(self)@.warnings == old(self)@.warnings.push(warning.0@));
    }
}

/// The views of a list of paths.
pub open spec fn paths_view(paths: Seq<FilePath>) -> Seq<Seq<Seq<char>>> {
    Seq::new(paths.len(), |i: int| paths[i]@)
}

/// Whether a source file is taken: it lies below `target`, and the path to
/// it from there is not among `ignores`.
pub open spec fn is_taken(
    source: SourceView,
    target: Seq<Seq<char>>,
    ignores: Seq<Seq<Seq<char>>>,
) -> bool {
    path_diff_of(target, source.path) is Some && !ignores.contains(
        path_diff_of(target, source.path)->0,
    )
}

/// The source files among `sources` that are taken, in order.
pub open spec fn taken(
    sources: Seq<SourceView>,
    target: Seq<Seq<char>>,
    ignores: Seq<Seq<Seq<char>>>,
) -> Seq<SourceView>
    decreases sources.len(),
{
    if sources.len() == 0 {
        Seq::empty()
    } else {
        let before = taken(sources.drop_last(), target, ignores);
        if is_taken(sources.last(), target, ignores) {
            before.push(sources.last())
        } else {
            before
        }
    }
}

/// Whether `path` is one of `paths`.
pub fn contains_path(paths: &Vec<FilePath>, path: &FilePath) -> (found: bool)
    ensures
        found == paths_view(paths@).contains(path@),
{
    let mut i: usize = 0;
    while i < paths.len()
        invariant
            i <= paths.len(),
            forall|k: int| 0 <= k < i ==> paths_view(paths@)[k] != path@,
        decreases paths.len() - i,
    {
        if paths[i].same(path) {
            assert(paths_view(paths@)[i as int] == path@);
            return true;
        }
        i += 1;
    }
    false
}

/// The warning that a file was left out.
pub open spec fn skip_warning(path: Seq<Seq<char>>, reason: Seq<char>) -> Seq<char> {
    rendered(path) + " : "@ + reason
}

/// The reason for which a file at `path` cannot be registered.
pub open spec fn refusal_text(path: Seq<Seq<char>>) -> Seq<char> {
    match extension_of(path) {
        Some(ext) => "unsupported extension: "@ + ext,
        None => "no extension: "@ + rendered(path),
    }
}

/// A registry list and what the staging of files into it has come to.
pub ghost struct Staging {
    pub items: Seq<Item>,
    pub outcome: Outcome,
}

/// What staging one source file comes to. The file goes to the place below
/// the content directory that it has below the target. Where its extension
/// is that of a media type, it is copied, registered as the next of its kind
/// and reported; where not, or where it does not lie below the target, it is
/// left out with a warning.
pub open spec fn staged_one(
    before: Staging,
    source: SourceView,
    target: Seq<Seq<char>>,
    oebps: Seq<Seq<char>>,
    namespace: Seq<char>,
) -> Staging {
    match path_diff_of(target, source.path) {
        Some(rel) => {
            let to = joined_path(oebps, rel);
            if extension_of(to) is Some && classify(extension_of(to)->0) is Some {
                Staging {
                    items: before.items.push(
                        Item {
                            src: Some(source),
                            path: to,
                            id: item_id(namespace, before.items.len()),
                            media_type: classify(extension_of(to)->0)->0,
                            properties: Seq::empty(),
                        },
                    ),
                    outcome: Outcome {
                        actions: before.outcome.actions.push(
                            Action::Copy { from: source.path, to },
                        ),
                        logs: before.outcome.logs.push(rendered(rel)),
                        warnings: before.outcome.warnings,
                    },
                }
            } else {
                Staging {
                    items: before.items,
                    outcome: Outcome {
                        warnings: before.outcome.warnings.push(
                            skip_warning(source.path, refusal_text(to)),
                        ),
                        ..before.outcome
                    },
                }
            }
        },
        None => Staging {
            items: before.items,
            outcome: Outcome {
                warnings: before.outcome.warnings.push(
                    skip_warning(source.path, "not below the input"@),
                ),
                ..before.outcome
            },
        },
    }
}

/// What staging source files, one after the other, comes to.
pub open spec fn staged(
    before: Staging,
    sources: Seq<SourceView>,
    target: Seq<Seq<char>>,
    oebps: Seq<Seq<char>>,
    namespace: Seq<char>,
) -> Staging
    decreases sources.len(),
{
    if sources.len() == 0 {
        before
    } else {
        staged_one(
            staged(before, sources.drop_last(), target, oebps, namespace),
            sources.last(),
            target,
            oebps,
            namespace,
        )
    }
}

fn stage_one(
    items: &mut Vec<ComposedItem>,
    outcome: &mut StageOutcome,
    source: &Source,
    target: &FilePath,
    oebps: &FilePath,
    namespace: &str,
)
    ensures
        (Staging { items: items_view(final(items)@), outcome: final(outcome)@ }) == staged_one(
            Staging { items: items_view(old(items)@), outcome: old(outcome)@ },
            source@,
            target@,
            oebps@,
            namespace@,
        ),
{
    let ghost before = items_view(items@);
    match FilePath::path_diff(target, &source.path) {
        Some(rel) => {
            let to = oebps.join(&rel);
            match ComposedItem::new(source, &to, namespace, items.len()) {
                Ok(item) => {
                    outcome.push_action(StageAction::Copy { from: source.path.clone(), to });
                    outcome.push_log(RepubLog::packed(rel.to_string().as_str()));
                    items.push(item);
                    assert(items_view(items@) == before.push(item@));
                },
                Err(e) => {
                    let mut text = source.path.to_string();
                    text.append(" : ");
                    text.append(e.message().as_str());
                    outcome.push_warning(RepubWarning(text));
                    assert(items_view(items@) == before);
                },
            }
        },
        None => {
            let mut text = source.path.to_string();
            text.append(" : ");
            text.append("not below the input");
            outcome.push_warning(RepubWarning(text));
            assert(items_view(items@) == before);
        },
    }
}

fn stage_files(
    items: &mut Vec<ComposedItem>,
    outcome: &mut StageOutcome,
    sources: &Vec<Source>,
    target: &FilePath,
    oebps: &FilePath,
    namespace: &str,
)
    ensures
        (Staging { items: items_view(final(items)@), outcome: final(outcome)@ }) == staged(
            Staging { items: items_view(old(items)@), outcome: old(outcome)@ },
            crate::data::sources_view(sources@),
            target@,
            oebps@,
            namespace@,
        ),
{
    let ghost start = Staging { items: items_view(items@), outcome: outcome@ };
    let ghost all = crate::data::sources_view(sources@);
    let mut i: usize = 0;
    while i < sources.len()
        invariant
            i <= sources.len(),
            all == crate::data::sources_view(sources@),
            (Staging { items: items_view(items@), outcome: outcome@ }) == staged(
                start,
                all.take(i as int),
                target@,
                oebps@,
                namespace@,
            ),
        decreases sources.len() - i,
    {
        proof {
            assert(all.take(i + 1).drop_last() == all.take(i as int));
            assert(all.take(i + 1).last() == sources@[i as int]@);
        }
        stage_one(items, outcome, &sources[i], target, oebps, namespace);
        i += 1;
    }
    assert(all.take(sources@.len() as int) == all);
}

/// The composition of one package.
#[derive(Debug)]
pub struct Composer {
    /// The staging tree.
    pub tmp_dir: TmpDir,
    /// The settings and the source files.
    pub data: InputData,
    /// The registry of what was staged.
    pub composed: Composed,
    /// The table of contents.
    pub toc: TableOfContents,
    /// The navigation document, once it is rendered.
    pub navigation: Option<ComposedItem>,
    /// How far the composition has come.
    pub stage: Stage,
}

/// The cover image as it is registered.
pub open spec fn cover_item(to: Seq<Seq<char>>, ordinal: nat) -> Item {
    Item {
        src: None,
        path: to,
        id: item_id("static"@, ordinal),
        media_type: classify(extension_of(to)->0)->0,
        properties: seq![Properties::CoverImage],
    }
}

/// The report that the cover image was staged.
pub open spec fn cover_log(image: Seq<Seq<char>>) -> Seq<char> {
    "Cover Image ("@ + rendered(image) + ")"@
}

/// What staging the cover image `image`, a path below the target, comes to:
/// an image of a supported media type is copied to its place below the
/// content directory and registered with the other files, marked as the
/// cover; any other is left out with a warning.
pub open spec fn staged_cover(
    before: Seq<Item>,
    image: Seq<Seq<char>>,
    target: Seq<Seq<char>>,
    oebps: Seq<Seq<char>>,
) -> Staging {
    let from = joined_path(target, image);
    let to = joined_path(oebps, image);
    if extension_of(to) is Some && classify(extension_of(to)->0) is Some {
        Staging {
            items: before.push(cover_item(to, before.len())),
            outcome: Outcome {
                actions: seq![Action::Copy { from, to }],
                logs: seq![cover_log(image)],
                warnings: Seq::empty(),
            },
        }
    } else {
        Staging {
            items: before,
            outcome: Outcome {
                actions: Seq::empty(),
                logs: Seq::empty(),
                warnings: seq![skip_warning(from, refusal_text(to))],
            },
        }
    }
}

/// Nothing to do and nothing to report.
pub open spec fn no_outcome() -> Outcome {
    Outcome { actions: Seq::empty(), logs: Seq::empty(), warnings: Seq::empty() }
}

impl Composer {
    /// Whether the parts of the composition fit together.
    pub open spec fn wf(&self) -> bool {
        self.tmp_dir.wf() && self.toc.wf()
    }

    /// Whether two states of a composition differ in nothing but the registry
    /// and the stage.
    pub open spec fn same_input(&self, other: &Composer) -> bool {
        &&& self.tmp_dir == other.tmp_dir
        &&& self.data == other.data
        &&& self.toc == other.toc
        &&& self.navigation == other.navigation
    }

    /// The target of the run.
    pub open spec fn target(&self) -> Seq<Seq<char>> {
        self.data.cfg.target@
    }

    /// The content directory of the staging tree.
    pub open spec fn oebps(&self) -> Seq<Seq<char>> {
        self.tmp_dir.oebps.path@
    }

    /// Starts the composition of the input `value`, with the staging tree in
    /// its usual place.
    pub fn new(value: InputData) -> (composer: Composer)
        ensures
            composer.wf(),
            composer.stage == Stage::Init,
            composer.data == value,
            composer.composed.contents@.len() == 0,
            composer.composed.style_items@.len() == 0,
            composer.composed.static_items@.len() == 0,
            composer.toc@ == Seq::<Entry>::empty(),
            composer.toc.anchored(),
            composer.navigation is None,
            composer.tmp_dir.path@ == crate::path::components(crate::tmpfile::TMP_DIR_PATH_STR@),
            composer.tmp_dir.oebps.package_opf is None,
    {
        Composer {
            tmp_dir: TmpDir::new(),
            data: value,
            composed: Composed::new(),
            toc: TableOfContents::new(),
            navigation: None,
            stage: Stage::Init,
        }
    }

    /// The source files among `src` that the configuration does not leave
    /// out.
    pub fn filter_ignored_source(src: &Vec<Source>, cfg: &Config) -> (kept: Vec<Source>)
        ensures
            crate::data::sources_view(kept@) == taken(
                crate::data::sources_view(src@),
                cfg.target@,
                paths_view(cfg.ignores@),
            ),
    {
        let mut kept: Vec<Source> = Vec::new();
        let ghost all = crate::data::sources_view(src@);
        let mut i: usize = 0;
        while i < src.len()
            invariant
                i <= src.len(),
                all == crate::data::sources_view(src@),
                crate::data::sources_view(kept@) == taken(
                    all.take(i as int),
                    cfg.target@,
                    paths_view(cfg.ignores@),
                ),
            decreases src.len() - i,
        {
            proof {
                assert(all.take(i + 1).drop_last() == all.take(i as int));
                assert(all.take(i + 1).last() == src@[i as int]@);
            }
            let take = match FilePath::path_diff(&cfg.target, &src[i].path) {
                Some(rel) => !contains_path(&cfg.ignores, &rel),
                None => false,
            };
            if take {
                let ghost before = crate::data::sources_view(kept@);
                let source = src[i].copy();
                kept.push(source);
                assert(crate::data::sources_view(kept@) == before.push(source@));
            }
            i += 1;
        }
        assert(all.take(src@.len() as int) == all);
        kept
    }

    /// What staging the style sheets makes of a composition: in the first step
    /// the style sheets that are taken are staged, in the order in which they
    /// were found; at any other time nothing is changed.
    #[verifier::opaque]
    pub open spec fn css_step(
        before: &Composer,
        after: &Composer,
        result: Result<StageOutcome, ComposeError>,
    ) -> bool {
        &&& match result {
            Ok(outcome) => {
                &&& before.stage == Stage::Init
                &&& after.stage == Stage::StyleStaged
                &&& after.same_input(before)
                &&& after.composed.contents == before.composed.contents
                &&& after.composed.static_items == before.composed.static_items
                &&& (Staging {
                    items: items_view(after.composed.style_items@),
                    outcome: outcome@,
                }) == staged(
                    Staging {
                        items: items_view(before.composed.style_items@),
                        outcome: no_outcome(),
                    },
                    taken(
                        crate::data::sources_view(before.data.files.style_files@),
                        before.target(),
                        paths_view(before.data.cfg.ignores@),
                    ),
                    before.target(),
                    before.oebps(),
                    "css"@,
                )
            },
            Err(e) => e is OutOfOrder && before.stage != Stage::Init && *after == *before,
        }
    }

    /// Stages the style sheets: the first step.
    pub fn compose_css(&mut self) -> (result: Result<StageOutcome, ComposeError>)
        ensures
            Composer::css_step(old(self), final(self), result),
            old(self).wf() ==> final(self).wf(),
            result is Ok ==> old(self).stage == Stage::Init && final(self).stage == Stage::StyleStaged,
            result is Err ==> *final(self) == *old(self),
    {
        proof {
            reveal(Composer::css_step);
        }
        if self.stage != Stage::Init {
            return Err(ComposeError::OutOfOrder);
        }
        let kept = Composer::filter_ignored_source(&self.data.files.style_files, &self.data.cfg);
        let mut outcome = StageOutcome::new();
        stage_files(
            &mut self.composed.style_items,
            &mut outcome,
            &kept,
            &self.data.cfg.target,
            &self.tmp_dir.oebps.path,
            "css",
        );
        self.stage = Stage::StyleStaged;
        Ok(outcome)
    }

    /// What staging the other files makes of a composition: in the second step
    /// the files that are taken are staged, in the order in which they were
    /// found; at any other time nothing is changed.
    #[verifier::opaque]
    pub open spec fn static_step(
        before: &Composer,
        after: &Composer,
        result: Result<StageOutcome, ComposeError>,
    ) -> bool {
        &&& match result {
            Ok(outcome) => {
                &&& before.stage == Stage::StyleStaged
                &&& after.stage == Stage::StaticStaged
                &&& after.same_input(before)
                &&& after.composed.contents == before.composed.contents
                &&& after.composed.style_items == before.composed.style_items
                &&& (Staging {
                    items: items_view(after.composed.static_items@),
                    outcome: outcome@,
                }) == staged(
                    Staging {
                        items: items_view(before.composed.static_items@),
                        outcome: no_outcome(),
                    },
                    taken(
                        crate::data::sources_view(before.data.files.static_files@),
                        before.target(),
                        paths_view(before.data.cfg.ignores@),
                    ),
                    before.target(),
                    before.oebps(),
                    "static"@,
                )
            },
            Err(e) => e is OutOfOrder && before.stage != Stage::StyleStaged && *after
                == *before,
        }
    }

    /// Stages the files that are neither content nor style: the second step.
    pub fn compose_static(&mut self) -> (result: Result<StageOutcome, ComposeError>)
        ensures
            Composer::static_step(old(self), final(self), result),
            old(self).wf() ==> final(self).wf(),
            result is Ok ==> old(self).stage == Stage::StyleStaged && final(self).stage == Stage::StaticStaged,
            result is Err ==> *final(self) == *old(self),
    {
        proof {
            reveal(Composer::static_step);
        }
        if self.stage != Stage::StyleStaged {
            return Err(ComposeError::OutOfOrder);
        }
        let kept = Composer::filter_ignored_source(&self.data.files.static_files, &self.data.cfg);
        let mut outcome = StageOutcome::new();
        stage_files(
            &mut self.composed.static_items,
            &mut outcome,
            &kept,
            &self.data.cfg.target,
            &self.tmp_dir.oebps.path,
            "static",
        );
        self.stage = Stage::StaticStaged;
        Ok(outcome)
    }

    /// What staging the cover image makes of a composition: after the content,
    /// the cover image that the configuration names is staged; without one,
    /// the registry stays as it is.
    #[verifier::opaque]
    pub open spec fn cover_step(
        before: &Composer,
        after: &Composer,
        result: Result<StageOutcome, ComposeError>,
    ) -> bool {
        &&& match result {
            Ok(outcome) => {
                &&& before.stage == Stage::ContentStaged
                &&& after.stage == Stage::CoverStaged
                &&& after.same_input(before)
                &&& after.composed.contents == before.composed.contents
                &&& after.composed.style_items == before.composed.style_items
                &&& match before.data.cfg.cover_image {
                    Some(image) => (Staging {
                        items: items_view(after.composed.static_items@),
                        outcome: outcome@,
                    }) == staged_cover(
                        items_view(before.composed.static_items@),
                        image@,
                        before.target(),
                        before.oebps(),
                    ),
                    None => after.composed.static_items
                        == before.composed.static_items && outcome@ == no_outcome(),
                }
            },
            Err(e) => e is OutOfOrder && before.stage != Stage::ContentStaged && *after
                == *before,
        }
    }

    /// Stages the cover image, where the configuration names one: the step
    /// after the content, which may be left out. A configuration names no
    /// cover image that does not exist, so such an image never reaches the
    /// registry.
    pub fn compose_cover_image(&mut self) -> (result: Result<StageOutcome, ComposeError>)
        ensures
            Composer::cover_step(old(self), final(self), result),
            old(self).wf() ==> final(self).wf(),
            result is Ok ==> old(self).stage == Stage::ContentStaged && final(self).stage == Stage::CoverStaged,
            result is Err ==> *final(self) == *old(self),
    {
        proof {
            reveal(Composer::cover_step);
        }
        if self.stage != Stage::ContentStaged {
            return Err(ComposeError::OutOfOrder);
        }
        let mut outcome = StageOutcome::new();
        let ghost before = items_view(self.composed.static_items@);
        match &self.data.cfg.cover_image {
            Some(image) => {
                let from = self.data.cfg.target.join(image);
                let to = self.tmp_dir.oebps.path.join(image);
                match ComposedItem::without_src(&to, "static", self.composed.static_items.len()) {
                    Ok(mut item) => {
                        item.properties.push(Properties::CoverImage);
                        let mut text = String::from_str("Cover Image (");
                        text.append(image.to_string().as_str());
                        text.append(")");
                        outcome.push_action(StageAction::Copy { from, to });
                        outcome.push_log(RepubLog::packed(text.as_str()));
                        self.composed.static_items.push(item);
                        assert(item@ == cover_item(to@, before.len()));
                        assert(items_view(self.composed.static_items@) == before.push(item@));
                        assert(outcome@.actions == seq![Action::Copy { from: from@, to: to@ }]);
                        assert(outcome@.logs == seq![cover_log(image@)]);
                    },
                    Err(e) => {
                        let mut text = from.to_string();
                        text.append(" : ");
                        text.append(e.message().as_str());
                        outcome.push_warning(RepubWarning(text));
                        assert(outcome@.warnings == seq![skip_warning(from@, refusal_text(to@))]);
                        assert(items_view(self.composed.static_items@) == before);
                    },
                }
            },
            None => {},
        }
        self.stage = Stage::CoverStaged;
        Ok(outcome)
    }
}

/// What the configuration says of the document at `path`: the first entry
/// whose place below the target is that path.
pub open spec fn configure_of(
    configures: Seq<crate::load::Configure>,
    target: Seq<Seq<char>>,
    path: Seq<Seq<char>>,
) -> Option<crate::load::Configure>
    decreases configures.len(),
{
    if configures.len() == 0 {
        None
    } else if joined_path(target, configures[0].src) == path {
        Some(configures[0])
    } else {
        configure_of(configures.skip(1), target, path)
    }
}

/// The first of `items` that lies at `path`.
pub open spec fn item_at(items: Seq<Item>, path: Seq<Seq<char>>) -> Option<Item>
    decreases items.len(),
{
    if items.len() == 0 {
        None
    } else if items[0].path == path {
        Some(items[0])
    } else {
        item_at(items.skip(1), path)
    }
}

/// The staged style sheets that `styles` names, as paths below the target; a
/// name that no staged style sheet answers to is passed over.
pub open spec fn named_styles(
    styles: Seq<Seq<Seq<char>>>,
    oebps: Seq<Seq<char>>,
    style_items: Seq<Item>,
) -> Seq<Item>
    decreases styles.len(),
{
    if styles.len() == 0 {
        Seq::empty()
    } else {
        let before = named_styles(styles.drop_last(), oebps, style_items);
        match item_at(style_items, joined_path(oebps, styles.last())) {
            Some(item) => before.push(item),
            None => before,
        }
    }
}

/// The first of `contents` that lies at `path`.
pub open spec fn content_at(contents: Seq<ContentSourceView>, path: Seq<Seq<char>>) -> Option<
    ContentSourceView,
>
    decreases contents.len(),
{
    if contents.len() == 0 {
        None
    } else if contents[0].src.path == path {
        Some(contents[0])
    } else {
        content_at(contents.skip(1), path)
    }
}

/// The content documents that `sequence` names, as paths below the target,
/// in the order of the names; a name that no content document answers to is
/// passed over.
pub open spec fn sequenced(
    sequence: Seq<Seq<Seq<char>>>,
    target: Seq<Seq<char>>,
    contents: Seq<ContentSourceView>,
) -> Seq<ContentSourceView>
    decreases sequence.len(),
{
    if sequence.len() == 0 {
        Seq::empty()
    } else {
        let before = sequenced(sequence.drop_last(), target, contents);
        match content_at(contents, joined_path(target, sequence.last())) {
            Some(content) => before.push(content),
            None => before,
        }
    }
}

/// The places below the target that `ignores` names.
pub open spec fn ignored_places(ignores: Seq<Seq<Seq<char>>>, target: Seq<Seq<char>>) -> Seq<
    Seq<Seq<char>>,
> {
    Seq::new(ignores.len(), |i: int| joined_path(target, ignores[i]))
}

/// The content documents among `contents` that do not lie at one of the
/// places `ignored`, in order.
pub open spec fn not_ignored(contents: Seq<ContentSourceView>, ignored: Seq<Seq<Seq<char>>>) -> Seq<
    ContentSourceView,
>
    decreases contents.len(),
{
    if contents.len() == 0 {
        Seq::empty()
    } else {
        let before = not_ignored(contents.drop_last(), ignored);
        if ignored.contains(contents.last().src.path) {
            before
        } else {
            before.push(contents.last())
        }
    }
}

/// The content documents of a run in the order in which they are converted:
/// those that the configured sequence names, in its order, or, where none is
/// configured, those that were found, as they were found; without what the
/// configuration leaves out.
pub open spec fn content_queue_of(
    sequence: Option<Seq<Seq<Seq<char>>>>,
    ignores: Seq<Seq<Seq<char>>>,
    target: Seq<Seq<char>>,
    contents: Seq<ContentSourceView>,
) -> Seq<ContentSourceView> {
    let chosen = match sequence {
        Some(names) => sequenced(names, target, contents),
        None => contents,
    };
    not_ignored(chosen, ignored_places(ignores, target))
}

/// The sequence of a configuration as paths.
pub open spec fn sequence_view(sequence: Option<Vec<FilePath>>) -> Option<Seq<Seq<Seq<char>>>> {
    match sequence {
        Some(names) => Some(paths_view(names@)),
        None => None,
    }
}

fn find_content(contents: &Vec<ContentSource>, path: &FilePath) -> (found: Option<usize>)
    ensures
        match found {
            Some(at) => at < contents@.len() && content_at(
                crate::data::contents_view(contents@),
                path@,
            ) == Some(contents@[at as int]@),
            None => content_at(crate::data::contents_view(contents@), path@) is None,
        },
{
    let ghost all = crate::data::contents_view(contents@);
    let mut i: usize = 0;
    assert(all.skip(0) == all);
    while i < contents.len()
        invariant
            i <= contents.len(),
            all == crate::data::contents_view(contents@),
            content_at(all, path@) == content_at(all.skip(i as int), path@),
        decreases contents.len() - i,
    {
        assert(all.skip(i as int).skip(1) == all.skip(i + 1));
        if contents[i].src.path.same(path) {
            return Some(i);
        }
        i += 1;
    }
    None
}

fn find_item(items: &Vec<ComposedItem>, path: &FilePath) -> (found: Option<usize>)
    ensures
        match found {
            Some(at) => at < items@.len() && item_at(items_view(items@), path@) == Some(
                items@[at as int]@,
            ),
            None => item_at(items_view(items@), path@) is None,
        },
{
    let ghost all = items_view(items@);
    let mut i: usize = 0;
    assert(all.skip(0) == all);
    while i < items.len()
        invariant
            i <= items.len(),
            all == items_view(items@),
            item_at(all, path@) == item_at(all.skip(i as int), path@),
        decreases items.len() - i,
    {
        assert(all.skip(i as int).skip(1) == all.skip(i + 1));
        if items[i].path.same(path) {
            return Some(i);
        }
        i += 1;
    }
    None
}

fn find_configure<'a>(
    configures: &'a Vec<crate::load::ContentConfigure>,
    target: &FilePath,
    path: &FilePath,
) -> (found: Option<&'a crate::load::ContentConfigure>)
    ensures
        match found {
            Some(configure) => configure_of(
                crate::load::configures_view(configures@),
                target@,
                path@,
            ) == Some(configure@),
            None => configure_of(crate::load::configures_view(configures@), target@, path@)
                is None,
        },
{
    let ghost all = crate::load::configures_view(configures@);
    let mut i: usize = 0;
    assert(all.skip(0) == all);
    while i < configures.len()
        invariant
            i <= configures.len(),
            all == crate::load::configures_view(configures@),
            configure_of(all, target@, path@) == configure_of(all.skip(i as int), target@, path@),
        decreases configures.len() - i,
    {
        assert(all.skip(i as int).skip(1) == all.skip(i + 1));
        if target.join(&configures[i].src).same(path) {
            return Some(&configures[i]);
        }
        i += 1;
    }
    None
}

fn styles_named(styles: &Vec<FilePath>, oebps: &FilePath, style_items: &Vec<ComposedItem>) -> (out:
    Vec<ComposedItem>)
    ensures
        items_view(out@) == named_styles(paths_view(styles@), oebps@, items_view(style_items@)),
{
    let mut out: Vec<ComposedItem> = Vec::new();
    let ghost all = paths_view(styles@);
    let mut i: usize = 0;
    while i < styles.len()
        invariant
            i <= styles.len(),
            all == paths_view(styles@),
            items_view(out@) == named_styles(all.take(i as int), oebps@, items_view(style_items@)),
        decreases styles.len() - i,
    {
        proof {
            assert(all.take(i + 1).drop_last() == all.take(i as int));
            assert(all.take(i + 1).last() == styles@[i as int]@);
        }
        match find_item(style_items, &oebps.join(&styles[i])) {
            Some(at) => {
                let ghost before = items_view(out@);
                let item = style_items[at].copy();
                out.push(item);
                assert(items_view(out@) == before.push(item@));
            },
            None => {},
        }
        i += 1;
    }
    assert(all.take(styles@.len() as int) == all);
    out
}

impl Composer {
    /// The content documents in the order in which they are to be converted.
    /// The text of each has to be read before `compose_contents` is called.
    pub fn content_queue(&self) -> (queue: Vec<ContentSource>)
        ensures
            crate::data::contents_view(queue@) == content_queue_of(
                sequence_view(self.data.cfg.sequence),
                paths_view(self.data.cfg.ignores@),
                self.target(),
                crate::data::contents_view(self.data.files.content_files@),
            ),
    {
        let cfg = &self.data.cfg;
        let found = &self.data.files.content_files;
        let ghost contents = crate::data::contents_view(found@);
        let mut chosen: Vec<ContentSource> = Vec::new();
        match &cfg.sequence {
            Some(names) => {
                let ghost all = paths_view(names@);
                let mut i: usize = 0;
                while i < names.len()
                    invariant
                        i <= names.len(),
                        all == paths_view(names@),
                        contents == crate::data::contents_view(found@),
                        crate::data::contents_view(chosen@) == sequenced(
                            all.take(i as int),
                            cfg.target@,
                            contents,
                        ),
                    decreases names.len() - i,
                {
                    proof {
                        assert(all.take(i + 1).drop_last() == all.take(i as int));
                        assert(all.take(i + 1).last() == names@[i as int]@);
                    }
                    match find_content(found, &cfg.target.join(&names[i])) {
                        Some(at) => {
                            let ghost before = crate::data::contents_view(chosen@);
                            let content = found[at].copy();
                            chosen.push(content);
                            assert(crate::data::contents_view(chosen@) == before.push(content@));
                        },
                        None => {},
                    }
                    i += 1;
                }
                assert(all.take(names@.len() as int) == all);
            },
            None => {
                let mut i: usize = 0;
                while i < found.len()
                    invariant
                        i <= found.len(),
                        contents == crate::data::contents_view(found@),
                        crate::data::contents_view(chosen@) == contents.take(i as int),
                    decreases found.len() - i,
                {
                    let ghost before = crate::data::contents_view(chosen@);
                    let content = found[i].copy();
                    chosen.push(content);
                    assert(crate::data::contents_view(chosen@) == before.push(content@));
                    assert(contents.take(i + 1) == contents.take(i as int).push(contents[i as int]));
                    i += 1;
                }
                assert(contents.take(found@.len() as int) == contents);
            },
        }
        let mut places: Vec<FilePath> = Vec::new();
        let mut i: usize = 0;
        while i < cfg.ignores.len()
            invariant
                i <= cfg.ignores.len(),
                paths_view(places@) == ignored_places(paths_view(cfg.ignores@), cfg.target@).take(
                    i as int,
                ),
            decreases cfg.ignores.len() - i,
        {
            let ghost before = paths_view(places@);
            let place = cfg.target.join(&cfg.ignores[i]);
            places.push(place);
            assert(paths_view(places@) == before.push(place@));
            i += 1;
        }
        assert(ignored_places(paths_view(cfg.ignores@), cfg.target@).take(
            cfg.ignores@.len() as int,
        ) == ignored_places(paths_view(cfg.ignores@), cfg.target@));
        let mut queue: Vec<ContentSource> = Vec::new();
        let ghost all = crate::data::contents_view(chosen@);
        let mut i: usize = 0;
        while i < chosen.len()
            invariant
                i <= chosen.len(),
                all == crate::data::contents_view(chosen@),
                crate::data::contents_view(queue@) == not_ignored(
                    all.take(i as int),
                    paths_view(places@),
                ),
            decreases chosen.len() - i,
        {
            proof {
                assert(all.take(i + 1).drop_last() == all.take(i as int));
                assert(all.take(i + 1).last() == chosen@[i as int]@);
            }
            if !contains_path(&places, &chosen[i].src.path) {
                let ghost before = crate::data::contents_view(queue@);
                let content = chosen[i].copy();
                queue.push(content);
                assert(crate::data::contents_view(queue@) == before.push(content@));
            }
            i += 1;
        }
        assert(all.take(chosen@.len() as int) == all);
        queue
    }
}

/// A content document: the frame of every converted document around the
/// links to its style sheets, its title and its body.
pub open spec fn content_document(styles: Seq<char>, title: Seq<char>, body: Seq<char>) -> Seq<
    char,
> {
    "<?xml version=\"1.0\" encoding=\"UTF-8\"?>\n<!DOCTYPE html>\n<html xmlns=\"http://www.w3.org/1999/xhtml\" xmlns:epub=\"http://www.idpf.org/2007/ops\">\n<head>\n<meta charset=\"UTF-8\" />\n"@
        + styles + "\n<title>"@ + title + "</title>\n</head>\n<body>\n"@ + body
        + "\n</body>\n</html>\n"@
}

/// Puts a content document together.
pub fn render_content_document(styles: &str, title: &str, body: &str) -> (out: String)
    ensures
        out@ == content_document(styles@, title@, body@),
{
    let mut out = String::from_str(
        "<?xml version=\"1.0\" encoding=\"UTF-8\"?>\n<!DOCTYPE html>\n<html xmlns=\"http://www.w3.org/1999/xhtml\" xmlns:epub=\"http://www.idpf.org/2007/ops\">\n<head>\n<meta charset=\"UTF-8\" />\n",
    );
    out.append(styles);
    out.append("\n<title>");
    out.append(title);
    out.append("</title>\n</head>\n<body>\n");
    out.append(body);
    out.append("\n</body>\n</html>\n");
    out
}

/// The table of contents, the list of staged content documents, and what
/// the conversion has come to so far.
pub ghost struct Converting {
    pub toc: Seq<Entry>,
    pub contents: Seq<Item>,
    pub outcome: Outcome,
}

/// What the conversion of a document goes by, apart from the document.
pub ghost struct Surroundings {
    pub target: Seq<Seq<char>>,
    pub oebps: Seq<Seq<char>>,
    pub style_items: Seq<Item>,
    pub configures: Seq<crate::load::Configure>,
}

/// Why the conversion of a document stops the run.
pub ghost enum Stop {
    /// The steps were not taken in their order.
    OutOfOrder,
    /// The document does not lie below the target.
    Unrelated(Seq<Seq<char>>, Seq<Seq<char>>),
    /// The text of the document was not handed over.
    NoText(Seq<Seq<char>>),
    /// The table of contents has no room for the document, or the document,
    /// or a text in it, is too long for the markup reader and writer.
    Refused(Refused),
    /// There is no relative path from the document to one of its style
    /// sheets.
    Unlinked(Seq<Seq<char>>),
    /// The staged document has no extension.
    NoExtension(Seq<Seq<char>>),
    /// The extension of the staged document is that of no media type.
    Unsupported(Seq<char>),
    /// The time of the last change has not the form of the package document.
    NotATime(Seq<char>),
}

/// Whether the error `e` reports the stop `stop`.
pub open spec fn reports(e: ComposeError, stop: Stop) -> bool {
    match stop {
        Stop::OutOfOrder => e is OutOfOrder,
        Stop::Unrelated(from, to) => (e matches ComposeError::Unrelated(a, b) && a@ == from && b@
            == to),
        Stop::NoText(path) => (e matches ComposeError::NoText(p) && p@ == path),
        Stop::Refused(why) => reports_refusal(e, why),
        Stop::Unlinked(from) => (e matches ComposeError::Unrelated(a, _) && a@ == from),
        Stop::NoExtension(path) => (e matches ComposeError::NoExtension(p) && p@ == path),
        Stop::Unsupported(ext) => (e matches ComposeError::Unsupported(x) && x@ == ext),
        Stop::NotATime(stamp) => (e matches ComposeError::NotATime(x) && x@ == stamp),
    }
}

/// The content document as it is registered.
pub open spec fn content_item(
    content: ContentSourceView,
    to: Seq<Seq<char>>,
    ordinal: nat,
    properties: Seq<Properties>,
) -> Item {
    Item {
        src: Some(content.src),
        path: to,
        id: item_id("contents"@, ordinal),
        media_type: classify(extension_of(to)->0)->0,
        properties,
    }
}

/// Why the file at `to` cannot be registered, if it cannot.
pub open spec fn unregistered(to: Seq<Seq<char>>) -> Option<Stop> {
    match extension_of(to) {
        Some(ext) => if classify(ext) is None {
            Some(Stop::Unsupported(ext))
        } else {
            None
        },
        None => Some(Stop::NoExtension(to)),
    }
}

/// The options under which Markdown is rendered: everything on.
pub open spec fn standard_options() -> MarkdownOptions {
    MarkdownOptions {
        strikethrough: true,
        tagfilter: true,
        table: true,
        autolink: true,
        tasklist: true,
        hardbreaks: true,
        github_pre_lang: true,
    }
}

/// What the conversion of one content document comes to.
///
/// The document goes to the place below the content directory that it has
/// below the target. A document that needs no conversion is copied there. A
/// Markdown document is rendered; the headings among the top-level elements
/// of the result are taken into the table of contents and get their anchors;
/// the body is written in the stricter dialect, framed with the links to the
/// style sheets (those that the configuration names for the document, else
/// all that were staged) and the file name as title, and written to the same
/// place with the extension `xhtml`. Either way the staged document is
/// registered as the next content document, with the properties that the
/// configuration gives it, and reported.
pub open spec fn converted_one(
    before: Converting,
    content: ContentSourceView,
    text: Option<Seq<char>>,
    around: Surroundings,
) -> Result<Converting, Stop> {
    match path_diff_of(around.target, content.src.path) {
        None => Err(Stop::Unrelated(around.target, content.src.path)),
        Some(rel) => {
            let configure = configure_of(around.configures, around.target, content.src.path);
            let properties = match configure {
                Some(c) => c.properties,
                None => Seq::empty(),
            };
            match content.convert_type {
                ConvertType::NoConversion => {
                    let to = joined_path(around.oebps, rel);
                    if unregistered(to) is Some {
                        Err(unregistered(to)->0)
                    } else {
                        Ok(
                            Converting {
                                toc: before.toc,
                                contents: before.contents.push(
                                    content_item(content, to, before.contents.len(), properties),
                                ),
                                outcome: Outcome {
                                    actions: before.outcome.actions.push(
                                        Action::Copy { from: content.src.path, to },
                                    ),
                                    logs: before.outcome.logs.push(rendered(rel)),
                                    warnings: before.outcome.warnings,
                                },
                            },
                        )
                    }
                },
                ConvertType::MarkdownToXHTML => {
                    let to = with_extension_of(joined_path(around.oebps, rel), "xhtml"@);
                    let styles = match configure {
                        Some(c) => named_styles(c.styles, around.oebps, around.style_items),
                        None => around.style_items,
                    };
                    if text is None {
                        Err(Stop::NoText(content.src.path))
                    } else if refused(before.toc, markdown_html(text->0, standard_options()))
                        is Some {
                        Err(
                            Stop::Refused(
                                refused(before.toc, markdown_html(text->0, standard_options()))->0,
                            ),
                        )
                    } else if !all_some(style_links(styles, to)) {
                        Err(Stop::Unlinked(to))
                    } else if unregistered(to) is Some {
                        Err(unregistered(to)->0)
                    } else {
                        let html = markdown_html(text->0, standard_options());
                        let index = indexed(before.toc, document_nodes(html), to);
                        let document = content_document(
                            joined(all_texts(style_links(styles, to)), "\n"@),
                            content.src.file_name,
                            registered_body(before.toc, html, to),
                        );
                        Ok(
                            Converting {
                                toc: index.toc,
                                contents: before.contents.push(
                                    content_item(content, to, before.contents.len(), properties),
                                ),
                                outcome: Outcome {
                                    actions: before.outcome.actions.push(
                                        Action::Write { to, text: document },
                                    ),
                                    logs: (before.outcome.logs + index.logs).push(rendered(rel)),
                                    warnings: before.outcome.warnings,
                                },
                            },
                        )
                    }
                },
            }
        },
    }
}

/// The texts of a list of strings, each of which may be absent.
pub open spec fn texts_view(texts: Seq<Option<String>>) -> Seq<Option<Seq<char>>> {
    Seq::new(texts.len(), |i: int| crate::path::opt_text(texts[i]))
}

/// The text that was handed over for the document at `index`, if any.
pub open spec fn text_at(texts: Seq<Option<Seq<char>>>, index: int) -> Option<Seq<char>> {
    if 0 <= index < texts.len() {
        texts[index]
    } else {
        None
    }
}

/// What the conversion of the first `n` documents of `queue` comes to, one
/// after the other; the first that stops the run ends it.
pub open spec fn converted_all(
    before: Converting,
    queue: Seq<ContentSourceView>,
    texts: Seq<Option<Seq<char>>>,
    around: Surroundings,
    n: nat,
) -> Result<Converting, Stop>
    decreases n,
{
    if n == 0 {
        Ok(before)
    } else {
        match converted_all(before, queue, texts, around, (n - 1) as nat) {
            Ok(state) => converted_one(state, queue[n - 1], text_at(texts, n - 1), around),
            Err(stop) => Err(stop),
        }
    }
}

/// Once a document has stopped the run, the documents behind it change
/// nothing.
pub proof fn lemma_converted_all_stops(
    before: Converting,
    queue: Seq<ContentSourceView>,
    texts: Seq<Option<Seq<char>>>,
    around: Surroundings,
    n: nat,
    m: nat,
)
    requires
        n <= m,
        converted_all(before, queue, texts, around, n) is Err,
    ensures
        converted_all(before, queue, texts, around, m) == converted_all(
            before,
            queue,
            texts,
            around,
            n,
        ),
    decreases m - n,
{
    if n < m {
        lemma_converted_all_stops(before, queue, texts, around, n, (m - 1) as nat);
    }
}

fn push_logs(outcome: &mut StageOutcome, logs: Vec<RepubLog>)
    ensures
        final(outcome)@ == (Outcome {
            logs: old(outcome)@.logs + crate::markup::log_texts(logs@),
            ..old(outcome)@
        }),
{
    let ghost all = logs@;
    let ghost texts = crate::markup::log_texts(logs@);
    assert(old(outcome)@.logs + texts.take(0) == old(outcome)@.logs);
    for log in it: logs
        invariant
            it.seq() == all,
            texts == crate::markup::log_texts(all),
            outcome@ == (Outcome {
                logs: old(outcome)@.logs + texts.take(it.index() as int),
                ..old(outcome)@
            }),
    {
        proof {
            let done = it.index() as int;
            assert(texts.take(done + 1) == texts.take(done).push(log.1@));
            assert((old(outcome)@.logs + texts.take(done)).push(log.1@) == old(outcome)@.logs
                + texts.take(done + 1));
        }
        outcome.push_log(log);
    }
    assert(texts.take(all.len() as int) == texts);
}

impl Composer {
    /// The table of contents and the staged content documents of the
    /// composition, with what a step has come to.
    pub open spec fn converting(&self, outcome: Outcome) -> Converting {
        Converting {
            toc: self.toc@,
            contents: items_view(self.composed.contents@),
            outcome,
        }
    }

    /// What the conversion of a document goes by.
    pub open spec fn surroundings(&self) -> Surroundings {
        Surroundings {
            target: self.target(),
            oebps: self.oebps(),
            style_items: items_view(self.composed.style_items@),
            configures: crate::load::configures_view(self.data.cfg.contents@),
        }
    }

    /// Whether two states of a composition differ in nothing but the table of
    /// contents and the staged content documents.
    pub open spec fn same_but_contents(&self, other: &Composer) -> bool {
        &&& self.tmp_dir == other.tmp_dir
        &&& self.data == other.data
        &&& self.navigation == other.navigation
        &&& self.composed.style_items == other.composed.style_items
        &&& self.composed.static_items == other.composed.static_items
    }

    /// Converts one content document and stages it: see `converted_one`.
    pub fn convert_content_file(
        &mut self,
        file: &ContentSource,
        text: Option<&String>,
        outcome: &mut StageOutcome,
    ) -> (result: Result<(), ComposeError>)
        requires
            old(self).wf(),
        ensures
            final(self).wf(),
            final(self).same_but_contents(old(self)),
            final(self).stage == old(self).stage,
            old(self).toc.anchored() ==> final(self).toc.anchored(),
            match result {
                Ok(()) => converted_one(
                    old(self).converting(old(outcome)@),
                    file@,
                    match text {
                        Some(t) => Some(t@),
                        None => None,
                    },
                    old(self).surroundings(),
                ) == Ok::<Converting, Stop>(final(self).converting(final(outcome)@)),
                Err(e) => {
                    let stopped = converted_one(
                        old(self).converting(old(outcome)@),
                        file@,
                        match text {
                            Some(t) => Some(t@),
                            None => None,
                        },
                        old(self).surroundings(),
                    );
                    stopped is Err && reports(e, stopped->Err_0)
                },
            },
    {
        let rel = match FilePath::path_diff(&self.data.cfg.target, &file.src.path) {
            Some(rel) => rel,
            None => {
                return Err(
                    ComposeError::Unrelated(self.data.cfg.target.clone(), file.src.path.clone()),
                );
            },
        };
        let configure = find_configure(
            &self.data.cfg.contents,
            &self.data.cfg.target,
            &file.src.path,
        );
        let ghost contents_before = items_view(self.composed.contents@);
        match file.convert_type {
            ConvertType::NoConversion => {
                let to = self.tmp_dir.oebps.path.join(&rel);
                let mut item = match ComposedItem::new(
                    &file.src,
                    &to,
                    "contents",
                    self.composed.contents.len(),
                ) {
                    Ok(item) => item,
                    Err(e) => {
                        return Err(e);
                    },
                };
                match configure {
                    Some(c) => {
                        item.properties = c.properties.clone();
                    },
                    None => {},
                }
                outcome.push_action(StageAction::Copy { from: file.src.path.clone(), to });
                outcome.push_log(RepubLog::packed(rel.to_string().as_str()));
                self.composed.contents.push(item);
                assert(items_view(self.composed.contents@) == contents_before.push(item@));
                Ok(())
            },
            ConvertType::MarkdownToXHTML => {
                let to = self.tmp_dir.oebps.path.join(&rel).with_extension("xhtml");
                let md = match text {
                    Some(md) => md,
                    None => {
                        return Err(ComposeError::NoText(file.src.path.clone()));
                    },
                };
                let options = MarkdownOptions::standard();
                let html = markdown_to_html(md.as_str(), &options);
                assert(html@ == markdown_html(md@, standard_options()));
                let (body, logs) = match register_to(&mut self.toc, html.as_str(), &to) {
                    Ok(registered) => registered,
                    Err(e) => {
                        return Err(e);
                    },
                };
                let links = match configure {
                    Some(c) => {
                        let styles = styles_named(
                            &c.styles,
                            &self.tmp_dir.oebps.path,
                            &self.composed.style_items,
                        );
                        assert(paths_view(c.styles@) == c@.styles);
                        links_to(&styles, &to)
                    },
                    None => self.composed.styles_links(&to),
                };
                let links = match links {
                    Ok(links) => links,
                    Err(e) => {
                        return Err(e);
                    },
                };
                let mut item = match ComposedItem::new(
                    &file.src,
                    &to,
                    "contents",
                    self.composed.contents.len(),
                ) {
                    Ok(item) => item,
                    Err(e) => {
                        return Err(e);
                    },
                };
                match configure {
                    Some(c) => {
                        item.properties = c.properties.clone();
                    },
                    None => {},
                }
                let document = render_content_document(
                    links.as_str(),
                    file.src.file_name.as_str(),
                    body.as_str(),
                );
                outcome.push_action(StageAction::Write { to, text: document });
                push_logs(outcome, logs);
                outcome.push_log(RepubLog::converted(rel.to_string().as_str()));
                self.composed.contents.push(item);
                assert(items_view(self.composed.contents@) == contents_before.push(item@));
                Ok(())
            },
        }
    }

    /// What converting the content documents comes to: the third step, which
    /// needs the style sheets to be staged, since the converted documents
    /// link to them.
    pub open spec fn contents_composed(&self, texts: Seq<Option<Seq<char>>>) -> Result<
        Converting,
        Stop,
    > {
        if self.stage != Stage::StaticStaged {
            Err(Stop::OutOfOrder)
        } else {
            let queue = content_queue_of(
                sequence_view(self.data.cfg.sequence),
                paths_view(self.data.cfg.ignores@),
                self.target(),
                crate::data::contents_view(self.data.files.content_files@),
            );
            converted_all(
                self.converting(no_outcome()),
                queue,
                texts,
                self.surroundings(),
                queue.len(),
            )
        }
    }

    /// What converting the content documents makes of a composition: see
    /// `contents_composed`.
    #[verifier::opaque]
    pub open spec fn contents_step(
        before: &Composer,
        after: &Composer,
        texts: Seq<Option<String>>,
        result: Result<StageOutcome, ComposeError>,
    ) -> bool {
        &&& after.wf()
        &&& after.same_but_contents(before)
        &&& match result {
            Ok(outcome) => {
                &&& after.stage == Stage::ContentStaged
                &&& before.contents_composed(texts_view(texts)) == Ok::<Converting, Stop>(
                    after.converting(outcome@),
                )
            },
            Err(e) => {
                &&& before.contents_composed(texts_view(texts)) is Err
                &&& reports(e, before.contents_composed(texts_view(texts))->Err_0)
                &&& before.stage != Stage::StaticStaged ==> *after == *before
            },
        }
    }

    /// Converts and stages the content documents: the third step. `texts`
    /// holds, in the order of `content_queue`, the text of each document that
    /// is to be converted.
    pub fn compose_contents(&mut self, texts: &Vec<Option<String>>) -> (result: Result<
        StageOutcome,
        ComposeError,
    >)
        requires
            old(self).wf(),
        ensures
            Composer::contents_step(old(self), final(self), texts@, result),
            final(self).wf(),
            old(self).toc.anchored() ==> final(self).toc.anchored(),
            result is Ok ==> old(self).stage == Stage::StaticStaged && final(self).stage
                == Stage::ContentStaged,
    {
        proof {
            reveal(Composer::contents_step);
        }
        if self.stage != Stage::StaticStaged {
            return Err(ComposeError::OutOfOrder);
        }
        let queue = self.content_queue();
        let mut outcome = StageOutcome::new();
        let ghost start = self.converting(no_outcome());
        let ghost around = self.surroundings();
        let ghost all = crate::data::contents_view(queue@);
        let ghost handed = texts_view(texts@);
        let mut i: usize = 0;
        while i < queue.len()
            invariant
                i <= queue.len(),
                self.wf(),
                old(self).toc.anchored() ==> self.toc.anchored(),
                self.same_but_contents(old(self)),
                self.stage == Stage::StaticStaged,
                around == self.surroundings(),
                around == old(self).surroundings(),
                start == old(self).converting(no_outcome()),
                old(self).stage == Stage::StaticStaged,
                all == crate::data::contents_view(queue@),
                all == content_queue_of(
                    sequence_view(old(self).data.cfg.sequence),
                    paths_view(old(self).data.cfg.ignores@),
                    old(self).target(),
                    crate::data::contents_view(old(self).data.files.content_files@),
                ),
                handed == texts_view(texts@),
                converted_all(start, all, handed, around, i as nat) == Ok::<Converting, Stop>(
                    self.converting(outcome@),
                ),
            decreases queue.len() - i,
        {
            let ghost state = self.converting(outcome@);
            let text = if i < texts.len() {
                match &texts[i] {
                    Some(text) => Some(text),
                    None => None,
                }
            } else {
                None
            };
            assert(text_at(handed, i as int) == match text {
                Some(t) => Some(t@),
                None => None,
            });
            match self.convert_content_file(&queue[i], text, &mut outcome) {
                Ok(()) => {},
                Err(e) => {
                    proof {
                        reveal(Composer::contents_step);
                        assert(all[i as int] == queue@[i as int]@);
                        assert(converted_all(start, all, handed, around, (i + 1) as nat)
                            == converted_one(state, all[i as int], text_at(handed, i as int), around));
                        lemma_converted_all_stops(
                            start,
                            all,
                            handed,
                            around,
                            (i + 1) as nat,
                            all.len(),
                        );
                    }
                    return Err(e);
                },
            }
            i += 1;
        }
        self.stage = Stage::ContentStaged;
        Ok(outcome)
    }
}

/// The heading of the navigation document.
pub const NAVIGATION_TITLE: &'static str = "\u{76EE}\u{6B21}";

/// The name of the navigation document.
pub const NAVIGATION_NAME: &'static str = "navigation.xhtml";

/// The name of the package document.
pub const PACKAGE_NAME: &'static str = "package.opf";

/// The form in which the time of the last change is written.
pub const TIMESTAMP_PATTERN: &'static str = "%Y-%m-%dT%H:%M:%SZ";

/// The navigation document: the frame around its title, the links to the
/// style sheets, and the navigation list.
pub open spec fn navigation_document(title: Seq<char>, styles: Seq<char>, list: Seq<char>) -> Seq<
    char,
> {
    "<?xml version=\"1.0\" encoding=\"UTF-8\"?>\n<!DOCTYPE html>\n<html xmlns=\"http://www.w3.org/1999/xhtml\" xmlns:epub=\"http://www.idpf.org/2007/ops\">\n<head>\n<meta charset=\"UTF-8\" />\n<title>"@
        + title + "</title>\n"@ + styles
        + "\n</head>\n<body>\n<nav epub:type=\"toc\" id=\"toc\">\n<h1>"@ + title + "</h1>\n"@
        + list + "\n</nav>\n</body>\n</html>\n"@
}

/// Puts the navigation document together.
pub fn render_navigation_document(title: &str, styles: &str, list: &str) -> (out: String)
    ensures
        out@ == navigation_document(title@, styles@, list@),
{
    let mut out = String::from_str(
        "<?xml version=\"1.0\" encoding=\"UTF-8\"?>\n<!DOCTYPE html>\n<html xmlns=\"http://www.w3.org/1999/xhtml\" xmlns:epub=\"http://www.idpf.org/2007/ops\">\n<head>\n<meta charset=\"UTF-8\" />\n<title>",
    );
    out.append(title);
    out.append("</title>\n");
    out.append(styles);
    out.append("\n</head>\n<body>\n<nav epub:type=\"toc\" id=\"toc\">\n<h1>");
    out.append(title);
    out.append("</h1>\n");
    out.append(list);
    out.append("\n</nav>\n</body>\n</html>\n");
    out
}

/// The navigation document as it is registered.
pub open spec fn navigation_item(to: Seq<Seq<char>>) -> Item {
    Item {
        src: None,
        path: to,
        id: item_id("navigation"@, 0),
        media_type: classify(extension_of(to)->0)->0,
        properties: seq![Properties::Nav],
    }
}

/// The path of a file in the staging tree as it is reported: from the root
/// of the tree where there is such a path, else as it is.
pub open spec fn staged_name(root: Seq<Seq<char>>, path: Seq<Seq<char>>) -> Seq<char> {
    match path_diff_of(root, path) {
        Some(rel) => rendered(rel),
        None => rendered(path),
    }
}

fn name_in_tree(root: &FilePath, path: &FilePath) -> (name: String)
    ensures
        name@ == staged_name(root@, path@),
{
    match FilePath::path_diff(root, path) {
        Some(rel) => rel.to_string(),
        None => path.to_string(),
    }
}

/// What rendering the navigation document comes to.
pub ghost struct Navigated {
    /// The navigation document as it is registered.
    pub item: Item,
    /// The document is to be written, and that is reported.
    pub outcome: Outcome,
}

impl Composer {
    /// Where the navigation document lies.
    pub open spec fn navigation_path(&self) -> Seq<Seq<char>> {
        below(self.oebps(), NAVIGATION_NAME@)
    }

    /// Where the package document lies.
    pub open spec fn package_path(&self) -> Seq<Seq<char>> {
        below(self.oebps(), PACKAGE_NAME@)
    }

    /// What rendering the navigation document comes to: the step after the
    /// content and the cover image. The document holds the links to all
    /// staged style sheets and the table of contents as a list, of which the
    /// levels below the configured depth are hidden.
    pub open spec fn navigation_composed(&self) -> Result<Navigated, Stop> {
        let to = self.navigation_path();
        let styles = items_view(self.composed.style_items@);
        if self.stage != Stage::ContentStaged && self.stage != Stage::CoverStaged {
            Err(Stop::OutOfOrder)
        } else if !all_some(style_links(styles, to)) {
            Err(Stop::Unlinked(to))
        } else if unregistered(to) is Some {
            Err(unregistered(to)->0)
        } else {
            Ok(
                Navigated {
                    item: navigation_item(to),
                    outcome: Outcome {
                        actions: seq![
                            Action::Write {
                                to,
                                text: navigation_document(
                                    NAVIGATION_TITLE@,
                                    joined(all_texts(style_links(styles, to)), "\n"@),
                                    html_of(toc_markup(self.toc@, self.data.cfg.toc_depth, to)),
                                ),
                            },
                        ],
                        logs: seq![staged_name(self.tmp_dir.path@, to)],
                        warnings: Seq::empty(),
                    },
                },
            )
        }
    }

    /// What rendering the navigation document makes of a composition: see
    /// `navigation_composed`.
    #[verifier::opaque]
    pub open spec fn nav_step(
        before: &Composer,
        after: &Composer,
        result: Result<StageOutcome, ComposeError>,
    ) -> bool {
        &&& after.tmp_dir == before.tmp_dir
        &&& after.data == before.data
        &&& after.toc == before.toc
        &&& after.composed == before.composed
        &&& match result {
            Ok(outcome) => {
                &&& before.navigation_composed() is Ok
                &&& after.stage == Stage::NavigationRendered
                &&& after.navigation is Some
                &&& after.navigation->0@ == before.navigation_composed()->Ok_0.item
                &&& outcome@ == before.navigation_composed()->Ok_0.outcome
            },
            Err(e) => {
                &&& before.navigation_composed() is Err
                &&& reports(e, before.navigation_composed()->Err_0)
                &&& *after == *before
            },
        }
    }

    /// Renders the navigation document from the table of contents.
    pub fn compose_nav(&mut self) -> (result: Result<StageOutcome, ComposeError>)
        ensures
            Composer::nav_step(old(self), final(self), result),
            old(self).wf() ==> final(self).wf(),
            result is Ok ==> (old(self).stage == Stage::ContentStaged || old(self).stage
                == Stage::CoverStaged) && final(self).stage == Stage::NavigationRendered,
            result is Err ==> *final(self) == *old(self),
    {
        proof {
            reveal(Composer::nav_step);
        }
        if self.stage != Stage::ContentStaged && self.stage != Stage::CoverStaged {
            return Err(ComposeError::OutOfOrder);
        }
        let path = self.tmp_dir.oebps.path.join(&FilePath::from_str(NAVIGATION_NAME));
        let styles = match self.composed.styles_links(&path) {
            Ok(styles) => styles,
            Err(e) => {
                return Err(e);
            },
        };
        let mut item = match ComposedItem::without_src(&path, "navigation", 0) {
            Ok(item) => item,
            Err(e) => {
                return Err(e);
            },
        };
        item.properties.push(Properties::Nav);
        assert(item@.properties == seq![Properties::Nav]);
        let list = self.toc.to_xhtml(self.data.cfg.toc_depth, &path);
        let document = render_navigation_document(
            NAVIGATION_TITLE,
            styles.as_str(),
            list.as_str(),
        );
        let mut outcome = StageOutcome::new();
        let name = name_in_tree(&self.tmp_dir.path, &path);
        outcome.push_action(StageAction::Write { to: path, text: document });
        outcome.push_log(RepubLog::packed(name.as_str()));
        assert(outcome@.actions == seq![Action::Write { to: path@, text: document@ }]);
        assert(outcome@.logs == seq![name@]);
        self.navigation = Some(item);
        self.stage = Stage::NavigationRendered;
        Ok(outcome)
    }
}

/// The staged files in the order of the manifest: the navigation document,
/// the content documents, the style sheets, all other files.
pub open spec fn manifest_items(
    navigation: Option<Item>,
    contents: Seq<Item>,
    styles: Seq<Item>,
    statics: Seq<Item>,
) -> Seq<Item> {
    let first = match navigation {
        Some(item) => seq![item],
        None => Seq::empty(),
    };
    first + contents + styles + statics
}

/// The manifest entries of `items` in the package document at `opf`.
pub open spec fn manifest_entries(items: Seq<Item>, opf: Seq<Seq<char>>) -> Seq<Option<Seq<char>>> {
    Seq::new(items.len(), |i: int| manifest_item_text(items[i], opf))
}

/// The manifest: an entry for each staged file, each on a line of its own.
pub open spec fn manifest_text(items: Seq<Item>, opf: Seq<Seq<char>>) -> Seq<char> {
    "<manifest>\n"@ + joined(all_texts(manifest_entries(items, opf)), "\n"@) + "\n</manifest>"@
}

/// Whether a staged file is marked as a navigation document.
pub open spec fn marked_nav(item: Item) -> bool {
    item.properties.contains(Properties::Nav)
}

/// The files among `items` that are marked as navigation documents, in
/// order.
pub open spec fn navs_of(items: Seq<Item>) -> Seq<Item>
    decreases items.len(),
{
    if items.len() == 0 {
        Seq::empty()
    } else if marked_nav(items.last()) {
        navs_of(items.drop_last()).push(items.last())
    } else {
        navs_of(items.drop_last())
    }
}

/// The files among `items` that are not marked as navigation documents, in
/// order.
pub open spec fn others_of(items: Seq<Item>) -> Seq<Item>
    decreases items.len(),
{
    if items.len() == 0 {
        Seq::empty()
    } else if marked_nav(items.last()) {
        others_of(items.drop_last())
    } else {
        others_of(items.drop_last()).push(items.last())
    }
}

/// The staged files in reading order: the navigation document, the content
/// documents that are marked as navigation documents, and all other content
/// documents, both as they were staged. The content documents are staged in
/// the configured sequence or, without one, as they were found, and get
/// their identifiers in that order.
pub open spec fn spine_items(navigation: Option<Item>, contents: Seq<Item>) -> Seq<Item> {
    let first = match navigation {
        Some(item) => seq![item],
        None => Seq::empty(),
    };
    first + navs_of(contents) + others_of(contents)
}

/// The entries of `items` in the reading order.
pub open spec fn spine_entries(items: Seq<Item>) -> Seq<Seq<char>> {
    Seq::new(items.len(), |i: int| spine_item_text(items[i]))
}

/// The reading order: the direction in which the pages follow each other,
/// and an entry for each document, each on a line of its own.
pub open spec fn spine_text(items: Seq<Item>, direction: PageProgressionDirection) -> Seq<char> {
    "<spine page-progression-direction=\""@ + direction.text() + "\">\n"@ + joined(
        spine_entries(items),
        "\n"@,
    ) + "\n</spine>"@
}

/// The description of the publication: title, language, creator,
/// identifier, and the time of the last change.
pub open spec fn metadata_text(
    title: Seq<char>,
    language: Seq<char>,
    creator: Seq<char>,
    book_id: Seq<char>,
    last_mod: Seq<char>,
) -> Seq<char> {
    "<metadata xmlns:dc=\"http://purl.org/dc/elements/1.1/\">\n<dc:title>"@ + title
        + "</dc:title>\n<dc:language>"@ + language + "</dc:language>\n<dc:creator>"@ + creator
        + "</dc:creator>\n<dc:identifier id=\"BookId\">"@ + book_id
        + "</dc:identifier>\n<meta property=\"dcterms:modified\">"@ + last_mod
        + "</meta>\n</metadata>"@
}

/// What follows the description in a package document: the manifest and the
/// reading order.
pub open spec fn package_rest(manifest: Seq<char>, spine: Seq<char>) -> Seq<char> {
    "\n"@ + manifest + "\n"@ + spine + "\n</package>\n"@
}

/// The package document: the description, the manifest and the reading
/// order.
pub open spec fn package_text(metadata: Seq<char>, manifest: Seq<char>, spine: Seq<char>) -> Seq<
    char,
> {
    "<?xml version=\"1.0\" encoding=\"UTF-8\"?>\n<package xmlns=\"http://www.idpf.org/2007/opf\" version=\"3.0\" unique-identifier=\"BookId\">\n"@
        + metadata + package_rest(manifest, spine)
}

/// Whether `c` may stand at the place `at` of a time: digits for year, month,
/// day, hour, minute and second, with `-`, `T`, `:` and `Z` between and
/// behind them.
pub open spec fn time_place(at: int, c: char) -> bool {
    if at == 4 || at == 7 {
        c == '-'
    } else if at == 10 {
        c == 'T'
    } else if at == 13 || at == 16 {
        c == ':'
    } else if at == 19 {
        c == 'Z'
    } else {
        '0' <= c && c <= '9'
    }
}

/// Whether a text is a time in the form of the package document:
/// `YYYY-MM-DDTHH:MM:SSZ`.
pub open spec fn is_timestamp(text: Seq<char>) -> bool {
    text.len() == 20 && forall|i: int| 0 <= i < 20 ==> time_place(i, #[trigger] text[i])
}

/// Whether `text` is a time in the form of the package document.
pub fn timestamp_ok(text: &str) -> (ok: bool)
    ensures
        ok == is_timestamp(text@),
{
    let chars = crate::text::chars_of(text);
    if chars.len() != 20 {
        return false;
    }
    let mut i: usize = 0;
    while i < 20
        invariant
            i <= 20,
            chars@.len() == 20,
            chars@ == text@,
            forall|k: int| 0 <= k < i ==> time_place(k, #[trigger] chars@[k]),
        decreases 20 - i,
    {
        let c = chars[i];
        let fits = if i == 4 || i == 7 {
            c == '-'
        } else if i == 10 {
            c == 'T'
        } else if i == 13 || i == 16 {
            c == ':'
        } else if i == 19 {
            c == 'Z'
        } else {
            '0' <= c && c <= '9'
        };
        if !fits {
            assert(!time_place(i as int, text@[i as int]));
            return false;
        }
        i += 1;
    }
    true
}

/// The time of the moment, in universal time and in the form `pattern`, by
/// `chrono::Utc::now` and `DateTime::format`. The text is whatever the clock
/// gives; the crate cannot write a time in a form that it does not know, so
/// only the form of the package document is asked for.
#[verifier::external_body]
fn utc_now(pattern: &str) -> (stamp: String)
    requires
        pattern@ == TIMESTAMP_PATTERN@,
{
    chrono::Utc::now().format(pattern).to_string()
}

fn push_copies(out: &mut Vec<ComposedItem>, items: &Vec<ComposedItem>)
    ensures
        items_view(final(out)@) == items_view(old(out)@) + items_view(items@),
{
    let mut i: usize = 0;
    assert(items_view(items@).take(0) == Seq::<Item>::empty());
    assert(items_view(out@) + Seq::<Item>::empty() == items_view(out@));
    while i < items.len()
        invariant
            i <= items.len(),
            items_view(out@) == items_view(old(out)@) + items_view(items@).take(i as int),
        decreases items.len() - i,
    {
        let ghost before = items_view(out@);
        let item = items[i].copy();
        out.push(item);
        assert(items_view(out@) == before.push(item@));
        assert(items_view(items@).take(i + 1) == items_view(items@).take(i as int).push(item@));
        i += 1;
    }
    assert(items_view(items@).take(items@.len() as int) == items_view(items@));
}

fn manifest_lines(items: &Vec<ComposedItem>, opf: &FilePath) -> (result: Result<
    Vec<String>,
    ComposeError,
>)
    ensures
        match result {
            Ok(lines) => all_some(manifest_entries(items_view(items@), opf@))
                && lines.deep_view() == all_texts(manifest_entries(items_view(items@), opf@)),
            Err(e) => !all_some(manifest_entries(items_view(items@), opf@)) && reports(
                e,
                Stop::Unlinked(opf@),
            ),
        },
{
    let ghost entries = manifest_entries(items_view(items@), opf@);
    let mut lines: Vec<String> = Vec::new();
    let mut i: usize = 0;
    while i < items.len()
        invariant
            i <= items.len(),
            entries == manifest_entries(items_view(items@), opf@),
            all_some(entries.take(i as int)),
            lines.deep_view() == all_texts(entries.take(i as int)),
        decreases items.len() - i,
    {
        match items[i].as_manifest_item(opf) {
            Ok(line) => {
                let ghost before = lines.deep_view();
                lines.push(line);
                proof {
                    assert(lines.deep_view() == before.push(line@));
                    assert(entries[i as int] == Some(line@));
                    assert(all_texts(entries.take(i + 1)) == all_texts(entries.take(i as int)).push(
                        line@,
                    ));
                    assert forall|k: int| 0 <= k < entries.take(i + 1).len() implies (
                    #[trigger] entries.take(i + 1)[k]) is Some by {
                        if k < i {
                            assert(entries.take(i as int)[k] is Some);
                        }
                    }
                }
            },
            Err(e) => {
                assert(entries[i as int] is None);
                return Err(e);
            },
        }
        i += 1;
    }
    assert(entries.take(items@.len() as int) == entries);
    Ok(lines)
}

impl Composer {
    /// The navigation document as it is registered, once it is rendered.
    pub open spec fn navigation_view(&self) -> Option<Item> {
        match self.navigation {
            Some(item) => Some(item@),
            None => None,
        }
    }

    /// The staged files in the order of the manifest.
    pub open spec fn manifest_view(&self) -> Seq<Item> {
        manifest_items(
            self.navigation_view(),
            items_view(self.composed.contents@),
            items_view(self.composed.style_items@),
            items_view(self.composed.static_items@),
        )
    }

    /// The staged files in reading order.
    pub open spec fn spine_view(&self) -> Seq<Item> {
        spine_items(self.navigation_view(), items_view(self.composed.contents@))
    }

    /// The staged files in the order of the manifest.
    pub fn manifest_members(&self) -> (items: Vec<ComposedItem>)
        ensures
            items_view(items@) == self.manifest_view(),
    {
        let mut items: Vec<ComposedItem> = Vec::new();
        let ghost mut first: Seq<Item> = Seq::empty();
        match &self.navigation {
            Some(item) => {
                let item = item.copy();
                items.push(item);
                proof {
                    first = seq![item@];
                }
                assert(items_view(items@) == first);
            },
            None => {
                assert(items_view(items@) == first);
            },
        }
        push_copies(&mut items, &self.composed.contents);
        push_copies(&mut items, &self.composed.style_items);
        push_copies(&mut items, &self.composed.static_items);
        items
    }

    /// The manifest of the package document. It is made of what the registry
    /// holds and of nothing else.
    pub fn manifest_block(&self) -> (result: Result<String, ComposeError>)
        ensures
            match result {
                Ok(text) => all_some(manifest_entries(self.manifest_view(), self.package_path()))
                    && text@ == manifest_text(self.manifest_view(), self.package_path()),
                Err(e) => !all_some(manifest_entries(self.manifest_view(), self.package_path()))
                    && reports(e, Stop::Unlinked(self.package_path())),
            },
    {
        let opf = self.tmp_dir.oebps.path.join(&FilePath::from_str(PACKAGE_NAME));
        let items = self.manifest_members();
        let lines = match manifest_lines(&items, &opf) {
            Ok(lines) => lines,
            Err(e) => {
                return Err(e);
            },
        };
        let mut text = String::from_str("<manifest>\n");
        text.append(join(&lines, "\n").as_str());
        text.append("\n</manifest>");
        Ok(text)
    }

    /// The reading order of the package document. It is made of what the
    /// registry and the configuration hold and of nothing else.
    pub fn spine_block(&self) -> (text: String)
        ensures
            text@ == spine_text(
                self.spine_view(),
                PageProgressionDirection::of(self.data.cfg.writing_mode),
            ),
    {
        let contents = &self.composed.contents;
        let ghost all = items_view(contents@);
        let mut lines: Vec<String> = Vec::new();
        let ghost mut first: Seq<Item> = Seq::empty();
        match &self.navigation {
            Some(item) => {
                let line = item.as_spine_item();
                lines.push(line);
                proof {
                    first = seq![item@];
                }
                assert(lines.deep_view() == spine_entries(first));
            },
            None => {
                assert(lines.deep_view() == spine_entries(first));
            },
        }
        let mut others: Vec<String> = Vec::new();
        let mut i: usize = 0;
        assert(first + Seq::<Item>::empty() == first);
        while i < contents.len()
            invariant
                i <= contents.len(),
                all == items_view(contents@),
                lines.deep_view() == spine_entries(first + navs_of(all.take(i as int))),
                others.deep_view() == spine_entries(others_of(all.take(i as int))),
            decreases contents.len() - i,
        {
            proof {
                assert(all.take(i + 1).drop_last() == all.take(i as int));
                assert(all.take(i + 1).last() == contents@[i as int]@);
            }
            let line = contents[i].as_spine_item();
            if contents[i].is_nav() {
                let ghost before = lines.deep_view();
                lines.push(line);
                proof {
                    assert(lines.deep_view() == before.push(line@));
                    assert(first + navs_of(all.take(i + 1)) == (first + navs_of(
                        all.take(i as int),
                    )).push(contents@[i as int]@));
                    assert(spine_entries(first + navs_of(all.take(i + 1))) == spine_entries(
                        first + navs_of(all.take(i as int)),
                    ).push(line@));
                }
            } else {
                let ghost before = others.deep_view();
                others.push(line);
                proof {
                    assert(others.deep_view() == before.push(line@));
                    assert(spine_entries(others_of(all.take(i + 1))) == spine_entries(
                        others_of(all.take(i as int)),
                    ).push(line@));
                }
            }
            i += 1;
        }
        assert(all.take(contents@.len() as int) == all);
        let ghost front = lines.deep_view();
        let ghost back = others.deep_view();
        lines.append(&mut others);
        assert(lines.deep_view() == front + back);
        assert(front + back == spine_entries(first + navs_of(all) + others_of(all)));
        let mut text = String::from_str("<spine page-progression-direction=\"");
        text.append(PageProgressionDirection::from(&self.data.cfg.writing_mode).to_string().as_str());
        text.append("\">\n");
        text.append(join(&lines, "\n").as_str());
        text.append("\n</spine>");
        text
    }

    /// The description of the publication, with `last_mod` as the time of the
    /// last change.
    pub fn metadata_block(&self, last_mod: &str) -> (text: String)
        ensures
            text@ == metadata_text(
                self.data.cfg.title@,
                self.data.cfg.language@,
                self.data.cfg.creator@,
                self.data.cfg.book_id@,
                last_mod@,
            ),
    {
        let cfg = &self.data.cfg;
        let mut text = String::from_str(
            "<metadata xmlns:dc=\"http://purl.org/dc/elements/1.1/\">\n<dc:title>",
        );
        text.append(cfg.title.as_str());
        text.append("</dc:title>\n<dc:language>");
        text.append(cfg.language.as_str());
        text.append("</dc:language>\n<dc:creator>");
        text.append(cfg.creator.as_str());
        text.append("</dc:creator>\n<dc:identifier id=\"BookId\">");
        text.append(cfg.book_id.as_str());
        text.append("</dc:identifier>\n<meta property=\"dcterms:modified\">");
        text.append(last_mod);
        text.append("</meta>\n</metadata>");
        text
    }

    /// The package document with `last_mod` as the time of the last change.
    pub open spec fn package_of(&self, last_mod: Seq<char>) -> Seq<char> {
        package_text(
            metadata_text(
                self.data.cfg.title@,
                self.data.cfg.language@,
                self.data.cfg.creator@,
                self.data.cfg.book_id@,
                last_mod,
            ),
            manifest_text(self.manifest_view(), self.package_path()),
            spine_text(self.spine_view(), PageProgressionDirection::of(self.data.cfg.writing_mode)),
        )
    }

    /// The package document with `last_mod` as the time of the last change.
    pub fn render_package(&self, last_mod: &str) -> (result: Result<String, ComposeError>)
        ensures
            match result {
                Ok(text) => all_some(manifest_entries(self.manifest_view(), self.package_path()))
                    && text@ == self.package_of(last_mod@),
                Err(e) => !all_some(manifest_entries(self.manifest_view(), self.package_path()))
                    && reports(e, Stop::Unlinked(self.package_path())),
            },
    {
        let manifest = match self.manifest_block() {
            Ok(manifest) => manifest,
            Err(e) => {
                return Err(e);
            },
        };
        let mut text = String::from_str(
            "<?xml version=\"1.0\" encoding=\"UTF-8\"?>\n<package xmlns=\"http://www.idpf.org/2007/opf\" version=\"3.0\" unique-identifier=\"BookId\">\n",
        );
        text.append(self.metadata_block(last_mod).as_str());
        let mut rest = String::from_str("\n");
        rest.append(manifest.as_str());
        rest.append("\n");
        rest.append(self.spine_block().as_str());
        rest.append("\n</package>\n");
        text.append(rest.as_str());
        Ok(text)
    }

    /// Why the package document cannot be rendered with `last_mod` as the
    /// time of the last change, if it cannot: it is not its turn, or the time
    /// has not the form that the package document asks for, or a staged file
    /// cannot be referred to from the package document.
    pub open spec fn package_stop(&self, last_mod: Seq<char>) -> Option<Stop> {
        if self.stage != Stage::NavigationRendered {
            Some(Stop::OutOfOrder)
        } else if !is_timestamp(last_mod) {
            Some(Stop::NotATime(last_mod))
        } else if !all_some(manifest_entries(self.manifest_view(), self.package_path())) {
            Some(Stop::Unlinked(self.package_path()))
        } else {
            None
        }
    }

    /// What rendering the package document at a given time makes of a
    /// composition: after the navigation document, the package document with
    /// `last_mod` as the time of the last change is to be written where the
    /// staging tree keeps it.
    #[verifier::opaque]
    pub open spec fn opf_step_at(
        before: &Composer,
        after: &Composer,
        last_mod: Seq<char>,
        result: Result<StageOutcome, ComposeError>,
    ) -> bool {
        &&& after.data == before.data
        &&& after.toc == before.toc
        &&& after.composed == before.composed
        &&& after.navigation == before.navigation
        &&& match result {
            Ok(outcome) => {
                &&& before.package_stop(last_mod) is None
                &&& after.stage == Stage::PackageRendered
                &&& after.tmp_dir.path == before.tmp_dir.path
                &&& after.tmp_dir.meta_inf == before.tmp_dir.meta_inf
                &&& after.tmp_dir.mimetype == before.tmp_dir.mimetype
                &&& after.tmp_dir.oebps.path == before.tmp_dir.oebps.path
                &&& after.tmp_dir.oebps.package_opf is Some
                &&& after.tmp_dir.oebps.package_opf->0@ == before.package_path()
                &&& outcome@ == (Outcome {
                    actions: seq![
                        Action::Write {
                            to: before.package_path(),
                            text: before.package_of(last_mod),
                        },
                    ],
                    logs: seq![staged_name(before.tmp_dir.path@, before.package_path())],
                    warnings: Seq::empty(),
                })
            },
            Err(e) => {
                &&& before.package_stop(last_mod) is Some
                &&& reports(e, before.package_stop(last_mod)->0)
                &&& *after == *before
            },
        }
    }

    /// What rendering the package document makes of a composition: what
    /// `opf_step_at` says, for some time as the time of the last change.
    pub open spec fn opf_step(
        before: &Composer,
        after: &Composer,
        result: Result<StageOutcome, ComposeError>,
    ) -> bool {
        exists|last_mod: Seq<char>| #[trigger] Composer::opf_step_at(before, after, last_mod, result)
    }

    /// Renders the package document from the registry, with `last_mod` as the
    /// time of the last change: the step after the navigation document.
    pub fn compose_opf_at(&mut self, last_mod: &str) -> (result: Result<
        StageOutcome,
        ComposeError,
    >)
        ensures
            Composer::opf_step_at(old(self), final(self), last_mod@, result),
            old(self).wf() ==> final(self).wf(),
            result is Ok ==> old(self).stage == Stage::NavigationRendered && final(self).stage
                == Stage::PackageRendered,
            result is Err ==> *final(self) == *old(self),
    {
        proof {
            reveal(Composer::opf_step_at);
        }
        if self.stage != Stage::NavigationRendered {
            return Err(ComposeError::OutOfOrder);
        }
        if !timestamp_ok(last_mod) {
            return Err(ComposeError::NotATime(String::from_str(last_mod)));
        }
        let document = match self.render_package(last_mod) {
            Ok(document) => document,
            Err(e) => {
                return Err(e);
            },
        };
        let path = self.tmp_dir.oebps.path.join(&FilePath::from_str(PACKAGE_NAME));
        let name = name_in_tree(&self.tmp_dir.path, &path);
        let mut outcome = StageOutcome::new();
        outcome.push_action(StageAction::Write { to: path.clone(), text: document });
        outcome.push_log(RepubLog::packed(name.as_str()));
        assert(outcome@.actions == seq![
            Action::Write { to: path@, text: old(self).package_of(last_mod@) },
        ]);
        assert(outcome@.logs == seq![name@]);
        self.tmp_dir.oebps.package_opf = Some(path);
        self.stage = Stage::PackageRendered;
        Ok(outcome)
    }

    /// Renders the package document from the registry: the step after the
    /// navigation document. The time of the last change is the moment of the
    /// call, in universal time; where the clock gives a time that cannot be
    /// written in the form of the package document, the step fails.
    /// Everything else in the document comes of the registry and the
    /// configuration.
    pub fn compose_opf(&mut self) -> (result: Result<StageOutcome, ComposeError>)
        ensures
            Composer::opf_step(old(self), final(self), result),
            old(self).wf() ==> final(self).wf(),
            result is Ok ==> old(self).stage == Stage::NavigationRendered && final(self).stage
                == Stage::PackageRendered,
            result is Err ==> *final(self) == *old(self),
    {
        let stamp = utc_now(TIMESTAMP_PATTERN);
        let last_mod = crate::text::remove_char(stamp.as_str(), '"');
        self.compose_opf_at(last_mod.as_str())
    }
}

/// The manifest and the reading order do not depend on the moment at which
/// the package document is rendered: two package documents of the same
/// registry and configuration differ in nothing but their descriptions, and
/// these in nothing but the time.
pub proof fn lemma_package_apart_from_time(composer: Composer, first: Seq<char>, second: Seq<char>)
    ensures
        exists|opening: Seq<char>, rest: Seq<char>|
            {
                &&& composer.package_of(first) == opening + metadata_text(
                    composer.data.cfg.title@,
                    composer.data.cfg.language@,
                    composer.data.cfg.creator@,
                    composer.data.cfg.book_id@,
                    first,
                ) + rest
                &&& composer.package_of(second) == opening + metadata_text(
                    composer.data.cfg.title@,
                    composer.data.cfg.language@,
                    composer.data.cfg.creator@,
                    composer.data.cfg.book_id@,
                    second,
                ) + rest
                &&& rest == #[trigger] package_rest(
                    manifest_text(composer.manifest_view(), composer.package_path()),
                    spine_text(
                        composer.spine_view(),
                        PageProgressionDirection::of(composer.data.cfg.writing_mode),
                    ),
                )
            },
{
    let opening =
        "<?xml version=\"1.0\" encoding=\"UTF-8\"?>\n<package xmlns=\"http://www.idpf.org/2007/opf\" version=\"3.0\" unique-identifier=\"BookId\">\n"@;
    let rest = package_rest(
        manifest_text(composer.manifest_view(), composer.package_path()),
        spine_text(
            composer.spine_view(),
            PageProgressionDirection::of(composer.data.cfg.writing_mode),
        ),
    );
    assert(composer.package_of(first) == opening + metadata_text(
        composer.data.cfg.title@,
        composer.data.cfg.language@,
        composer.data.cfg.creator@,
        composer.data.cfg.book_id@,
        first,
    ) + rest);
}

/// The archive of a package: where it goes, and what it holds.
#[derive(Debug)]
pub struct Archive {
    /// The file of the package.
    pub path: FilePath,
    /// The entries, in the order in which they are written.
    pub entries: Vec<crate::archive::ArchiveEntry>,
    /// The report that the package is complete.
    pub log: RepubLog,
}

/// The name of the file of the package: the title and the extension `epub`.
pub open spec fn package_file_name(title: Seq<char>) -> Seq<char> {
    title + ".epub"@
}

impl Composer {
    /// Whether the six steps from the style sheets to the package document
    /// were taken one after the other, through the states `s1` to `s5`, each
    /// with the outcome of its place in `outcomes`.
    pub open spec fn steps_taken(
        before: &Composer,
        s1: &Composer,
        s2: &Composer,
        s3: &Composer,
        s4: &Composer,
        s5: &Composer,
        after: &Composer,
        texts: Seq<Option<String>>,
        outcomes: Seq<StageOutcome>,
    ) -> bool {
        &&& outcomes.len() == 6
        &&& Composer::css_step(before, s1, Ok(outcomes[0]))
        &&& Composer::static_step(s1, s2, Ok(outcomes[1]))
        &&& Composer::contents_step(s2, s3, texts, Ok(outcomes[2]))
        &&& Composer::cover_step(s3, s4, Ok(outcomes[3]))
        &&& Composer::nav_step(s4, s5, Ok(outcomes[4]))
        &&& Composer::opf_step(s5, after, Ok(outcomes[5]))
    }

    /// Whether one of the six steps failed with `e` after those before it
    /// were taken, through as many of the states `s1` to `s5` and with as
    /// many of the outcomes `o1` to `o5`.
    pub open spec fn step_failed(
        before: &Composer,
        s1: &Composer,
        s2: &Composer,
        s3: &Composer,
        s4: &Composer,
        s5: &Composer,
        after: &Composer,
        texts: Seq<Option<String>>,
        outcomes: Seq<StageOutcome>,
        e: ComposeError,
    ) -> bool {
        ||| Composer::css_step(before, after, Err(e))
        ||| {
            &&& outcomes.len() == 1
            &&& Composer::css_step(before, s1, Ok(outcomes[0]))
            &&& Composer::static_step(s1, after, Err(e))
        }
        ||| {
            &&& outcomes.len() == 2
            &&& Composer::css_step(before, s1, Ok(outcomes[0]))
            &&& Composer::static_step(s1, s2, Ok(outcomes[1]))
            &&& Composer::contents_step(s2, after, texts, Err(e))
        }
        ||| {
            &&& outcomes.len() == 3
            &&& Composer::css_step(before, s1, Ok(outcomes[0]))
            &&& Composer::static_step(s1, s2, Ok(outcomes[1]))
            &&& Composer::contents_step(s2, s3, texts, Ok(outcomes[2]))
            &&& Composer::cover_step(s3, after, Err(e))
        }
        ||| {
            &&& outcomes.len() == 4
            &&& Composer::css_step(before, s1, Ok(outcomes[0]))
            &&& Composer::static_step(s1, s2, Ok(outcomes[1]))
            &&& Composer::contents_step(s2, s3, texts, Ok(outcomes[2]))
            &&& Composer::cover_step(s3, s4, Ok(outcomes[3]))
            &&& Composer::nav_step(s4, after, Err(e))
        }
        ||| {
            &&& outcomes.len() == 5
            &&& Composer::css_step(before, s1, Ok(outcomes[0]))
            &&& Composer::static_step(s1, s2, Ok(outcomes[1]))
            &&& Composer::contents_step(s2, s3, texts, Ok(outcomes[2]))
            &&& Composer::cover_step(s3, s4, Ok(outcomes[3]))
            &&& Composer::nav_step(s4, s5, Ok(outcomes[4]))
            &&& Composer::opf_step(s5, after, Err(e))
        }
    }

    /// Takes the six steps from the style sheets to the package document, in
    /// their order; the first that fails ends the run. `texts` holds, in the
    /// order of `content_queue`, the text of each document that is to be
    /// converted. Returns what each step leaves to do and to report.
    ///
    /// A run that went well ends with the package rendered, not with the
    /// archive made: the archive holds the files of the staging tree, so it
    /// can only be planned, by `zip`, once the caller has done in the file
    /// system what the six steps have left to do.
    pub fn compose(&mut self, texts: &Vec<Option<String>>) -> (result: Result<
        Vec<StageOutcome>,
        ComposeError,
    >)
        requires
            old(self).wf(),
        ensures
            final(self).wf(),
            result is Ok ==> old(self).stage == Stage::Init && final(self).stage
                == Stage::PackageRendered,
            result is Ok ==> result->Ok_0@.len() == 6,
            match result {
                Ok(outcomes) => exists|
                    s1: Composer,
                    s2: Composer,
                    s3: Composer,
                    s4: Composer,
                    s5: Composer,
                |
                    #[trigger] Composer::steps_taken(
                        old(self),
                        &s1,
                        &s2,
                        &s3,
                        &s4,
                        &s5,
                        final(self),
                        texts@,
                        outcomes@,
                    ),
                Err(e) => exists|
                    s1: Composer,
                    s2: Composer,
                    s3: Composer,
                    s4: Composer,
                    s5: Composer,
                    outcomes: Seq<StageOutcome>,
                |
                    #[trigger] Composer::step_failed(
                        old(self),
                        &s1,
                        &s2,
                        &s3,
                        &s4,
                        &s5,
                        final(self),
                        texts@,
                        outcomes,
                        e,
                    ),
            },
    {
        let mut outcomes: Vec<StageOutcome> = Vec::new();
        let ghost s0 = *self;
        match self.compose_css() {
            Ok(outcome) => {
                outcomes.push(outcome);
            },
            Err(e) => {
                assert(Composer::step_failed(&s0, &s0, &s0, &s0, &s0, &s0, self, texts@, outcomes@, e));
                return Err(e);
            },
        }
        let ghost s1 = *self;
        match self.compose_static() {
            Ok(outcome) => {
                outcomes.push(outcome);
            },
            Err(e) => {
                assert(Composer::step_failed(&s0, &s1, &s0, &s0, &s0, &s0, self, texts@, outcomes@, e));
                return Err(e);
            },
        }
        let ghost s2 = *self;
        match self.compose_contents(texts) {
            Ok(outcome) => {
                outcomes.push(outcome);
            },
            Err(e) => {
                assert(Composer::step_failed(&s0, &s1, &s2, &s0, &s0, &s0, self, texts@, outcomes@, e));
                return Err(e);
            },
        }
        let ghost s3 = *self;
        match self.compose_cover_image() {
            Ok(outcome) => {
                outcomes.push(outcome);
            },
            Err(e) => {
                assert(Composer::step_failed(&s0, &s1, &s2, &s3, &s0, &s0, self, texts@, outcomes@, e));
                return Err(e);
            },
        }
        let ghost s4 = *self;
        match self.compose_nav() {
            Ok(outcome) => {
                outcomes.push(outcome);
            },
            Err(e) => {
                assert(Composer::step_failed(&s0, &s1, &s2, &s3, &s4, &s0, self, texts@, outcomes@, e));
                return Err(e);
            },
        }
        let ghost s5 = *self;
        match self.compose_opf() {
            Ok(outcome) => {
                outcomes.push(outcome);
            },
            Err(e) => {
                assert(Composer::step_failed(&s0, &s1, &s2, &s3, &s4, &s5, self, texts@, outcomes@, e));
                return Err(e);
            },
        }
        let ghost s6 = *self;
        let ghost all = outcomes@;
        assert(Composer::steps_taken(&s0, &s1, &s2, &s3, &s4, &s5, &s6, texts@, all));
        let result = Ok(outcomes);
        assert(result matches Ok(taken) && taken@ == all);
        assert(exists|a1: Composer, a2: Composer, a3: Composer, a4: Composer, a5: Composer|
            #[trigger] Composer::steps_taken(&s0, &a1, &a2, &a3, &a4, &a5, &s6, texts@, all));
        result
    }

    /// Plans the archive of the staging tree: the last step. `meta_inf` and
    /// `oebps` list the two directories of the tree as they are found once
    /// everything was staged. The archive goes to the file that is named
    /// after the title.
    pub fn zip(&mut self, meta_inf: &Listing, oebps: &Listing) -> (result: Result<
        Archive,
        ComposeError,
    >)
        ensures
            final(self).tmp_dir == old(self).tmp_dir,
            final(self).data == old(self).data,
            final(self).toc == old(self).toc,
            final(self).composed == old(self).composed,
            final(self).navigation == old(self).navigation,
            match result {
                Ok(archive) => {
                    &&& old(self).stage == Stage::PackageRendered
                    &&& final(self).stage == Stage::Archived
                    &&& archive.path@ == crate::path::components(
                        package_file_name(old(self).data.cfg.title@),
                    )
                    &&& crate::archive::archive_of(
                        old(self).tmp_dir.path@,
                        old(self).tmp_dir.mimetype.0@,
                        meta_inf@,
                        oebps@,
                    ) == Some(crate::archive::entries_view(archive.entries@))
                    &&& archive.log.0 is Published
                    &&& archive.log.1@ == rendered(archive.path@)
                },
                Err(e) => {
                    &&& final(self).stage == old(self).stage
                    &&& if old(self).stage != Stage::PackageRendered {
                        e is OutOfOrder
                    } else {
                        crate::archive::archive_of(
                            old(self).tmp_dir.path@,
                            old(self).tmp_dir.mimetype.0@,
                            meta_inf@,
                            oebps@,
                        ) is None && reports(e, Stop::Unlinked(old(self).tmp_dir.path@))
                    }
                },
            },
    {
        if self.stage != Stage::PackageRendered {
            return Err(ComposeError::OutOfOrder);
        }
        let entries = match crate::archive::archive_plan(&self.tmp_dir, meta_inf, oebps) {
            Ok(entries) => entries,
            Err(e) => {
                return Err(e);
            },
        };
        let mut name = self.data.cfg.title.clone();
        name.append(".epub");
        let path = FilePath::from_str(name.as_str());
        let log = RepubLog::published(path.to_string().as_str());
        self.stage = Stage::Archived;
        Ok(Archive { path, entries, log })
    }
}

/// What is left to do when a run is over.
#[derive(Debug)]
pub struct Teardown {
    /// The staging tree, where it is to be removed.
    pub remove: Option<FilePath>,
    /// Where the configuration is to be saved, where it is to be saved.
    pub save_config: Option<FilePath>,
    /// The reports of both.
    pub logs: Vec<RepubLog>,
}

/// The report that the staging tree was removed.
pub open spec fn removed_log(path: Seq<Seq<char>>) -> Seq<char> {
    "Temporary files: "@ + rendered(path)
}

/// The report that the configuration was saved.
pub open spec fn saved_log(path: Seq<Seq<char>>) -> Seq<char> {
    "Saved to "@ + rendered(path)
}

impl Composer {
    /// What is left to do when the run is over, whether it went well or not:
    /// the staging tree is removed unless the configuration wants it kept,
    /// and the configuration is saved where it wants to be. `target_is_file`
    /// says whether the target of the run is a file.
    pub fn teardown(&self, target_is_file: bool) -> (teardown: Teardown)
        ensures
            crate::path::opt_path(teardown.remove) == (if self.data.cfg.save {
                None
            } else {
                Some(self.tmp_dir.path@)
            }),
            crate::path::opt_path(teardown.save_config) == self.data.cfg.saved_at_of(
                target_is_file,
            ),
            crate::markup::log_texts(teardown.logs@) == (if self.data.cfg.save {
                Seq::<Seq<char>>::empty()
            } else {
                seq![removed_log(self.tmp_dir.path@)]
            }) + (match self.data.cfg.saved_at_of(target_is_file) {
                Some(place) => seq![saved_log(place)],
                None => Seq::empty(),
            }),
    {
        let mut logs: Vec<RepubLog> = Vec::new();
        let remove = if self.data.cfg.save {
            None
        } else {
            let mut text = String::from_str("Temporary files: ");
            text.append(self.tmp_dir.path.to_string().as_str());
            logs.push(RepubLog::removed(text.as_str()));
            Some(self.tmp_dir.path.clone())
        };
        let ghost first = crate::markup::log_texts(logs@);
        assert(first == (if self.data.cfg.save {
            Seq::<Seq<char>>::empty()
        } else {
            seq![removed_log(self.tmp_dir.path@)]
        }));
        let save_config = self.data.cfg.saved_at(target_is_file);
        match &save_config {
            Some(place) => {
                let mut text = String::from_str("Saved to ");
                text.append(place.to_string().as_str());
                let log = RepubLog::config(text.as_str());
                logs.push(log);
                assert(crate::markup::log_texts(logs@) == first.push(log.1@));
                assert(first.push(log.1@) == first + seq![saved_log(place@)]);
            },
            None => {
                assert(first + Seq::<Seq<char>>::empty() == first);
            },
        }
        Teardown { remove, save_config, logs }
    }
}

/// Whether each of `items` has the identifier of its place in the list.
pub open spec fn numbered(items: Seq<Item>, namespace: Seq<char>) -> bool {
    forall|i: int| 0 <= i < items.len() ==> (#[trigger] items[i]).id == item_id(namespace, i as nat)
}

/// Different places give different identifiers.
pub proof fn lemma_item_ids_differ(namespace: Seq<char>, a: nat, b: nat)
    requires
        a != b,
    ensures
        item_id(namespace, a) != item_id(namespace, b),
{
    if item_id(namespace, a) == item_id(namespace, b) {
        assert((namespace + decimal_text(a)).subrange(
            namespace.len() as int,
            (namespace + decimal_text(a)).len() as int,
        ) == decimal_text(a));
        assert((namespace + decimal_text(b)).subrange(
            namespace.len() as int,
            (namespace + decimal_text(b)).len() as int,
        ) == decimal_text(b));
        crate::text::lemma_decimal_injective(a, b);
    }
}

/// In a list whose files have the identifiers of their places no two files
/// have the same identifier.
pub proof fn lemma_numbered_distinct(items: Seq<Item>, namespace: Seq<char>, i: int, j: int)
    requires
        numbered(items, namespace),
        0 <= i < items.len(),
        0 <= j < items.len(),
        i != j,
    ensures
        items[i].id != items[j].id,
{
    lemma_item_ids_differ(namespace, i as nat, j as nat);
}

/// Staging files gives each new file the identifier of its place, and
/// leaves the files that were there as they are: the identifiers of a kind
/// stay what they were and stay distinct.
pub proof fn lemma_staged_numbered(
    before: Staging,
    sources: Seq<SourceView>,
    target: Seq<Seq<char>>,
    oebps: Seq<Seq<char>>,
    namespace: Seq<char>,
)
    requires
        numbered(before.items, namespace),
    ensures
        numbered(staged(before, sources, target, oebps, namespace).items, namespace),
        before.items.len() <= staged(before, sources, target, oebps, namespace).items.len(),
        forall|i: int|
            0 <= i < before.items.len() ==> staged(
                before,
                sources,
                target,
                oebps,
                namespace,
            ).items[i] == #[trigger] before.items[i],
    decreases sources.len(),
{
    if sources.len() > 0 {
        lemma_staged_numbered(before, sources.drop_last(), target, oebps, namespace);
    }
}

/// Staging the cover image gives it the identifier of its place among the
/// other files.
pub proof fn lemma_staged_cover_numbered(
    before: Seq<Item>,
    image: Seq<Seq<char>>,
    target: Seq<Seq<char>>,
    oebps: Seq<Seq<char>>,
)
    requires
        numbered(before, "static"@),
    ensures
        numbered(staged_cover(before, image, target, oebps).items, "static"@),
{
}

/// Converting documents gives each the identifier of its place among the
/// content documents, and leaves those that were there as they are.
pub proof fn lemma_converted_numbered(
    before: Converting,
    queue: Seq<ContentSourceView>,
    texts: Seq<Option<Seq<char>>>,
    around: Surroundings,
    n: nat,
)
    requires
        numbered(before.contents, "contents"@),
        n <= queue.len(),
        converted_all(before, queue, texts, around, n) is Ok,
    ensures
        numbered(converted_all(before, queue, texts, around, n)->Ok_0.contents, "contents"@),
        before.contents.len() <= converted_all(before, queue, texts, around, n)->Ok_0.contents.len(),
        forall|i: int|
            0 <= i < before.contents.len() ==> converted_all(
                before,
                queue,
                texts,
                around,
                n,
            )->Ok_0.contents[i] == #[trigger] before.contents[i],
    decreases n,
{
    if n > 0 {
        lemma_converted_numbered(before, queue, texts, around, (n - 1) as nat);
    }
}

} // verus!
