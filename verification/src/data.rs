//! The input of a run, sorted by what is done with each file.

use crate::error::ComposeError;
use crate::load::{Config, Source, SourceView};
use crate::path::{extension_of, FilePath};
use crate::text::str_eq;
use vstd::prelude::*;

verus! {

/// What is done with a content document before it is packed.
#[derive(Debug, Clone, Copy, PartialEq, Eq)]
pub enum ConvertType {
    /// Markdown is rendered as a document of its own.
    MarkdownToXHTML,
    /// The document is packed as it is.
    NoConversion,
}

impl ConvertType {
    /// What is done with the file at a path: Markdown, told by the extension
    /// `md`, is converted, anything else is not.
    pub open spec fn of(path: Seq<Seq<char>>) -> ConvertType {
        if extension_of(path) == Some("md"@) {
            ConvertType::MarkdownToXHTML
        } else {
            ConvertType::NoConversion
        }
    }

    /// What is done with the file at `path`.
    pub fn from(path: &FilePath) -> (convert: ConvertType)
        ensures
            convert == ConvertType::of(path@),
    {
        match path.extension() {
            Some(ext) => if str_eq(ext.as_str(), "md") {
                ConvertType::MarkdownToXHTML
            } else {
                ConvertType::NoConversion
            },
            None => ConvertType::NoConversion,
        }
    }
}

/// A content document: a source file and what is done with it.
#[derive(Debug)]
pub struct ContentSource {
    pub src: Source,
    pub convert_type: ConvertType,
}

/// What a content document is.
pub ghost struct ContentSourceView {
    pub src: SourceView,
    pub convert_type: ConvertType,
}

impl View for ContentSource {
    type V = ContentSourceView;

    open spec fn view(&self) -> ContentSourceView {
        ContentSourceView { src: self.src@, convert_type: self.convert_type }
    }
}

/// What is done with a content document of the extension `ext`, if that is
/// the extension of a content document at all.
pub open spec fn content_type_of(ext: Option<Seq<char>>) -> Option<ConvertType> {
    match ext {
        Some(e) => if e == "md"@ {
            Some(ConvertType::MarkdownToXHTML)
        } else if e == "xhtml"@ {
            Some(ConvertType::NoConversion)
        } else {
            None
        },
        None => None,
    }
}

impl ContentSource {
    /// The content document that a source file is; only Markdown and XHTML
    /// files are content documents.
    pub fn try_from(value: Source) -> (result: Result<ContentSource, ComposeError>)
        ensures
            match result {
                Ok(content) => content_type_of(value@.ext) == Some(content.convert_type)
                    && content.src == value,
                Err(ComposeError::NoExtension(p)) => value@.ext is None && p@ == value@.path,
                Err(ComposeError::NotContent(e)) => value@.ext == Some(e@) && content_type_of(
                    value@.ext,
                ) is None,
                Err(_) => false,
            },
    {
        let convert_type = match &value.ext {
            None => {
                return Err(ComposeError::NoExtension(value.path.clone()));
            },
            Some(ext) => {
                if str_eq(ext.as_str(), "md") {
                    ConvertType::MarkdownToXHTML
                } else if str_eq(ext.as_str(), "xhtml") {
                    ConvertType::NoConversion
                } else {
                    return Err(ComposeError::NotContent(ext.clone()));
                }
            },
        };
        Ok(ContentSource { src: value, convert_type })
    }

    /// The source file of the document.
    pub fn as_ref(&self) -> (src: &Source)
        ensures
            *src == self.src,
    {
        &self.src
    }

    /// A copy of the document.
    pub fn copy(&self) -> (content: ContentSource)
        ensures
            content@ == self@,
    {
        ContentSource { src: self.src.copy(), convert_type: self.convert_type }
    }
}

/// The views of a list of source files.
pub open spec fn sources_view(sources: Seq<Source>) -> Seq<SourceView> {
    Seq::new(sources.len(), |i: int| sources[i]@)
}

/// The views of a list of content documents.
pub open spec fn contents_view(contents: Seq<ContentSource>) -> Seq<ContentSourceView> {
    Seq::new(contents.len(), |i: int| contents[i]@)
}

/// The content documents among `sources`, in order.
pub open spec fn content_files_of(sources: Seq<SourceView>) -> Seq<ContentSourceView>
    decreases sources.len(),
{
    if sources.len() == 0 {
        Seq::empty()
    } else {
        let before = content_files_of(sources.drop_last());
        match content_type_of(sources.last().ext) {
            Some(convert_type) => before.push(
                ContentSourceView { src: sources.last(), convert_type },
            ),
            None => before,
        }
    }
}

/// Whether a source file is a style sheet.
pub open spec fn is_style(source: SourceView) -> bool {
    source.ext == Some("css"@)
}

/// The style sheets among `sources`, in order.
pub open spec fn style_files_of(sources: Seq<SourceView>) -> Seq<SourceView>
    decreases sources.len(),
{
    if sources.len() == 0 {
        Seq::empty()
    } else {
        let before = style_files_of(sources.drop_last());
        if is_style(sources.last()) {
            before.push(sources.last())
        } else {
            before
        }
    }
}

/// The files among `sources` that are neither content documents nor style
/// sheets, in order.
pub open spec fn static_files_of(sources: Seq<SourceView>) -> Seq<SourceView>
    decreases sources.len(),
{
    if sources.len() == 0 {
        Seq::empty()
    } else {
        let before = static_files_of(sources.drop_last());
        if content_type_of(sources.last().ext) is None && !is_style(sources.last()) {
            before.push(sources.last())
        } else {
            before
        }
    }
}

/// The source files of a run, sorted by what is done with them.
#[derive(Debug)]
pub struct Files {
    /// The documents that make up the content.
    pub content_files: Vec<ContentSource>,
    /// The style sheets.
    pub style_files: Vec<Source>,
    /// All other files.
    pub static_files: Vec<Source>,
}

impl Files {
    /// Sorts source files into content documents, style sheets and the rest;
    /// each kind keeps the order of the sources.
    pub fn from(srcs: Vec<Source>) -> (files: Files)
        ensures
            contents_view(files.content_files@) == content_files_of(sources_view(srcs@)),
            sources_view(files.style_files@) == style_files_of(sources_view(srcs@)),
            sources_view(files.static_files@) == static_files_of(sources_view(srcs@)),
    {
        let mut content_files: Vec<ContentSource> = Vec::new();
        let mut style_files: Vec<Source> = Vec::new();
        let mut static_files: Vec<Source> = Vec::new();
        let ghost all = sources_view(srcs@);
        let mut i: usize = 0;
        while i < srcs.len()
            invariant
                i <= srcs.len(),
                all == sources_view(srcs@),
                contents_view(content_files@) == content_files_of(all.take(i as int)),
                sources_view(style_files@) == style_files_of(all.take(i as int)),
                sources_view(static_files@) == static_files_of(all.take(i as int)),
            decreases srcs.len() - i,
        {
            proof {
                assert(all.take(i + 1).drop_last() == all.take(i as int));
                assert(all.take(i + 1).last() == srcs@[i as int]@);
                reveal_strlit("md");
                reveal_strlit("xhtml");
                reveal_strlit("css");
                assert("md"@ != "css"@) by {
                    assert("md"@.len() != "css"@.len());
                }
                assert("xhtml"@ != "css"@) by {
                    assert("xhtml"@.len() != "css"@.len());
                }
            }
            let src = srcs[i].copy();
            let ghost contents_before = contents_view(content_files@);
            let ghost styles_before = sources_view(style_files@);
            let ghost statics_before = sources_view(static_files@);
            match ContentSource::try_from(src) {
                Ok(content) => {
                    content_files.push(content);
                    assert(contents_view(content_files@) == contents_before.push(content@));
                },
                Err(_) => {
                    let src = srcs[i].copy();
                    let style = match &src.ext {
                        Some(ext) => str_eq(ext.as_str(), "css"),
                        None => false,
                    };
                    if style {
                        style_files.push(src);
                        assert(sources_view(style_files@) == styles_before.push(src@));
                    } else {
                        static_files.push(src);
                        assert(sources_view(static_files@) == statics_before.push(src@));
                    }
                },
            }
            i += 1;
        }
        assert(all.take(srcs@.len() as int) == all);
        Files { content_files, style_files, static_files }
    }
}

/// What a run is given: the settings and the source files.
#[derive(Debug)]
pub struct Input {
    pub cfg: Config,
    pub src: Vec<Source>,
}

/// What a run works on: the settings and the sorted source files.
#[derive(Debug)]
pub struct InputData {
    pub cfg: Config,
    pub files: Files,
}

impl InputData {
    /// Sorts the source files of the input.
    pub fn from(input: Input) -> (data: InputData)
        ensures
            data.cfg == input.cfg,
            contents_view(data.files.content_files@) == content_files_of(sources_view(input.src@)),
            sources_view(data.files.style_files@) == style_files_of(sources_view(input.src@)),
            sources_view(data.files.static_files@) == static_files_of(sources_view(input.src@)),
    {
        let Input { cfg, src } = input;
        let files = Files::from(src);
        InputData { cfg, files }
    }
}

impl Input {
    /// Puts the input of a run together: the configuration from the command
    /// line, the saved configuration and the answers, and the source files
    /// from the listing of the target.
    pub fn try_from(
        args: &crate::load::Arguments,
        saved: Option<Config>,
        answers: &crate::load::Answers,
        listing: &crate::listing::Listing,
    ) -> (result: Result<(Input, Vec<crate::message::RepubWarning>), ComposeError>)
        ensures
            match result {
                Ok((input, warnings)) => {
                    &&& crate::listing::sources_of(listing@) == Ok::<
                        Seq<SourceView>,
                        crate::listing::NoSource,
                    >(sources_view(input.src@))
                    &&& crate::load::merge_refusal(*args, saved, *answers) is None
                    &&& crate::load::is_merged(*args, saved, *answers, input.cfg)
                    &&& crate::load::warning_texts(warnings@) == crate::load::merge_warnings(
                        *args,
                        saved,
                        *answers,
                    )
                },
                Err(e) => {
                    ||| crate::listing::sources_of(listing@) is Err && (
                    e matches ComposeError::NotAFile(p) && crate::listing::NoSource::NotAFile(p@)
                        == crate::listing::sources_of(listing@)->Err_0)
                    ||| crate::listing::sources_of(listing@) is Ok && crate::load::merge_refusal(
                        *args,
                        saved,
                        *answers,
                    ) is Some && crate::load::refusal_of(e) == crate::load::merge_refusal(
                        *args,
                        saved,
                        *answers,
                    )
                },
            },
    {
        let src = match Source::try_from_path_buf(listing) {
            Ok(src) => src,
            Err(e) => {
                return Err(e);
            },
        };
        match Config::try_from(args, saved, answers) {
            Ok((cfg, warnings)) => Ok((Input { cfg, src }, warnings)),
            Err(e) => Err(e),
        }
    }
}

} // verus!
