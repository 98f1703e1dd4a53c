//! Markdown to markup, by the renderer of the `comrak` crate.

use vstd::prelude::*;

verus! {

/// What the renderer is asked to do beyond plain Markdown.
#[derive(Debug, Clone, Copy, PartialEq, Eq)]
pub struct MarkdownOptions {
    /// Text between tildes is struck through.
    pub strikethrough: bool,
    /// Tags that may do harm are written as text.
    pub tagfilter: bool,
    /// Tables.
    pub table: bool,
    /// Addresses become links.
    pub autolink: bool,
    /// Lists of tasks.
    pub tasklist: bool,
    /// A line break in the source is a line break in the result.
    pub hardbreaks: bool,
    /// Fenced code names its language on the `pre` element.
    pub github_pre_lang: bool,
}

impl MarkdownOptions {
    /// The options that content documents are converted with: everything on.
    pub fn standard() -> (options: MarkdownOptions)
        ensures
            options == (MarkdownOptions {
                strikethrough: true,
                tagfilter: true,
                table: true,
                autolink: true,
                tasklist: true,
                hardbreaks: true,
                github_pre_lang: true,
            }),
    {
        MarkdownOptions {
            strikethrough: true,
            tagfilter: true,
            table: true,
            autolink: true,
            tasklist: true,
            hardbreaks: true,
            github_pre_lang: true,
        }
    }
}

/// The markup that `comrak::markdown_to_html` gives for a Markdown text under
/// the options named, and the defaults of the crate for all others.
pub uninterp spec fn rendered_markdown(
    md: Seq<char>,
    strikethrough: bool,
    tagfilter: bool,
    table: bool,
    autolink: bool,
    tasklist: bool,
    hardbreaks: bool,
    github_pre_lang: bool,
) -> Seq<char>;

/// The markup for a Markdown text under `options`.
pub open spec fn markdown_html(md: Seq<char>, options: MarkdownOptions) -> Seq<char> {
    rendered_markdown(
        md,
        options.strikethrough,
        options.tagfilter,
        options.table,
        options.autolink,
        options.tasklist,
        options.hardbreaks,
        options.github_pre_lang,
    )
}

/// Renders Markdown as markup by `comrak::markdown_to_html`. The result is
/// whatever the crate renders: it depends on the text and the options alone,
/// and nothing else is known of it here.
#[verifier::external_body]
#[allow(deprecated)]
pub(crate) fn markdown_to_html(md: &str, options: &MarkdownOptions) -> (html: String)
    ensures
        html@ == rendered_markdown(
            md@,
            options.strikethrough,
            options.tagfilter,
            options.table,
            options.autolink,
            options.tasklist,
            options.hardbreaks,
            options.github_pre_lang,
        ),
{
    let mut o = comrak::Options::default();
    o.extension.strikethrough = options.strikethrough;
    o.extension.tagfilter = options.tagfilter;
    o.extension.table = options.table;
    o.extension.autolink = options.autolink;
    o.extension.tasklist = options.tasklist;
    o.render.hardbreaks = options.hardbreaks;
    o.render.github_pre_lang = options.github_pre_lang;
    comrak::markdown_to_html(md, &o)
}

} // verus!
