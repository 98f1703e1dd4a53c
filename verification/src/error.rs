//! What can go wrong while a package is composed.

use crate::path::FilePath;
use vstd::prelude::*;

verus! {

/// The reasons for which a step of the composition refuses its input.
#[derive(Debug)]
pub enum ComposeError {
    /// The extension is not one of the supported media types.
    Unsupported(String),
    /// The path has no extension to classify it by.
    NoExtension(FilePath),
    /// The extension is not one that a content document may have.
    NotContent(String),
    /// Nothing exists at the path.
    Missing(FilePath),
    /// What exists at the path is not a file.
    NotAFile(FilePath),
    /// There is no relative path between the two locations.
    Unrelated(FilePath, FilePath),
    /// The writing mode is none of `htb`, `vrl` and `vlr`.
    WritingMode(String),
    /// A value that has to be given is absent; the field names it.
    MissingValue(String),
    /// The input is neither a Markdown file nor a directory.
    NotMarkdown(FilePath),
    /// The table of contents cannot take the headings of one more document.
    TooManyHeadings,
    /// A text is too long for the markup reader and writer.
    TooLong,
    /// The text is no time in the form of the package document.
    NotATime(String),
    /// The text of a content document was not handed over.
    NoText(FilePath),
    /// The steps of the composition were not taken in their order.
    OutOfOrder,
}

impl ComposeError {
    /// A sentence that says what went wrong.
    pub fn message(&self) -> (text: String)
        ensures
            text@ == self.message_text(),
    {
        match self {
            ComposeError::Unsupported(ext) => {
                let mut text = String::from_str("unsupported extension: ");
                text.append(ext.as_str());
                text
            },
            ComposeError::NoExtension(path) => {
                let mut text = String::from_str("no extension: ");
                text.append(path.to_string().as_str());
                text
            },
            ComposeError::NotContent(ext) => {
                let mut text = String::from_str("not a content format: ");
                text.append(ext.as_str());
                text
            },
            ComposeError::Missing(path) => {
                let mut text = String::from_str("does not exist: ");
                text.append(path.to_string().as_str());
                text
            },
            ComposeError::NotAFile(path) => {
                let mut text = String::from_str("not a file: ");
                text.append(path.to_string().as_str());
                text
            },
            ComposeError::Unrelated(from, to) => {
                let mut text = String::from_str("no relative path from ");
                text.append(from.to_string().as_str());
                text.append(" to ");
                text.append(to.to_string().as_str());
                text
            },
            ComposeError::WritingMode(mode) => {
                let mut text = String::from_str("writing mode must be htb, vrl or vlr: ");
                text.append(mode.as_str());
                text
            },
            ComposeError::MissingValue(name) => {
                let mut text = String::from_str("missing value: ");
                text.append(name.as_str());
                text
            },
            ComposeError::NotMarkdown(path) => {
                let mut text = String::from_str("not a .md file: ");
                text.append(path.to_string().as_str());
                text
            },
            ComposeError::TooManyHeadings => String::from_str("too many headings"),
            ComposeError::TooLong => String::from_str("too long to be read or written as markup"),
            ComposeError::NotATime(stamp) => {
                let mut text = String::from_str("not a time: ");
                text.append(stamp.as_str());
                text
            },
            ComposeError::NoText(path) => {
                let mut text = String::from_str("the text was not read: ");
                text.append(path.to_string().as_str());
                text
            },
            ComposeError::OutOfOrder => String::from_str("the steps were taken out of order"),
        }
    }

    /// The sentence that `message` gives.
    pub open spec fn message_text(&self) -> Seq<char> {
        match self {
            ComposeError::Unsupported(ext) => "unsupported extension: "@ + ext@,
            ComposeError::NoExtension(path) => "no extension: "@ + crate::path::rendered(path@),
            ComposeError::NotContent(ext) => "not a content format: "@ + ext@,
            ComposeError::Missing(path) => "does not exist: "@ + crate::path::rendered(path@),
            ComposeError::NotAFile(path) => "not a file: "@ + crate::path::rendered(path@),
            ComposeError::Unrelated(from, to) => "no relative path from "@ + crate::path::rendered(
                from@,
            ) + " to "@ + crate::path::rendered(to@),
            ComposeError::WritingMode(mode) => "writing mode must be htb, vrl or vlr: "@ + mode@,
            ComposeError::MissingValue(name) => "missing value: "@ + name@,
            ComposeError::NotMarkdown(path) => "not a .md file: "@ + crate::path::rendered(path@),
            ComposeError::TooManyHeadings => "too many headings"@,
            ComposeError::TooLong => "too long to be read or written as markup"@,
            ComposeError::NotATime(stamp) => "not a time: "@ + stamp@,
            ComposeError::NoText(path) => "the text was not read: "@ + crate::path::rendered(path@),
            ComposeError::OutOfOrder => "the steps were taken out of order"@,
        }
    }
}

} // verus!
