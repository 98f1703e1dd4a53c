//! What the composition reports while it runs: errors, warnings, and the log
//! of its progress. The library only says what is to be reported; showing it
//! is left to the caller.

use crate::text::push_char;
use vstd::prelude::*;

verus! {

/// The name of the file that holds a saved configuration.
pub const CONFIG_JSON: &'static str = "repub_config.json";

/// The width to which the label of a progress report is filled.
pub const LABEL_WIDTH: usize = 10;

/// `n` spaces.
pub open spec fn spaces(n: nat) -> Seq<char> {
    Seq::new(n, |i: int| ' ')
}

/// `label`, filled with spaces on the right up to `width` characters.
pub open spec fn padded(label: Seq<char>, width: nat) -> Seq<char> {
    if label.len() >= width {
        label
    } else {
        label + spaces((width - label.len()) as nat)
    }
}

/// Fills `label` with spaces on the right up to `width` characters.
pub fn pad(label: &str, width: usize) -> (out: String)
    ensures
        out@ == padded(label@, width as nat),
{
    let mut out = String::from_str(label);
    let len = label.unicode_len();
    if len < width {
        let mut i: usize = 0;
        while i < width - len
            invariant
                len < width,
                i <= width - len,
                out@ == label@ + spaces(i as nat),
            decreases width - len - i,
        {
            push_char(&mut out, ' ');
            assert(spaces((i + 1) as nat) == spaces(i as nat).push(' '));
            i += 1;
        }
    } else {
        assert(label@ + spaces(0) == label@);
    }
    out
}

/// A message that is shown whatever the log level is.
pub trait Message {
    /// The line that is shown.
    spec fn line(&self) -> Seq<char>;

    /// The line to show.
    fn to_string(&self) -> (out: String)
        ensures
            out@ == self.line(),
    ;
}

/// An error: why the program stopped.
#[derive(Debug)]
pub struct RepubError(pub String);

impl RepubError {
    /// The error with the text `s`.
    pub fn from(s: &str) -> (e: RepubError)
        ensures
            e.0@ == s@,
    {
        RepubError(String::from_str(s))
    }

    /// The text of the error.
    pub fn as_ref(&self) -> (s: &str)
        ensures
            s@ == self.0@,
    {
        self.0.as_str()
    }
}

impl Message for RepubError {
    open spec fn line(&self) -> Seq<char> {
        "[Error]\t "@ + self.0@
    }

    fn to_string(&self) -> (out: String) {
        let mut out = String::from_str("[Error]\t ");
        out.append(self.0.as_str());
        out
    }
}

/// A warning: something that was left out, and why.
#[derive(Debug)]
pub struct RepubWarning(pub String);

impl RepubWarning {
    /// The warning with the text `s`.
    pub fn from(s: &str) -> (w: RepubWarning)
        ensures
            w.0@ == s@,
    {
        RepubWarning(String::from_str(s))
    }

    /// The text of the warning.
    pub fn as_ref(&self) -> (s: &str)
        ensures
            s@ == self.0@,
    {
        self.0.as_str()
    }
}

impl Message for RepubWarning {
    open spec fn line(&self) -> Seq<char> {
        "[Warning]\t "@ + self.0@
    }

    fn to_string(&self) -> (out: String) {
        let mut out = String::from_str("[Warning]\t ");
        out.append(self.0.as_str());
        out
    }
}

/// What a progress report is about.
#[derive(Debug, PartialEq)]
pub enum RepubLogStatus {
    /// A file was left out because the configuration names it.
    Ignored,
    /// A file was put into the staging tree as it is.
    Packed,
    /// A file was converted and put into the staging tree.
    Converted,
    /// A heading was taken into the table of contents.
    Indexed,
    /// A file was added to the archive.
    Zipped,
    /// The package is complete.
    Published,
    /// The staging tree was removed.
    Removed,
    /// The configuration was saved.
    Config,
    /// Anything else: a color and a label.
    Custom(u64, String),
}

impl RepubLogStatus {
    /// The label of the report.
    pub open spec fn label_text(&self) -> Seq<char> {
        match self {
            RepubLogStatus::Ignored => "\u{1F648}Ignored"@,
            RepubLogStatus::Packed => "\u{1F4E6}Packed"@,
            RepubLogStatus::Converted => "\u{1F4DC}Converted"@,
            RepubLogStatus::Indexed => "\u{1F3F7}Indexed"@,
            RepubLogStatus::Zipped => "\u{1F5C4}Zipped"@,
            RepubLogStatus::Published => "\u{1F4DA}Published"@,
            RepubLogStatus::Removed => "\u{1F5D1}Removed"@,
            RepubLogStatus::Config => "\u{1F528}Config"@,
            RepubLogStatus::Custom(_, label) => label@,
        }
    }

    /// The color of the label, as red, green and blue in one number.
    pub open spec fn color_code(&self) -> u64 {
        match self {
            RepubLogStatus::Ignored => 0x9e9e9e,
            RepubLogStatus::Packed => 0x4caf50,
            RepubLogStatus::Converted => 0x8bc34a,
            RepubLogStatus::Indexed => 0x009688,
            RepubLogStatus::Zipped => 0x827717,
            RepubLogStatus::Published => 0x03a9f4,
            RepubLogStatus::Removed => 0x3f51b5,
            RepubLogStatus::Config => 0x9c27b0,
            RepubLogStatus::Custom(hex, _) => *hex,
        }
    }

    /// The label of the report.
    pub fn label(&self) -> (out: String)
        ensures
            out@ == self.label_text(),
    {
        match self {
            RepubLogStatus::Ignored => String::from_str("\u{1F648}Ignored"),
            RepubLogStatus::Packed => String::from_str("\u{1F4E6}Packed"),
            RepubLogStatus::Converted => String::from_str("\u{1F4DC}Converted"),
            RepubLogStatus::Indexed => String::from_str("\u{1F3F7}Indexed"),
            RepubLogStatus::Zipped => String::from_str("\u{1F5C4}Zipped"),
            RepubLogStatus::Published => String::from_str("\u{1F4DA}Published"),
            RepubLogStatus::Removed => String::from_str("\u{1F5D1}Removed"),
            RepubLogStatus::Config => String::from_str("\u{1F528}Config"),
            RepubLogStatus::Custom(_, label) => label.clone(),
        }
    }

    /// The color of the label.
    pub fn color(&self) -> (hex: u64)
        ensures
            hex == self.color_code(),
    {
        match self {
            RepubLogStatus::Ignored => 0x9e9e9e,
            RepubLogStatus::Packed => 0x4caf50,
            RepubLogStatus::Converted => 0x8bc34a,
            RepubLogStatus::Indexed => 0x009688,
            RepubLogStatus::Zipped => 0x827717,
            RepubLogStatus::Published => 0x03a9f4,
            RepubLogStatus::Removed => 0x3f51b5,
            RepubLogStatus::Config => 0x9c27b0,
            RepubLogStatus::Custom(hex, _) => *hex,
        }
    }

    /// The label, filled to the common width, and a tab.
    pub fn to_string(&self) -> (out: String)
        ensures
            out@ == padded(self.label_text(), LABEL_WIDTH as nat) + "\t"@,
    {
        let mut out = pad(self.label().as_str(), LABEL_WIDTH);
        out.append("\t");
        out
    }
}

/// A progress report: what it is about, and the text.
#[derive(Debug)]
pub struct RepubLog(pub RepubLogStatus, pub String);

impl RepubLog {
    /// A file was left out.
    pub fn ignored(text: &str) -> (log: RepubLog)
        ensures
            log.0 == RepubLogStatus::Ignored,
            log.1@ == text@,
    {
        RepubLog(RepubLogStatus::Ignored, String::from_str(text))
    }

    /// A file was put into the staging tree.
    pub fn packed(text: &str) -> (log: RepubLog)
        ensures
            log.0 == RepubLogStatus::Packed,
            log.1@ == text@,
    {
        RepubLog(RepubLogStatus::Packed, String::from_str(text))
    }

    /// A file was converted.
    pub fn converted(text: &str) -> (log: RepubLog)
        ensures
            log.0 == RepubLogStatus::Converted,
            log.1@ == text@,
    {
        RepubLog(RepubLogStatus::Converted, String::from_str(text))
    }

    /// A heading was taken into the table of contents.
    pub fn indexed(text: &str) -> (log: RepubLog)
        ensures
            log.0 == RepubLogStatus::Indexed,
            log.1@ == text@,
    {
        RepubLog(RepubLogStatus::Indexed, String::from_str(text))
    }

    /// A file was added to the archive.
    pub fn zipped(text: &str) -> (log: RepubLog)
        ensures
            log.0 == RepubLogStatus::Zipped,
            log.1@ == text@,
    {
        RepubLog(RepubLogStatus::Zipped, String::from_str(text))
    }

    /// The package is complete.
    pub fn published(text: &str) -> (log: RepubLog)
        ensures
            log.0 == RepubLogStatus::Published,
            log.1@ == text@,
    {
        RepubLog(RepubLogStatus::Published, String::from_str(text))
    }

    /// The staging tree was removed.
    pub fn removed(text: &str) -> (log: RepubLog)
        ensures
            log.0 == RepubLogStatus::Removed,
            log.1@ == text@,
    {
        RepubLog(RepubLogStatus::Removed, String::from_str(text))
    }

    /// The configuration was saved.
    pub fn config(text: &str) -> (log: RepubLog)
        ensures
            log.0 == RepubLogStatus::Config,
            log.1@ == text@,
    {
        RepubLog(RepubLogStatus::Config, String::from_str(text))
    }

    /// A report with a color and a label of the caller's choice.
    pub fn custom(hex: u64, preamble: &str, text: &str) -> (log: RepubLog)
        ensures
            log.0 matches RepubLogStatus::Custom(h, label) && h == hex && label@ == preamble@,
            log.1@ == text@,
    {
        RepubLog(RepubLogStatus::Custom(hex, String::from_str(preamble)), String::from_str(text))
    }

    /// Whether the report is shown even where the log is switched off: the
    /// completion of the package and the saving of the configuration are.
    pub fn always_shown(&self) -> (shown: bool)
        ensures
            shown == (self.0 is Published || self.0 is Config),
    {
        match self.0 {
            RepubLogStatus::Published => true,
            RepubLogStatus::Config => true,
            _ => false,
        }
    }
}

impl Message for RepubLog {
    open spec fn line(&self) -> Seq<char> {
        padded(self.0.label_text(), LABEL_WIDTH as nat) + "\t"@ + " "@ + self.1@
    }

    fn to_string(&self) -> (out: String) {
        let mut out = self.0.to_string();
        out.append(" ");
        out.append(self.1.as_str());
        out
    }
}

} // verus!
