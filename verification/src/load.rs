//! What a run is given: the source files, and the configuration that the
//! command line, a saved configuration and the user's answers add up to.

use crate::error::ComposeError;
use crate::media_type::Properties;
use crate::message::RepubWarning;
use crate::path::{
    extension_of, file_name_of, joined_path, opt_path, opt_text, path_diff_of, FilePath, PathDiff,
};
use crate::text::{chars_of, str_eq};
use vstd::prelude::*;

verus! {

/// The direction in which the text runs.
#[derive(Debug, Clone, Copy, PartialEq, Eq)]
pub enum WritingMode {
    /// Lines run from left to right and follow each other downwards.
    HorizontalTb,
    /// Lines run downwards and follow each other from right to left.
    VerticalRl,
    /// Lines run downwards and follow each other from left to right.
    VerticalLr,
}

/// The writing mode that a short name stands for.
pub open spec fn writing_mode_of(s: Seq<char>) -> Option<WritingMode> {
    if s == "htb"@ {
        Some(WritingMode::HorizontalTb)
    } else if s == "vrl"@ {
        Some(WritingMode::VerticalRl)
    } else if s == "vlr"@ {
        Some(WritingMode::VerticalLr)
    } else {
        None
    }
}

impl Default for WritingMode {
    fn default() -> (mode: WritingMode)
        ensures
            mode == WritingMode::HorizontalTb,
    {
        WritingMode::HorizontalTb
    }
}

impl WritingMode {
    /// The writing mode that the short name `s` stands for.
    pub fn from_str(s: &str) -> (result: Result<WritingMode, ComposeError>)
        ensures
            match result {
                Ok(mode) => writing_mode_of(s@) == Some(mode),
                Err(e) => writing_mode_of(s@) is None && (e matches ComposeError::WritingMode(x)
                    && x@ == s@),
            },
    {
        if str_eq(s, "htb") {
            Ok(WritingMode::HorizontalTb)
        } else if str_eq(s, "vrl") {
            Ok(WritingMode::VerticalRl)
        } else if str_eq(s, "vlr") {
            Ok(WritingMode::VerticalLr)
        } else {
            Err(ComposeError::WritingMode(String::from_str(s)))
        }
    }

    /// The short name of the writing mode.
    pub open spec fn text(&self) -> Seq<char> {
        match self {
            WritingMode::HorizontalTb => "htb"@,
            WritingMode::VerticalRl => "vrl"@,
            WritingMode::VerticalLr => "vlr"@,
        }
    }

    /// The short name of the writing mode.
    pub fn to_string(&self) -> (out: String)
        ensures
            out@ == self.text(),
    {
        match self {
            WritingMode::HorizontalTb => String::from_str("htb"),
            WritingMode::VerticalRl => String::from_str("vrl"),
            WritingMode::VerticalLr => String::from_str("vlr"),
        }
    }
}

/// The direction in which the pages follow each other.
#[derive(Debug, Clone, Copy, PartialEq, Eq)]
pub enum PageProgressionDirection {
    LtR,
    RtL,
    Default,
}

impl Default for PageProgressionDirection {
    fn default() -> (direction: PageProgressionDirection)
        ensures
            direction == PageProgressionDirection::Default,
    {
        PageProgressionDirection::Default
    }
}

impl PageProgressionDirection {
    /// The direction that goes with a writing mode: horizontal text leaves it
    /// open, vertical text turns the pages the way its lines follow each other.
    pub open spec fn of(mode: WritingMode) -> PageProgressionDirection {
        match mode {
            WritingMode::HorizontalTb => PageProgressionDirection::Default,
            WritingMode::VerticalLr => PageProgressionDirection::LtR,
            WritingMode::VerticalRl => PageProgressionDirection::RtL,
        }
    }

    /// The direction that goes with a writing mode.
    pub fn from(mode: &WritingMode) -> (direction: PageProgressionDirection)
        ensures
            direction == PageProgressionDirection::of(*mode),
    {
        match mode {
            WritingMode::HorizontalTb => PageProgressionDirection::Default,
            WritingMode::VerticalLr => PageProgressionDirection::LtR,
            WritingMode::VerticalRl => PageProgressionDirection::RtL,
        }
    }

    /// The direction as it is written in the reading order.
    pub open spec fn text(&self) -> Seq<char> {
        match self {
            PageProgressionDirection::LtR => "ltr"@,
            PageProgressionDirection::RtL => "rtl"@,
            PageProgressionDirection::Default => "default"@,
        }
    }

    /// The direction as it is written in the reading order.
    pub fn to_string(&self) -> (out: String)
        ensures
            out@ == self.text(),
    {
        match self {
            PageProgressionDirection::LtR => String::from_str("ltr"),
            PageProgressionDirection::RtL => String::from_str("rtl"),
            PageProgressionDirection::Default => String::from_str("default"),
        }
    }
}

/// A source file: its name, its extension, and where it lies.
#[derive(Debug)]
pub struct Source {
    pub file_name: String,
    pub ext: Option<String>,
    pub path: FilePath,
}

/// What a source file is.
pub ghost struct SourceView {
    pub file_name: Seq<char>,
    pub ext: Option<Seq<char>>,
    pub path: Seq<Seq<char>>,
}

impl View for Source {
    type V = SourceView;

    open spec fn view(&self) -> SourceView {
        SourceView { file_name: self.file_name@, ext: opt_text(self.ext), path: self.path@ }
    }
}

/// The source file at `path`.
pub open spec fn source_of(path: Seq<Seq<char>>) -> SourceView {
    SourceView { file_name: file_name_of(path)->0, ext: extension_of(path), path }
}

impl Source {
    /// The source file at `path`, where a file exists there. `exists` and
    /// `is_file` say what was found at the path.
    pub fn try_from(path: &FilePath, exists: bool, is_file: bool) -> (result: Result<
        Source,
        ComposeError,
    >)
        ensures
            match result {
                Ok(source) => exists && is_file && file_name_of(path@) is Some && source@
                    == source_of(path@),
                Err(ComposeError::Missing(p)) => !exists && p@ == path@,
                Err(ComposeError::NotAFile(p)) => exists && (!is_file || file_name_of(path@)
                    is None) && p@ == path@,
                Err(_) => false,
            },
    {
        if !exists {
            return Err(ComposeError::Missing(path.clone()));
        }
        if !is_file {
            return Err(ComposeError::NotAFile(path.clone()));
        }
        match path.file_name() {
            Some(file_name) => Ok(Source { file_name, ext: path.extension(), path: path.clone() }),
            None => Err(ComposeError::NotAFile(path.clone())),
        }
    }

    /// A copy of the source.
    pub fn copy(&self) -> (source: Source)
        ensures
            source@ == self@,
    {
        Source {
            file_name: self.file_name.clone(),
            ext: match &self.ext {
                Some(ext) => Some(ext.clone()),
                None => None,
            },
            path: self.path.clone(),
        }
    }
}

/// What the configuration says of one content document.
#[derive(Debug)]
pub struct ContentConfigure {
    /// The document, as a path below the target.
    pub src: FilePath,
    /// What the document is marked as.
    pub properties: Vec<Properties>,
    /// The style sheets of the document, as paths below the target.
    pub styles: Vec<FilePath>,
}

/// What a configuration says of one content document.
pub ghost struct Configure {
    pub src: Seq<Seq<char>>,
    pub properties: Seq<Properties>,
    pub styles: Seq<Seq<Seq<char>>>,
}

impl View for ContentConfigure {
    type V = Configure;

    open spec fn view(&self) -> Configure {
        Configure {
            src: self.src@,
            properties: self.properties@,
            styles: Seq::new(self.styles@.len(), |i: int| self.styles@[i]@),
        }
    }
}

/// The views of what a configuration says of the content documents.
pub open spec fn configures_view(configures: Seq<ContentConfigure>) -> Seq<Configure> {
    Seq::new(configures.len(), |i: int| configures[i]@)
}

/// The settings of a run.
#[derive(Debug)]
pub struct Config {
    /// The file or directory that is converted.
    pub target: FilePath,
    /// The direction in which the text runs.
    pub writing_mode: WritingMode,
    /// The title of the publication.
    pub title: String,
    /// The author, editor or translator.
    pub creator: String,
    /// The language of the publication.
    pub language: String,
    /// The identifier of the publication.
    pub book_id: String,
    /// The deepest heading level that the navigation shows.
    pub toc_depth: u8,
    /// Whether the progress is shown.
    pub verbose: bool,
    /// Whether the staging tree is kept.
    pub save: bool,
    /// Whether the configuration is saved.
    pub config: bool,
    /// The cover image, as a path below the target.
    pub cover_image: Option<FilePath>,
    /// The files that are left out, as paths below the target.
    pub ignores: Vec<FilePath>,
    /// The content documents in reading order, as paths below the target;
    /// where it is given, no other document is taken.
    pub sequence: Option<Vec<FilePath>>,
    /// What is said of single content documents.
    pub contents: Vec<ContentConfigure>,
}

/// The depth of the navigation where nothing names one.
pub const DEFAULT_TOC_DEPTH: u8 = 2;

/// The length of a generated identifier.
pub const BOOK_ID_LENGTH: usize = 30;

/// The value of one decimal digit.
pub open spec fn digit_value(c: char) -> Option<nat> {
    if c == '0' {
        Some(0)
    } else if c == '1' {
        Some(1)
    } else if c == '2' {
        Some(2)
    } else if c == '3' {
        Some(3)
    } else if c == '4' {
        Some(4)
    } else if c == '5' {
        Some(5)
    } else if c == '6' {
        Some(6)
    } else if c == '7' {
        Some(7)
    } else if c == '8' {
        Some(8)
    } else if c == '9' {
        Some(9)
    } else {
        None
    }
}

/// The number that a row of decimal digits stands for; the empty row stands
/// for 0, and a row with anything but digits for nothing.
pub open spec fn digits_value(s: Seq<char>) -> Option<nat>
    decreases s.len(),
{
    if s.len() == 0 {
        Some(0)
    } else {
        match (digits_value(s.drop_last()), digit_value(s.last())) {
            (Some(front), Some(digit)) => Some(front * 10 + digit),
            _ => None,
        }
    }
}

/// The level that a text stands for: a decimal number up to 255, which a `+`
/// may precede.
pub open spec fn level_of(s: Seq<char>) -> Option<u8> {
    let digits = if s.len() > 0 && s[0] == '+' {
        s.skip(1)
    } else {
        s
    };
    if digits.len() == 0 {
        None
    } else {
        match digits_value(digits) {
            Some(value) => if value <= 255 {
                Some(value as u8)
            } else {
                None
            },
            None => None,
        }
    }
}

fn digit_of(c: char) -> (d: Option<u32>)
    ensures
        match d {
            Some(v) => digit_value(c) == Some(v as nat) && v < 10,
            None => digit_value(c) is None,
        },
{
    if c == '0' {
        Some(0)
    } else if c == '1' {
        Some(1)
    } else if c == '2' {
        Some(2)
    } else if c == '3' {
        Some(3)
    } else if c == '4' {
        Some(4)
    } else if c == '5' {
        Some(5)
    } else if c == '6' {
        Some(6)
    } else if c == '7' {
        Some(7)
    } else if c == '8' {
        Some(8)
    } else if c == '9' {
        Some(9)
    } else {
        None
    }
}

/// A row of digits stands for no less than any of its leading parts, and for
/// nothing where a leading part does.
pub proof fn lemma_digits_value_grows(s: Seq<char>, n: int)
    requires
        0 <= n <= s.len(),
    ensures
        digits_value(s.take(n)) is None ==> digits_value(s) is None,
        digits_value(s) is Some ==> digits_value(s.take(n))->0 <= digits_value(s)->0,
    decreases s.len() - n,
{
    if n == s.len() {
        assert(s.take(n) == s);
    } else {
        lemma_digits_value_grows(s, n + 1);
        assert(s.take(n + 1).drop_last() == s.take(n));
    }
}

/// Reads a level from its text.
pub fn parse_level(s: &str) -> (level: Option<u8>)
    ensures
        level == level_of(s@),
{
    let chars = chars_of(s);
    let start: usize = if chars.len() > 0 && chars[0] == '+' {
        1
    } else {
        0
    };
    if start == chars.len() {
        return None;
    }
    let ghost digits = chars@.skip(start as int);
    let mut value: u32 = 0;
    let mut i: usize = start;
    assert(digits.take(0) == Seq::<char>::empty());
    while i < chars.len()
        invariant
            start <= i <= chars.len(),
            start < chars.len(),
            chars@ == s@,
            start == (if s@.len() > 0 && s@[0] == '+' {
                1int
            } else {
                0int
            }),
            digits == chars@.skip(start as int),
            digits_value(digits.take(i - start)) == Some(value as nat),
            value <= 255,
        decreases chars.len() - i,
    {
        proof {
            assert(digits.take(i - start + 1).drop_last() == digits.take(i - start));
            assert(digits.take(i - start + 1).last() == chars@[i as int]);
            lemma_digits_value_grows(digits, i - start + 1);
            assert(chars@.skip(0) == chars@);
        }
        match digit_of(chars[i]) {
            Some(d) => {
                value = value * 10 + d;
                if value > 255 {
                    return None;
                }
            },
            None => {
                return None;
            },
        }
        i += 1;
    }
    assert(digits.take(digits.len() as int) == digits);
    assert(chars@.skip(0) == chars@);
    Some(value as u8)
}

/// What the command line gives, each option as it was written.
#[derive(Debug)]
pub struct Arguments {
    pub input: Option<String>,
    pub title: Option<String>,
    pub creator: Option<String>,
    pub language: Option<String>,
    pub book_id: Option<String>,
    pub writing_mode: Option<String>,
    pub cover_image: Option<String>,
    pub toc_depth: Option<String>,
    pub verbose: bool,
    pub save: bool,
    pub config: bool,
}

/// What was found out for this run: the user's answers to the questions for
/// what neither the command line nor a saved configuration gives, and whether
/// the cover image exists.
#[derive(Debug)]
pub struct Answers {
    pub title: Option<String>,
    pub creator: Option<String>,
    pub language: Option<String>,
    pub cover_image_exists: bool,
}

/// Whether `c` is an ASCII letter or digit.
pub open spec fn is_alphanumeric(c: char) -> bool {
    ('a' <= c && c <= 'z') || ('A' <= c && c <= 'Z') || ('0' <= c && c <= '9')
}

/// `len` random ASCII letters and digits, by `Alphanumeric::sample_string` of
/// `rand` on the thread's generator; only the length and the alphabet of the
/// result are known.
#[verifier::external_body]
fn random_alphanumeric(len: usize) -> (out: String)
    ensures
        out@.len() == len,
        forall|i: int| 0 <= i < out@.len() ==> is_alphanumeric(#[trigger] out@[i]),
{
    rand::distributions::DistString::sample_string(
        &rand::distributions::Alphanumeric,
        &mut rand::thread_rng(),
        len,
    )
}

/// The first of three values that is there.
pub open spec fn first_of(
    a: Option<Seq<char>>,
    b: Option<Seq<char>>,
    c: Option<Seq<char>>,
) -> Option<Seq<char>> {
    if a is Some {
        a
    } else if b is Some {
        b
    } else {
        c
    }
}

/// Either of two switches, but not both: a switch on the command line turns
/// a saved one around.
pub open spec fn toggled(given: bool, saved: bool) -> bool {
    (given || saved) && !(given && saved)
}

/// Why a configuration cannot be put together.
pub ghost enum Refusal {
    /// A value is given nowhere.
    Missing(Seq<char>),
    /// The writing mode is not one of the three.
    Mode(Seq<char>),
}

/// What an error says of a configuration.
pub open spec fn refusal_of(e: ComposeError) -> Option<Refusal> {
    match e {
        ComposeError::MissingValue(name) => Some(Refusal::Missing(name@)),
        ComposeError::WritingMode(mode) => Some(Refusal::Mode(mode@)),
        _ => None,
    }
}

/// The saved title, creator or language, where a configuration was saved.
pub open spec fn saved_text(saved: Option<Config>, pick: spec_fn(Config) -> Seq<char>) -> Option<
    Seq<char>,
> {
    match saved {
        Some(cfg) => Some(pick(cfg)),
        None => None,
    }
}

/// The title of the run: from the command line, else as saved, else as
/// answered.
pub open spec fn title_of(args: Arguments, saved: Option<Config>, answers: Answers) -> Option<
    Seq<char>,
> {
    first_of(
        opt_text(args.title),
        saved_text(saved, |cfg: Config| cfg.title@),
        opt_text(answers.title),
    )
}

/// The creator of the run, found like the title.
pub open spec fn creator_of(args: Arguments, saved: Option<Config>, answers: Answers) -> Option<
    Seq<char>,
> {
    first_of(
        opt_text(args.creator),
        saved_text(saved, |cfg: Config| cfg.creator@),
        opt_text(answers.creator),
    )
}

/// The language of the run, found like the title.
pub open spec fn language_of(args: Arguments, saved: Option<Config>, answers: Answers) -> Option<
    Seq<char>,
> {
    first_of(
        opt_text(args.language),
        saved_text(saved, |cfg: Config| cfg.language@),
        opt_text(answers.language),
    )
}

/// Why no configuration comes of these values, if none does: the first of
/// the input, the title, the creator and the language that is given nowhere,
/// or a writing mode on the command line that is none.
pub open spec fn merge_refusal(args: Arguments, saved: Option<Config>, answers: Answers) -> Option<
    Refusal,
> {
    if args.input is None {
        Some(Refusal::Missing("input"@))
    } else if title_of(args, saved, answers) is None {
        Some(Refusal::Missing("title"@))
    } else if creator_of(args, saved, answers) is None {
        Some(Refusal::Missing("creator"@))
    } else if language_of(args, saved, answers) is None {
        Some(Refusal::Missing("language"@))
    } else if args.writing_mode is Some && writing_mode_of(args.writing_mode->0@) is None {
        Some(Refusal::Mode(args.writing_mode->0@))
    } else {
        None
    }
}

/// The writing mode of the run: from the command line, else as saved, else
/// horizontal.
pub open spec fn mode_of(args: Arguments, saved: Option<Config>) -> WritingMode {
    if args.writing_mode is Some {
        writing_mode_of(args.writing_mode->0@)->0
    } else if saved is Some {
        saved->0.writing_mode
    } else {
        WritingMode::HorizontalTb
    }
}

/// The depth of the navigation: from the command line, where it is a level,
/// else as saved, else the default.
pub open spec fn depth_of(args: Arguments, saved: Option<Config>) -> u8 {
    if args.toc_depth is Some {
        match level_of(args.toc_depth->0@) {
            Some(level) => level,
            None => DEFAULT_TOC_DEPTH,
        }
    } else if saved is Some {
        saved->0.toc_depth
    } else {
        DEFAULT_TOC_DEPTH
    }
}

/// The place where the cover image is looked for: the path of the command
/// line as it is, or the saved path below the input.
pub open spec fn cover_candidate_of(args: Arguments, saved: Option<Config>) -> Option<
    Seq<Seq<char>>,
> {
    if args.input is None {
        None
    } else if args.cover_image is Some {
        Some(crate::path::components(args.cover_image->0@))
    } else if saved is Some && saved->0.cover_image is Some {
        Some(joined_path(crate::path::components(args.input->0@), saved->0.cover_image->0@))
    } else {
        None
    }
}

/// The cover image of the run, as a path below the input: that of the command
/// line, else the saved one; none where the image does not exist.
pub open spec fn cover_of(args: Arguments, saved: Option<Config>, answers: Answers) -> Option<
    Seq<Seq<char>>,
> {
    if !answers.cover_image_exists {
        None
    } else if args.cover_image is Some {
        path_diff_of(
            crate::path::components(args.input->0@),
            crate::path::components(args.cover_image->0@),
        )
    } else if saved is Some {
        opt_path(saved->0.cover_image)
    } else {
        None
    }
}

/// The warning that the cover image was dropped.
pub open spec fn cover_warning(place: Seq<Seq<char>>) -> Seq<char> {
    "the cover image does not exist and is left out: "@ + crate::path::rendered(place)
}

/// The warning that the depth was replaced.
pub open spec fn depth_warning(given: Seq<char>) -> Seq<char> {
    "not a level for the table of contents, 2 is taken: "@ + given
}

/// The warnings that go with a configuration: one where a cover image was
/// named but does not exist, one where the depth of the command line is no
/// level.
pub open spec fn merge_warnings(args: Arguments, saved: Option<Config>, answers: Answers) -> Seq<
    Seq<char>,
> {
    let cover = if cover_candidate_of(args, saved) is Some && !answers.cover_image_exists {
        seq![cover_warning(cover_candidate_of(args, saved)->0)]
    } else {
        Seq::empty()
    };
    let depth = if args.toc_depth is Some && level_of(args.toc_depth->0@) is None {
        seq![depth_warning(args.toc_depth->0@)]
    } else {
        Seq::empty()
    };
    cover + depth
}

/// The texts of a list of warnings.
pub open spec fn warning_texts(warnings: Seq<RepubWarning>) -> Seq<Seq<char>> {
    Seq::new(warnings.len(), |i: int| warnings[i].0@)
}

/// Whether `cfg` is the configuration that the three sources add up to: each
/// value from the command line where it is given there, else as saved, else
/// as answered or by default. The identifier, where none is given or saved,
/// is `BOOK_ID_LENGTH` letters and digits.
pub open spec fn is_merged(
    args: Arguments,
    saved: Option<Config>,
    answers: Answers,
    cfg: Config,
) -> bool {
    &&& args.input is Some
    &&& cfg.target@ == crate::path::components(args.input->0@)
    &&& Some(cfg.title@) == title_of(args, saved, answers)
    &&& Some(cfg.creator@) == creator_of(args, saved, answers)
    &&& Some(cfg.language@) == language_of(args, saved, answers)
    &&& cfg.writing_mode == mode_of(args, saved)
    &&& if args.book_id is Some {
        cfg.book_id@ == args.book_id->0@
    } else if saved is Some {
        cfg.book_id@ == saved->0.book_id@
    } else {
        &&& cfg.book_id@.len() == BOOK_ID_LENGTH
        &&& forall|i: int| 0 <= i < cfg.book_id@.len() ==> is_alphanumeric(#[trigger] cfg.book_id@[i])
    }
    &&& cfg.toc_depth == depth_of(args, saved)
    &&& cfg.verbose == toggled(args.verbose, saved is Some && saved->0.verbose)
    &&& cfg.save == toggled(args.save, saved is Some && saved->0.save)
    &&& cfg.config == toggled(args.config, saved is Some && saved->0.config)
    &&& opt_path(cfg.cover_image) == cover_of(args, saved, answers)
    &&& match saved {
        Some(kept) => cfg.ignores == kept.ignores && cfg.sequence == kept.sequence && cfg.contents
            == kept.contents,
        None => cfg.ignores@.len() == 0 && cfg.sequence is None && cfg.contents@.len() == 0,
    }
}

fn choose_text(
    given: &Option<String>,
    saved: Option<&String>,
    answer: &Option<String>,
    name: &str,
) -> (result: Result<String, ComposeError>)
    ensures
        match result {
            Ok(text) => Some(text@) == first_of(
                opt_text(*given),
                match saved {
                    Some(s) => Some(s@),
                    None => None,
                },
                opt_text(*answer),
            ),
            Err(e) => given is None && saved is None && answer is None && refusal_of(e) == Some(
                Refusal::Missing(name@),
            ),
        },
{
    match given {
        Some(text) => Ok(text.clone()),
        None => match saved {
            Some(text) => Ok(text.clone()),
            None => match answer {
                Some(text) => Ok(text.clone()),
                None => Err(ComposeError::MissingValue(String::from_str(name))),
            },
        },
    }
}

fn toggle(given: bool, saved: bool) -> (on: bool)
    ensures
        on == toggled(given, saved),
{
    (given || saved) && !(given && saved)
}

impl Config {
    /// The place where the cover image has to be looked for before the
    /// configuration is put together, if a cover image is named at all.
    pub fn cover_candidate(args: &Arguments, saved: &Option<Config>) -> (place: Option<FilePath>)
        ensures
            opt_path(place) == cover_candidate_of(*args, *saved),
    {
        match &args.input {
            None => None,
            Some(input) => match &args.cover_image {
                Some(cover) => Some(FilePath::from_str(cover.as_str())),
                None => match saved {
                    Some(cfg) => match &cfg.cover_image {
                        Some(cover) => Some(FilePath::from_str(input.as_str()).join(cover)),
                        None => None,
                    },
                    None => None,
                },
            },
        }
    }

    /// Puts the configuration of a run together from the command line, the
    /// saved configuration, if there is one, and what was found out for this
    /// run. Each value is taken from the command line where it is given
    /// there, else from the saved configuration, else from the answers or a
    /// default.
    pub fn try_from(args: &Arguments, saved: Option<Config>, answers: &Answers) -> (result: Result<
        (Config, Vec<RepubWarning>),
        ComposeError,
    >)
        ensures
            match result {
                Ok((cfg, warnings)) => {
                    &&& merge_refusal(*args, saved, *answers) is None
                    &&& is_merged(*args, saved, *answers, cfg)
                    &&& warning_texts(warnings@) == merge_warnings(*args, saved, *answers)
                },
                Err(e) => merge_refusal(*args, saved, *answers) is Some && refusal_of(e)
                    == merge_refusal(*args, saved, *answers),
            },
    {
        let input = match &args.input {
            Some(input) => input,
            None => {
                return Err(ComposeError::MissingValue(String::from_str("input")));
            },
        };
        let target = FilePath::from_str(input.as_str());
        let place = Config::cover_candidate(args, &saved);
        let title = match choose_text(
            &args.title,
            match &saved {
                Some(cfg) => Some(&cfg.title),
                None => None,
            },
            &answers.title,
            "title",
        ) {
            Ok(text) => text,
            Err(e) => {
                return Err(e);
            },
        };
        let creator = match choose_text(
            &args.creator,
            match &saved {
                Some(cfg) => Some(&cfg.creator),
                None => None,
            },
            &answers.creator,
            "creator",
        ) {
            Ok(text) => text,
            Err(e) => {
                return Err(e);
            },
        };
        let language = match choose_text(
            &args.language,
            match &saved {
                Some(cfg) => Some(&cfg.language),
                None => None,
            },
            &answers.language,
            "language",
        ) {
            Ok(text) => text,
            Err(e) => {
                return Err(e);
            },
        };
        let writing_mode = match &args.writing_mode {
            Some(mode) => match WritingMode::from_str(mode.as_str()) {
                Ok(mode) => mode,
                Err(e) => {
                    return Err(e);
                },
            },
            None => match &saved {
                Some(cfg) => cfg.writing_mode,
                None => WritingMode::default(),
            },
        };
        let book_id = match &args.book_id {
            Some(id) => id.clone(),
            None => match &saved {
                Some(cfg) => cfg.book_id.clone(),
                None => random_alphanumeric(BOOK_ID_LENGTH),
            },
        };
        let mut warnings: Vec<RepubWarning> = Vec::new();
        let cover_image = if !answers.cover_image_exists {
            match &place {
                Some(missing) => {
                    let mut text = String::from_str(
                        "the cover image does not exist and is left out: ",
                    );
                    text.append(missing.to_string().as_str());
                    warnings.push(RepubWarning(text));
                },
                None => {},
            }
            None
        } else {
            match &args.cover_image {
                Some(cover) => FilePath::path_diff(&target, &FilePath::from_str(cover.as_str())),
                None => match &saved {
                    Some(cfg) => match &cfg.cover_image {
                        Some(cover) => Some(cover.clone()),
                        None => None,
                    },
                    None => None,
                },
            }
        };
        let ghost cover_part = warning_texts(warnings@);
        assert(cover_part == if cover_candidate_of(*args, saved) is Some
            && !answers.cover_image_exists {
            seq![cover_warning(cover_candidate_of(*args, saved)->0)]
        } else {
            Seq::<Seq<char>>::empty()
        });
        let toc_depth = match &args.toc_depth {
            Some(depth) => match parse_level(depth.as_str()) {
                Some(level) => level,
                None => {
                    let mut text = String::from_str(
                        "not a level for the table of contents, 2 is taken: ",
                    );
                    text.append(depth.as_str());
                    warnings.push(RepubWarning(text));
                    DEFAULT_TOC_DEPTH
                },
            },
            None => match &saved {
                Some(cfg) => cfg.toc_depth,
                None => DEFAULT_TOC_DEPTH,
            },
        };
        assert(warning_texts(warnings@) == merge_warnings(*args, saved, *answers)) by {
            if args.toc_depth is Some && level_of(args.toc_depth->0@) is None {
                assert(warning_texts(warnings@) == cover_part + seq![
                    depth_warning(args.toc_depth->0@),
                ]);
            } else {
                assert(cover_part + Seq::<Seq<char>>::empty() == cover_part);
            }
        }
        let verbose = toggle(
            args.verbose,
            match &saved {
                Some(cfg) => cfg.verbose,
                None => false,
            },
        );
        let save = toggle(
            args.save,
            match &saved {
                Some(cfg) => cfg.save,
                None => false,
            },
        );
        let config = toggle(
            args.config,
            match &saved {
                Some(cfg) => cfg.config,
                None => false,
            },
        );
        let (ignores, sequence, contents) = match saved {
            Some(cfg) => (cfg.ignores, cfg.sequence, cfg.contents),
            None => (Vec::new(), None, Vec::new()),
        };
        let cfg = Config {
            target,
            writing_mode,
            title,
            creator,
            language,
            book_id,
            toc_depth,
            verbose,
            save,
            config,
            cover_image,
            ignores,
            sequence,
            contents,
        };
        Ok((cfg, warnings))
    }
}

/// Whether the input of a run can be taken: it has to exist, and where it is
/// a file with an extension, the extension has to be `md`.
pub open spec fn input_accepted(path: Seq<Seq<char>>, exists: bool, is_file: bool) -> bool {
    exists && !(is_file && extension_of(path) is Some && extension_of(path) != Some("md"@))
}

/// Checks the input of a run: `exists` and `is_file` say what was found at
/// `path`. What does not exist is refused as missing; a file with another
/// extension than `md` is refused as no Markdown.
pub fn md_validator(path: &FilePath, exists: bool, is_file: bool) -> (result: Result<
    (),
    ComposeError,
>)
    ensures
        match result {
            Ok(()) => input_accepted(path@, exists, is_file),
            Err(ComposeError::Missing(p)) => !exists && p@ == path@,
            Err(ComposeError::NotMarkdown(p)) => exists && is_file && extension_of(path@) is Some
                && extension_of(path@) != Some("md"@) && p@ == path@,
            Err(_) => false,
        },
{
    if !exists {
        return Err(ComposeError::Missing(path.clone()));
    }
    if is_file {
        match path.extension() {
            Some(ext) => {
                if !str_eq(ext.as_str(), "md") {
                    return Err(ComposeError::NotMarkdown(path.clone()));
                }
            },
            None => {},
        }
    }
    Ok(())
}

/// The path with its last component replaced by `name`; `name` alone where
/// the path has no component to replace.
pub open spec fn with_file_name_of(path: Seq<Seq<char>>, name: Seq<char>) -> Seq<Seq<char>> {
    if path.len() > 0 && path.last() != crate::path::root_part() {
        joined_path(path.drop_last(), crate::path::components(name))
    } else {
        joined_path(path, crate::path::components(name))
    }
}

impl Config {
    /// Where the configuration is saved, if it is to be saved: beside the
    /// target where that is a file, in it where it is a directory.
    pub open spec fn saved_at_of(&self, target_is_file: bool) -> Option<Seq<Seq<char>>> {
        if !self.config {
            None
        } else if target_is_file {
            Some(with_file_name_of(self.target@, crate::message::CONFIG_JSON@))
        } else {
            Some(joined_path(self.target@, crate::path::components(crate::message::CONFIG_JSON@)))
        }
    }

    /// Where the configuration is saved, if it is to be saved.
    pub fn saved_at(&self, target_is_file: bool) -> (place: Option<FilePath>)
        ensures
            opt_path(place) == self.saved_at_of(target_is_file),
    {
        if !self.config {
            return None;
        }
        let name = FilePath::from_str(crate::message::CONFIG_JSON);
        if target_is_file {
            match self.target.parent() {
                Some(dir) => Some(dir.join(&name)),
                None => Some(self.target.join(&name)),
            }
        } else {
            Some(self.target.join(&name))
        }
    }
}

} // verus!
