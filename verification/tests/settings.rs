use repub::data::{ContentSource, ConvertType, Files, Input, InputData};
use repub::error::ComposeError;
use repub::listing::Listing;
use repub::load::{
    md_validator, parse_level, Answers, Arguments, Config, ContentConfigure,
    PageProgressionDirection, Source, WritingMode,
};
use repub::media_type::Properties;
use repub::path::FilePath;

fn arguments() -> Arguments {
    Arguments {
        input: Some(String::from("book")),
        title: None,
        creator: None,
        language: None,
        book_id: None,
        writing_mode: None,
        cover_image: None,
        toc_depth: None,
        verbose: false,
        save: false,
        config: false,
    }
}

fn answers() -> Answers {
    Answers {
        title: Some(String::from("asked title")),
        creator: Some(String::from("asked creator")),
        language: Some(String::from("asked language")),
        cover_image_exists: true,
    }
}

fn saved() -> Config {
    Config {
        target: FilePath::from_str("elsewhere"),
        writing_mode: WritingMode::VerticalLr,
        title: String::from("saved title"),
        creator: String::from("saved creator"),
        language: String::from("saved language"),
        book_id: String::from("saved-id"),
        toc_depth: 4,
        verbose: true,
        save: false,
        config: true,
        cover_image: Some(FilePath::from_str("img/cover.png")),
        ignores: vec![FilePath::from_str("draft.md")],
        sequence: Some(vec![FilePath::from_str("b.md"), FilePath::from_str("a.md")]),
        contents: vec![ContentConfigure {
            src: FilePath::from_str("a.md"),
            properties: vec![Properties::Nav],
            styles: Vec::new(),
        }],
    }
}

#[test]
fn a_writing_mode_has_a_short_name_and_a_direction() {
    let modes = [
        ("htb", WritingMode::HorizontalTb, PageProgressionDirection::Default, "default"),
        ("vrl", WritingMode::VerticalRl, PageProgressionDirection::RtL, "rtl"),
        ("vlr", WritingMode::VerticalLr, PageProgressionDirection::LtR, "ltr"),
    ];
    for (name, mode, direction, written) in modes {
        assert_eq!(WritingMode::from_str(name).unwrap(), mode);
        assert_eq!(mode.to_string(), name);
        assert_eq!(PageProgressionDirection::from(&mode), direction);
        assert_eq!(direction.to_string(), written);
    }
    assert_eq!(WritingMode::default(), WritingMode::HorizontalTb);
    assert_eq!(PageProgressionDirection::default(), PageProgressionDirection::Default);
    for name in ["", "HTB", "horizontal", "vrl "] {
        assert!(matches!(WritingMode::from_str(name), Err(ComposeError::WritingMode(m)) if m == name));
    }
}

#[test]
fn a_level_is_a_number_up_to_255() {
    assert_eq!(parse_level("0"), Some(0));
    assert_eq!(parse_level("2"), Some(2));
    assert_eq!(parse_level("+5"), Some(5));
    assert_eq!(parse_level("007"), Some(7));
    assert_eq!(parse_level("255"), Some(255));
    assert_eq!(parse_level("256"), None);
    assert_eq!(parse_level("99999999999999999999999"), None);
    assert_eq!(parse_level(""), None);
    assert_eq!(parse_level("+"), None);
    assert_eq!(parse_level("-1"), None);
    assert_eq!(parse_level("1a"), None);
    assert_eq!(parse_level("a1"), None);
    assert_eq!(parse_level(" 1"), None);
    assert_eq!(parse_level("1+"), None);
}

#[test]
fn a_source_is_a_file_that_exists() {
    let path = FilePath::from_str("book/ch1.md");
    let source = Source::try_from(&path, true, true).unwrap();
    assert_eq!(source.file_name, "ch1.md");
    assert_eq!(source.ext, Some(String::from("md")));
    assert_eq!(source.path.to_string(), "book/ch1.md");
    assert_eq!(source.copy().file_name, "ch1.md");
    let bare = Source::try_from(&FilePath::from_str("book/LICENSE"), true, true).unwrap();
    assert_eq!(bare.ext, None);
    assert!(matches!(Source::try_from(&path, false, false), Err(ComposeError::Missing(p)) if p.to_string() == "book/ch1.md"));
    assert!(matches!(Source::try_from(&path, false, true), Err(ComposeError::Missing(_))));
    assert!(matches!(Source::try_from(&path, true, false), Err(ComposeError::NotAFile(p)) if p.to_string() == "book/ch1.md"));
    assert!(matches!(Source::try_from(&FilePath::from_str("book/.."), true, true), Err(ComposeError::NotAFile(_))));
}

#[test]
fn only_markdown_and_xhtml_are_content() {
    let md = Source::try_from(&FilePath::from_str("a/b.md"), true, true).unwrap();
    let content = ContentSource::try_from(md).unwrap();
    assert_eq!(content.convert_type, ConvertType::MarkdownToXHTML);
    assert_eq!(content.as_ref().file_name, "b.md");
    assert_eq!(content.copy().src.path.to_string(), "a/b.md");
    let xhtml = Source::try_from(&FilePath::from_str("a/b.xhtml"), true, true).unwrap();
    assert_eq!(ContentSource::try_from(xhtml).unwrap().convert_type, ConvertType::NoConversion);
    let png = Source::try_from(&FilePath::from_str("a/b.png"), true, true).unwrap();
    assert!(matches!(ContentSource::try_from(png), Err(ComposeError::NotContent(e)) if e == "png"));
    let bare = Source::try_from(&FilePath::from_str("a/b"), true, true).unwrap();
    assert!(matches!(ContentSource::try_from(bare), Err(ComposeError::NoExtension(p)) if p.to_string() == "a/b"));
    assert_eq!(ConvertType::from(&FilePath::from_str("x.md")), ConvertType::MarkdownToXHTML);
    assert_eq!(ConvertType::from(&FilePath::from_str("x.xhtml")), ConvertType::NoConversion);
    assert_eq!(ConvertType::from(&FilePath::from_str("x")), ConvertType::NoConversion);
}

#[test]
fn source_files_are_sorted_by_what_is_done_with_them() {
    let names = ["b/1.md", "b/a.css", "b/p.png", "b/2.xhtml", "b/README", "b/z.css", "b/3.md"];
    let srcs: Vec<Source> = names
        .iter()
        .map(|n| Source::try_from(&FilePath::from_str(n), true, true).unwrap())
        .collect();
    let files = Files::from(srcs);
    let contents: Vec<String> = files.content_files.iter().map(|c| c.src.path.to_string()).collect();
    assert_eq!(contents, vec!["b/1.md", "b/2.xhtml", "b/3.md"]);
    let styles: Vec<String> = files.style_files.iter().map(|s| s.path.to_string()).collect();
    assert_eq!(styles, vec!["b/a.css", "b/z.css"]);
    let statics: Vec<String> = files.static_files.iter().map(|s| s.path.to_string()).collect();
    assert_eq!(statics, vec!["b/p.png", "b/README"]);
}

#[test]
fn the_input_has_to_exist_and_a_file_has_to_be_markdown() {
    let md = FilePath::from_str("book/ch1.md");
    let png = FilePath::from_str("book/a.png");
    let dir = FilePath::from_str("book");
    assert!(md_validator(&md, true, true).is_ok());
    assert!(md_validator(&dir, true, false).is_ok());
    assert!(md_validator(&dir, true, true).is_ok());
    assert!(md_validator(&FilePath::from_str("book.d"), true, false).is_ok());
    assert!(matches!(md_validator(&png, true, true), Err(ComposeError::NotMarkdown(p)) if p.to_string() == "book/a.png"));
    assert!(matches!(md_validator(&md, false, false), Err(ComposeError::Missing(p)) if p.to_string() == "book/ch1.md"));
}

#[test]
fn the_command_line_goes_before_what_was_saved_and_answered() {
    let mut args = arguments();
    args.title = Some(String::from("given title"));
    args.book_id = Some(String::from("given-id"));
    args.writing_mode = Some(String::from("vrl"));
    args.toc_depth = Some(String::from("3"));
    let (cfg, warnings) = Config::try_from(&args, Some(saved()), &answers()).unwrap();
    assert!(warnings.is_empty());
    assert_eq!(cfg.target.to_string(), "book");
    assert_eq!(cfg.title, "given title");
    assert_eq!(cfg.creator, "saved creator");
    assert_eq!(cfg.language, "saved language");
    assert_eq!(cfg.book_id, "given-id");
    assert_eq!(cfg.writing_mode, WritingMode::VerticalRl);
    assert_eq!(cfg.toc_depth, 3);
    assert_eq!(cfg.cover_image.unwrap().to_string(), "img/cover.png");
    assert_eq!(cfg.ignores.len(), 1);
    assert_eq!(cfg.sequence.unwrap().len(), 2);
    assert_eq!(cfg.contents.len(), 1);
}

#[test]
fn what_is_given_nowhere_is_answered_or_taken_by_default() {
    let (cfg, warnings) = Config::try_from(&arguments(), None, &answers()).unwrap();
    assert!(warnings.is_empty());
    assert_eq!(cfg.title, "asked title");
    assert_eq!(cfg.creator, "asked creator");
    assert_eq!(cfg.language, "asked language");
    assert_eq!(cfg.writing_mode, WritingMode::HorizontalTb);
    assert_eq!(cfg.toc_depth, 2);
    assert!(cfg.cover_image.is_none());
    assert!(cfg.ignores.is_empty() && cfg.sequence.is_none() && cfg.contents.is_empty());
    assert!(!cfg.verbose && !cfg.save && !cfg.config);
    let (saved_cfg, _) = Config::try_from(&arguments(), Some(saved()), &answers()).unwrap();
    assert_eq!(saved_cfg.title, "saved title");
    assert_eq!(saved_cfg.book_id, "saved-id");
    assert_eq!(saved_cfg.writing_mode, WritingMode::VerticalLr);
    assert_eq!(saved_cfg.toc_depth, 4);
}

#[test]
fn a_generated_identifier_is_thirty_letters_and_digits() {
    let (first, _) = Config::try_from(&arguments(), None, &answers()).unwrap();
    let (second, _) = Config::try_from(&arguments(), None, &answers()).unwrap();
    for id in [&first.book_id, &second.book_id] {
        assert_eq!(id.chars().count(), 30);
        assert!(id.chars().all(|c| c.is_ascii_alphanumeric()), "{}", id);
    }
    assert_ne!(first.book_id, second.book_id);
}

#[test]
fn a_switch_on_the_command_line_turns_a_saved_one_around() {
    let mut args = arguments();
    args.verbose = true;
    args.save = true;
    let (cfg, _) = Config::try_from(&args, Some(saved()), &answers()).unwrap();
    // saved: verbose on, save off, config on
    assert!(!cfg.verbose);
    assert!(cfg.save);
    assert!(cfg.config);
    args.config = true;
    let (cfg, _) = Config::try_from(&args, None, &answers()).unwrap();
    assert!(cfg.verbose && cfg.save && cfg.config);
}

#[test]
fn a_configuration_needs_input_title_creator_and_language() {
    let none = Answers { title: None, creator: None, language: None, cover_image_exists: false };
    let mut args = arguments();
    args.input = None;
    assert!(matches!(Config::try_from(&args, Some(saved()), &answers()), Err(ComposeError::MissingValue(n)) if n == "input"));
    let mut args = arguments();
    assert!(matches!(Config::try_from(&args, None, &none), Err(ComposeError::MissingValue(n)) if n == "title"));
    args.title = Some(String::from("t"));
    assert!(matches!(Config::try_from(&args, None, &none), Err(ComposeError::MissingValue(n)) if n == "creator"));
    args.creator = Some(String::from("c"));
    assert!(matches!(Config::try_from(&args, None, &none), Err(ComposeError::MissingValue(n)) if n == "language"));
    args.language = Some(String::from("l"));
    assert!(Config::try_from(&args, None, &none).is_ok());
    args.writing_mode = Some(String::from("sideways"));
    assert!(matches!(Config::try_from(&args, None, &none), Err(ComposeError::WritingMode(m)) if m == "sideways"));
}

#[test]
fn a_cover_image_that_does_not_exist_is_dropped_with_a_warning() {
    let mut missing = answers();
    missing.cover_image_exists = false;
    let mut args = arguments();
    args.cover_image = Some(String::from("book/img/front.png"));
    assert_eq!(Config::cover_candidate(&args, &None).unwrap().to_string(), "book/img/front.png");
    let (cfg, warnings) = Config::try_from(&args, None, &missing).unwrap();
    assert!(cfg.cover_image.is_none());
    assert_eq!(warnings.len(), 1);
    assert_eq!(warnings[0].0, "the cover image does not exist and is left out: book/img/front.png");
    let (cfg, warnings) = Config::try_from(&args, None, &answers()).unwrap();
    assert_eq!(cfg.cover_image.unwrap().to_string(), "img/front.png");
    assert!(warnings.is_empty());
    // a saved cover image is looked for below the input
    let place = Config::cover_candidate(&arguments(), &Some(saved())).unwrap();
    assert_eq!(place.to_string(), "book/img/cover.png");
    let (cfg, warnings) = Config::try_from(&arguments(), Some(saved()), &missing).unwrap();
    assert!(cfg.cover_image.is_none());
    assert_eq!(warnings[0].0, "the cover image does not exist and is left out: book/img/cover.png");
    assert!(Config::cover_candidate(&arguments(), &None).is_none());
    // without a cover image nothing is missing
    let (_, warnings) = Config::try_from(&arguments(), None, &missing).unwrap();
    assert!(warnings.is_empty());
}

#[test]
fn a_depth_that_is_no_level_is_replaced_with_a_warning() {
    let mut args = arguments();
    args.toc_depth = Some(String::from("deep"));
    let (cfg, warnings) = Config::try_from(&args, Some(saved()), &answers()).unwrap();
    assert_eq!(cfg.toc_depth, 2);
    assert_eq!(warnings.len(), 1);
    assert_eq!(warnings[0].0, "not a level for the table of contents, 2 is taken: deep");
}

#[test]
fn the_configuration_is_saved_beside_a_file_and_in_a_directory() {
    let mut cfg = saved();
    cfg.target = FilePath::from_str("book/ch1.md");
    assert_eq!(cfg.saved_at(true).unwrap().to_string(), "book/repub_config.json");
    cfg.target = FilePath::from_str("book");
    assert_eq!(cfg.saved_at(false).unwrap().to_string(), "book/repub_config.json");
    assert_eq!(cfg.saved_at(true).unwrap().to_string(), "repub_config.json");
    cfg.config = false;
    assert!(cfg.saved_at(false).is_none());
}

#[test]
fn the_input_is_the_configuration_and_the_files_found() {
    let listing = Listing::Dir(
        FilePath::from_str("book"),
        vec![
            Listing::File(FilePath::from_str("book/b.md")),
            Listing::File(FilePath::from_str("book/a.css")),
        ],
    );
    let (input, warnings) = Input::try_from(&arguments(), None, &answers(), &listing).unwrap();
    assert!(warnings.is_empty());
    assert_eq!(input.cfg.title, "asked title");
    let names: Vec<String> = input.src.iter().map(|s| s.path.to_string()).collect();
    assert_eq!(names, vec!["book/a.css", "book/b.md"]);
    let data = InputData::from(input);
    assert_eq!(data.files.content_files.len(), 1);
    assert_eq!(data.files.style_files.len(), 1);
    assert!(data.files.static_files.is_empty());
    let mut args = arguments();
    args.input = None;
    assert!(matches!(Input::try_from(&args, None, &answers(), &listing), Err(ComposeError::MissingValue(_))));
    let broken = Listing::File(FilePath::from_str("book/.."));
    assert!(matches!(Input::try_from(&arguments(), None, &answers(), &broken), Err(ComposeError::NotAFile(_))));
}

/// Takes the input of a run from what the command line gives.
#[test]
fn app_to_input() {
    let listing = Listing::File(FilePath::from_str("README.md"));
    let mut args = arguments();
    args.input = Some(String::from("README.md"));
    let (input, _) = Input::try_from(&args, None, &answers(), &listing).unwrap();
    assert_eq!(input.src.len(), 1);
    assert_eq!(input.cfg.target.to_string(), "README.md");
}
