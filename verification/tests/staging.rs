use repub::archive::{archive_plan, plan_listing, ArchiveEntry, Compression};
use repub::compose::{Composer, Stage};
use repub::data::{Files, InputData};
use repub::error::ComposeError;
use repub::listing::Listing;
use repub::load::{Config, Source, WritingMode};
use repub::message::{pad, Message, RepubError, RepubLog, RepubLogStatus, RepubWarning, CONFIG_JSON};
use repub::order::{comes_before, sort_positions};
use repub::path::FilePath;
use repub::text::{
    chars_of, escape_angles, join, push_decimal, remove_char, replace_first, split, starts_with,
    str_eq, string_of, string_of_range,
};
use repub::tmpfile::{MetaInf, Mimetype, StageAction, TmpDir, OEBPS};

fn file(path: &str) -> Listing {
    Listing::File(FilePath::from_str(path))
}

fn dir(path: &str, entries: Vec<Listing>) -> Listing {
    Listing::Dir(FilePath::from_str(path), entries)
}

fn describe(entry: &ArchiveEntry) -> String {
    match entry {
        ArchiveEntry::File { name, from, method } => {
            format!("file {} from {} {:?}", name, from.to_string(), method)
        },
        ArchiveEntry::Directory { name } => format!("dir {}", name),
    }
}

#[test]
fn texts_are_ordered_by_their_characters() {
    assert!(comes_before("a", "b"));
    assert!(!comes_before("b", "a"));
    assert!(!comes_before("a", "a"));
    assert!(comes_before("", "a"));
    assert!(!comes_before("a", ""));
    assert!(!comes_before("", ""));
    assert!(comes_before("a", "ab"));
    assert!(comes_before("contents10", "contents2"));
    assert!(comes_before("Z", "a"));
    assert!(comes_before("a.md", "a/b"));
    assert!(comes_before("z", "\u{e9}"));
}

#[test]
fn sorting_keeps_equal_keys_in_their_order() {
    let keys: Vec<String> = ["b", "a", "c", "a", "", "b"].iter().map(|k| k.to_string()).collect();
    assert_eq!(sort_positions(&keys), vec![4, 1, 3, 0, 5, 2]);
    assert_eq!(sort_positions(&Vec::new()), Vec::<usize>::new());
    let ids: Vec<String> = (0..12).map(|i| format!("contents{}", i)).collect();
    assert_eq!(sort_positions(&ids), vec![0, 1, 10, 11, 2, 3, 4, 5, 6, 7, 8, 9]);
}

#[test]
fn the_files_of_a_directory_are_taken_by_name_level_by_level() {
    let listing = dir(
        "book",
        vec![
            file("book/z.md"),
            dir("book/img", vec![file("book/img/b.png"), file("book/img/a.png")]),
            file("book/a.md"),
            dir("book/empty", vec![]),
            file("book/Style.css"),
        ],
    );
    let sources = Source::try_from_path_buf(&listing).unwrap();
    let names: Vec<String> = sources.iter().map(|s| s.path.to_string()).collect();
    assert_eq!(
        names,
        vec!["book/Style.css", "book/a.md", "book/img/a.png", "book/img/b.png", "book/z.md"]
    );
    let single = Source::try_from_path_buf(&file("ch1.md")).unwrap();
    assert_eq!(single.len(), 1);
    assert_eq!(single[0].file_name, "ch1.md");
    assert_eq!(file("a/b").path().to_string(), "a/b");
    let broken = dir("book", vec![file("book/a.md"), file("book/..")]);
    assert!(matches!(Source::try_from_path_buf(&broken), Err(ComposeError::NotAFile(p)) if p.to_string() == "book/.."));
}

#[test]
fn the_staging_tree_has_its_fixed_places_and_files() {
    let tmp = TmpDir::new();
    assert_eq!(tmp.path.to_string(), "repub_tmp");
    assert_eq!(tmp.meta_inf.0.to_string(), "repub_tmp/META-INF");
    assert_eq!(tmp.oebps.path.to_string(), "repub_tmp/OEBPS");
    assert!(tmp.oebps.package_opf.is_none());
    assert_eq!(tmp.mimetype.0.to_string(), "repub_tmp/mimetype");
    let other = TmpDir::at(FilePath::from_str("/var/stage"));
    assert_eq!(other.mimetype.0.to_string(), "/var/stage/mimetype");
    assert_eq!(MetaInf::new(&FilePath::from_str("t")).container_xml().to_string(), "t/META-INF/container.xml");
    assert_eq!(OEBPS::new(&FilePath::from_str("t")).path.to_string(), "t/OEBPS");
    assert_eq!(Mimetype::new(&FilePath::from_str("t")).0.to_string(), "t/mimetype");
    let setup: Vec<String> = tmp
        .setup()
        .iter()
        .map(|a| match a {
            StageAction::CreateDir(p) => format!("dir {}", p.to_string()),
            StageAction::Write { to, text } => format!("write {} {}", to.to_string(), text.len()),
            StageAction::Copy { .. } => String::from("copy"),
        })
        .collect();
    assert_eq!(
        setup,
        vec![
            String::from("dir repub_tmp"),
            String::from("dir repub_tmp/META-INF"),
            format!("write repub_tmp/META-INF/container.xml {}", repub::tmpfile::CONTAINER_XML_TEXT.len()),
            String::from("dir repub_tmp/OEBPS"),
            String::from("write repub_tmp/mimetype 20"),
        ]
    );
    assert_eq!(repub::tmpfile::MIMETYPE_TEXT, "application/epub+zip");
    assert!(repub::tmpfile::CONTAINER_XML_TEXT.contains("full-path=\"OEBPS/package.opf\""));
    assert_eq!(CONFIG_JSON, "repub_config.json");
}

#[test]
fn the_archive_starts_with_the_format_and_takes_files_before_directories() {
    let tmp = TmpDir::new();
    let meta = dir("repub_tmp/META-INF", vec![file("repub_tmp/META-INF/container.xml")]);
    let oebps = dir(
        "repub_tmp/OEBPS",
        vec![
            dir("repub_tmp/OEBPS/img", vec![file("repub_tmp/OEBPS/img/a.png")]),
            file("repub_tmp/OEBPS/package.opf"),
            dir("repub_tmp/OEBPS/empty", vec![]),
            file("repub_tmp/OEBPS/ch1.xhtml"),
        ],
    );
    let plan: Vec<String> = archive_plan(&tmp, &meta, &oebps).unwrap().iter().map(describe).collect();
    assert_eq!(
        plan,
        vec![
            "file mimetype from repub_tmp/mimetype Stored",
            "dir META-INF",
            "file META-INF/container.xml from repub_tmp/META-INF/container.xml Deflated",
            "dir OEBPS",
            "file OEBPS/package.opf from repub_tmp/OEBPS/package.opf Deflated",
            "file OEBPS/ch1.xhtml from repub_tmp/OEBPS/ch1.xhtml Deflated",
            "dir OEBPS/img",
            "file OEBPS/img/a.png from repub_tmp/OEBPS/img/a.png Deflated",
            "dir OEBPS/empty",
        ]
    );
    let outside = dir("/elsewhere", vec![]);
    assert!(matches!(archive_plan(&tmp, &meta, &outside), Err(ComposeError::Unrelated(from, _)) if from.to_string() == "repub_tmp"));
    let mut entries = Vec::new();
    plan_listing(&mut entries, &FilePath::from_str("t"), &file("t/a/b.css")).unwrap();
    assert_eq!(describe(&entries[0]), "file a/b.css from t/a/b.css Deflated");
    assert_ne!(Compression::Stored, Compression::Deflated);
}

fn composer(save: bool, config: bool) -> Composer {
    let cfg = Config {
        target: FilePath::from_str("book"),
        writing_mode: WritingMode::HorizontalTb,
        title: String::from("My Book"),
        creator: String::new(),
        language: String::new(),
        book_id: String::new(),
        toc_depth: 2,
        verbose: false,
        save,
        config,
        cover_image: None,
        ignores: Vec::new(),
        sequence: None,
        contents: Vec::new(),
    };
    Composer::new(InputData { cfg, files: Files::from(Vec::new()) })
}

#[test]
fn the_archive_is_planned_once_the_package_is_rendered() {
    let mut c = composer(false, false);
    let meta = dir("repub_tmp/META-INF", vec![]);
    let oebps = dir("repub_tmp/OEBPS", vec![]);
    assert!(matches!(c.zip(&meta, &oebps), Err(ComposeError::OutOfOrder)));
    c.compose(&Vec::new()).unwrap();
    let archive = c.zip(&meta, &oebps).unwrap();
    assert_eq!(c.stage, Stage::Archived);
    assert_eq!(archive.path.to_string(), "My Book.epub");
    assert_eq!(archive.entries.len(), 3);
    assert_eq!(archive.log.0, RepubLogStatus::Published);
    assert_eq!(archive.log.1, "My Book.epub");
    assert!(matches!(c.zip(&meta, &oebps), Err(ComposeError::OutOfOrder)));
}

#[test]
fn the_end_of_a_run_removes_the_tree_and_saves_the_configuration() {
    let done = composer(false, true).teardown(false);
    assert_eq!(done.remove.unwrap().to_string(), "repub_tmp");
    assert_eq!(done.save_config.unwrap().to_string(), "book/repub_config.json");
    let logs: Vec<String> = done.logs.iter().map(|l| l.to_string()).collect();
    assert_eq!(
        logs,
        vec![
            "\u{1F5D1}Removed  \t Temporary files: repub_tmp",
            "\u{1F528}Config   \t Saved to book/repub_config.json"
        ]
    );
    let kept = composer(true, false).teardown(true);
    assert!(kept.remove.is_none());
    assert!(kept.save_config.is_none());
    assert!(kept.logs.is_empty());
}

#[test]
fn messages_are_written_with_their_labels() {
    assert_eq!(RepubError::from("This is err!").to_string(), "[Error]\t This is err!");
    assert_eq!(RepubError::from("x").as_ref(), "x");
    assert_eq!(RepubWarning::from("careful").to_string(), "[Warning]\t careful");
    assert_eq!(RepubWarning::from("y").as_ref(), "y");
    let logs = [
        (RepubLog::ignored("i"), RepubLogStatus::Ignored, "\u{1F648}Ignored", 0x9e9e9e_u64, false),
        (RepubLog::packed("p"), RepubLogStatus::Packed, "\u{1F4E6}Packed", 0x4caf50, false),
        (RepubLog::converted("c"), RepubLogStatus::Converted, "\u{1F4DC}Converted", 0x8bc34a, false),
        (RepubLog::indexed("x"), RepubLogStatus::Indexed, "\u{1F3F7}Indexed", 0x009688, false),
        (RepubLog::zipped("z"), RepubLogStatus::Zipped, "\u{1F5C4}Zipped", 0x827717, false),
        (RepubLog::published("d"), RepubLogStatus::Published, "\u{1F4DA}Published", 0x03a9f4, true),
        (RepubLog::removed("r"), RepubLogStatus::Removed, "\u{1F5D1}Removed", 0x3f51b5, false),
        (RepubLog::config("g"), RepubLogStatus::Config, "\u{1F528}Config", 0x9c27b0, true),
    ];
    for (log, status, label, color, shown) in logs {
        assert_eq!(log.0, status);
        assert_eq!(log.0.label(), label);
        assert_eq!(log.0.color(), color);
        assert_eq!(log.always_shown(), shown);
        assert_eq!(log.1.chars().count(), 1);
    }
    assert_eq!(RepubLog::packed("a/b.css").to_string(), "\u{1F4E6}Packed   \t a/b.css");
    assert_eq!(RepubLogStatus::Published.to_string(), "\u{1F4DA}Published\t");
    assert_eq!(RepubLogStatus::Converted.to_string(), "\u{1F4DC}Converted\t");
    let custom = RepubLog::custom(0x123456, "label", "text");
    assert_eq!(custom.0, RepubLogStatus::Custom(0x123456, String::from("label")));
    assert_eq!(custom.0.color(), 0x123456);
    assert_eq!(custom.to_string(), "label     \t text");
    assert!(!custom.always_shown());
    assert_eq!(pad("abc", 5), "abc  ");
    assert_eq!(pad("abcde", 5), "abcde");
    assert_eq!(pad("abcdef", 5), "abcdef");
    assert_eq!(pad("", 0), "");
    assert_eq!(pad("\u{e9}", 3), "\u{e9}  ");
}

#[test]
fn the_text_helpers_do_what_they_say() {
    assert_eq!(chars_of("a\u{e9}b"), vec!['a', '\u{e9}', 'b']);
    assert_eq!(string_of(&vec!['x', 'y']), "xy");
    assert_eq!(string_of_range(&vec!['a', 'b', 'c', 'd'], 1, 3), "bc");
    assert!(str_eq("abc", "abc") && !str_eq("abc", "abd") && !str_eq("ab", "abc"));
    let mut text = String::from("n=");
    push_decimal(&mut text, 0);
    push_decimal(&mut text, 9);
    push_decimal(&mut text, 10);
    push_decimal(&mut text, 1234567890);
    assert_eq!(text, "n=09101234567890");
    let parts: Vec<String> = ["a", "", "b"].iter().map(|s| s.to_string()).collect();
    assert_eq!(join(&parts, ", "), "a, , b");
    assert_eq!(join(&Vec::new(), ", "), "");
    assert_eq!(split("a<b<<c", '<'), vec!["a", "b", "", "c"]);
    assert_eq!(split("", '<'), vec![""]);
    assert_eq!(split("<", '<'), vec!["", ""]);
    assert!(starts_with("image", "im") && starts_with("im", "im") && starts_with("x", ""));
    assert!(!starts_with("i", "im") && !starts_with("xim", "im"));
    assert_eq!(replace_first("a>b>c", '>', " />"), "a />b>c");
    assert_eq!(replace_first("abc", '>', " />"), "abc");
    assert_eq!(replace_first(">", '>', ""), "");
    assert_eq!(escape_angles("a<b>c&"), "a&lt;b&gt;c&");
    assert_eq!(remove_char("\"a\"b\"", '"'), "ab");
}
