use repub::compose::{
    links_to, render_content_document, render_navigation_document, timestamp_ok, Composed,
    ComposedItem, Composer, Stage,
};
use repub::data::{Files, InputData};
use repub::error::ComposeError;
use repub::load::{Config, ContentConfigure, Source, WritingMode};
use repub::media_type::{ApplicationType, ImageType, MediaType, Properties};
use repub::path::FilePath;
use repub::tmpfile::StageAction;

fn source(text: &str) -> Source {
    let path = FilePath::from_str(text);
    Source::try_from(&path, true, true).unwrap()
}

fn config() -> Config {
    Config {
        target: FilePath::from_str("book"),
        writing_mode: WritingMode::HorizontalTb,
        title: String::from("A Book"),
        creator: String::from("Someone"),
        language: String::from("en"),
        book_id: String::from("id-1"),
        toc_depth: 2,
        verbose: false,
        save: false,
        config: false,
        cover_image: None,
        ignores: Vec::new(),
        sequence: None,
        contents: Vec::new(),
    }
}

fn composer(cfg: Config, files: &[&str]) -> Composer {
    let srcs: Vec<Source> = files.iter().map(|f| source(f)).collect();
    Composer::new(InputData { cfg, files: Files::from(srcs) })
}

fn texts_for(composer: &Composer, text: &str) -> Vec<Option<String>> {
    composer.content_queue().iter().map(|_| Some(String::from(text))).collect()
}

fn written(actions: &[StageAction], to: &str) -> String {
    for action in actions {
        if let StageAction::Write { to: path, text } = action {
            if path.to_string() == to {
                return text.clone();
            }
        }
    }
    panic!("nothing is written to {}", to)
}

fn block(document: &str, name: &str) -> String {
    let start = document.find(&format!("<{}", name)).unwrap();
    let end_tag = format!("</{}>", name);
    let end = document.find(&end_tag).unwrap() + end_tag.len();
    document[start..end].to_string()
}

const THREE: [&str; 3] = ["book/ch1.md", "book/ch2.md", "book/ch3.md"];

#[test]
fn a_file_is_registered_with_the_number_of_its_kind() {
    let src = source("book/img/a.png");
    let to = FilePath::from_str("repub_tmp/OEBPS/img/a.png");
    let item = ComposedItem::new(&src, &to, "static", 12).unwrap();
    assert_eq!(item.id, "static12");
    assert_eq!(item.media_type, MediaType::Image(ImageType::PNG));
    assert_eq!(item.path.to_string(), "repub_tmp/OEBPS/img/a.png");
    assert_eq!(item.src.as_ref().unwrap().file_name, "a.png");
    assert!(item.properties.is_empty());
    let made = ComposedItem::without_src(&FilePath::from_str("x/navigation.xhtml"), "navigation", 0)
        .unwrap();
    assert_eq!(made.id, "navigation0");
    assert!(made.src.is_none());
    assert_eq!(made.media_type, MediaType::Application(ApplicationType::XHTML));
    let copy = made.copy();
    assert_eq!(copy.id, "navigation0");
    assert!(!copy.is_nav());
}

#[test]
fn a_file_of_no_media_type_is_not_registered() {
    let src = source("book/notes.txt");
    let refused = ComposedItem::new(&src, &FilePath::from_str("t/notes.txt"), "static", 0);
    assert!(matches!(refused, Err(ComposeError::Unsupported(e)) if e == "txt"));
    let bare = ComposedItem::without_src(&FilePath::from_str("t/LICENSE"), "static", 0);
    assert!(matches!(bare, Err(ComposeError::NoExtension(p)) if p.to_string() == "t/LICENSE"));
}

#[test]
fn a_manifest_entry_names_identifier_place_type_and_properties() {
    let opf = FilePath::from_str("repub_tmp/OEBPS/package.opf");
    let mut item =
        ComposedItem::without_src(&FilePath::from_str("repub_tmp/OEBPS/img/c.jpg"), "static", 3)
            .unwrap();
    assert_eq!(
        item.as_manifest_item(&opf).unwrap(),
        "<item id=\"static3\" href=\"img/c.jpg\" media-type=\"image/jpeg\" />"
    );
    item.properties.push(Properties::CoverImage);
    assert_eq!(
        item.as_manifest_item(&opf).unwrap(),
        "<item id=\"static3\" href=\"img/c.jpg\" media-type=\"image/jpeg\" properties=\"cover-image\" />"
    );
    item.properties.push(Properties::Svg);
    assert_eq!(
        item.as_manifest_item(&opf).unwrap(),
        "<item id=\"static3\" href=\"img/c.jpg\" media-type=\"image/jpeg\" properties=\"cover-image svg\" />"
    );
    assert_eq!(item.as_spine_item(), "<itemref idref=\"static3\" />");
    let abs = FilePath::from_str("/OEBPS/package.opf");
    assert!(matches!(item.as_manifest_item(&abs), Err(ComposeError::Unrelated(_, _))));
}

#[test]
fn style_sheets_are_linked_from_where_the_document_lies() {
    let mut composed = Composed::new();
    assert_eq!(composed.styles_links(&FilePath::from_str("t/OEBPS/a.xhtml")).unwrap(), "");
    for (i, name) in ["t/OEBPS/css/a.css", "t/OEBPS/b.css"].iter().enumerate() {
        composed
            .style_items
            .push(ComposedItem::without_src(&FilePath::from_str(name), "css", i).unwrap());
    }
    assert_eq!(
        composed.styles_links(&FilePath::from_str("t/OEBPS/text/ch.xhtml")).unwrap(),
        "<link type=\"text/css\" rel=\"stylesheet\" href=\"../css/a.css\" />\n<link type=\"text/css\" rel=\"stylesheet\" href=\"../b.css\" />"
    );
    assert_eq!(
        links_to(&composed.style_items, &FilePath::from_str("t/OEBPS")).unwrap(),
        "<link type=\"text/css\" rel=\"stylesheet\" href=\"css/a.css\" />\n<link type=\"text/css\" rel=\"stylesheet\" href=\"b.css\" />"
    );
    let refused = composed.styles_links(&FilePath::from_str("/t/OEBPS/a.xhtml"));
    match refused {
        Err(ComposeError::Unrelated(from, to)) => {
            assert_eq!(from.to_string(), "/t/OEBPS/a.xhtml");
            assert_eq!(to.to_string(), "t/OEBPS/css/a.css");
        },
        other => panic!("{:?}", other),
    }
}

#[test]
fn the_frames_of_the_documents_are_fixed() {
    assert_eq!(
        render_content_document("<link />", "ch1.md", "<p>x</p>"),
        "<?xml version=\"1.0\" encoding=\"UTF-8\"?>\n<!DOCTYPE html>\n<html xmlns=\"http://www.w3.org/1999/xhtml\" xmlns:epub=\"http://www.idpf.org/2007/ops\">\n<head>\n<meta charset=\"UTF-8\" />\n<link />\n<title>ch1.md</title>\n</head>\n<body>\n<p>x</p>\n</body>\n</html>\n"
    );
    assert_eq!(
        render_navigation_document("T", "<link />", "<ol></ol>"),
        "<?xml version=\"1.0\" encoding=\"UTF-8\"?>\n<!DOCTYPE html>\n<html xmlns=\"http://www.w3.org/1999/xhtml\" xmlns:epub=\"http://www.idpf.org/2007/ops\">\n<head>\n<meta charset=\"UTF-8\" />\n<title>T</title>\n<link />\n</head>\n<body>\n<nav epub:type=\"toc\" id=\"toc\">\n<h1>T</h1>\n<ol></ol>\n</nav>\n</body>\n</html>\n"
    );
}

#[test]
fn ignored_files_are_not_taken() {
    let mut cfg = config();
    cfg.ignores = vec![FilePath::from_str("img/b.png"), FilePath::from_str("draft.css")];
    let srcs = vec![source("book/img/a.png"), source("book/img/b.png"), source("/elsewhere/c.png")];
    let kept = Composer::filter_ignored_source(&srcs, &cfg);
    let names: Vec<String> = kept.iter().map(|s| s.path.to_string()).collect();
    assert_eq!(names, vec!["book/img/a.png"]);
}

#[test]
fn the_steps_have_to_be_taken_in_their_order() {
    let mut c = composer(config(), &THREE);
    assert_eq!(c.stage, Stage::Init);
    assert!(matches!(c.compose_static(), Err(ComposeError::OutOfOrder)));
    assert!(matches!(c.compose_contents(&Vec::new()), Err(ComposeError::OutOfOrder)));
    assert!(matches!(c.compose_cover_image(), Err(ComposeError::OutOfOrder)));
    assert!(matches!(c.compose_nav(), Err(ComposeError::OutOfOrder)));
    assert!(matches!(c.compose_opf(), Err(ComposeError::OutOfOrder)));
    assert_eq!(c.stage, Stage::Init);
    c.compose_css().unwrap();
    assert_eq!(c.stage, Stage::StyleStaged);
    assert!(matches!(c.compose_css(), Err(ComposeError::OutOfOrder)));
    c.compose_static().unwrap();
    assert_eq!(c.stage, Stage::StaticStaged);
    let texts = texts_for(&c, "# t");
    c.compose_contents(&texts).unwrap();
    assert_eq!(c.stage, Stage::ContentStaged);
    // the cover image may be left out
    c.compose_nav().unwrap();
    assert_eq!(c.stage, Stage::NavigationRendered);
    c.compose_opf().unwrap();
    assert_eq!(c.stage, Stage::PackageRendered);
    assert_eq!(c.tmp_dir.oebps.package_opf.as_ref().unwrap().to_string(), "repub_tmp/OEBPS/package.opf");
}

#[test]
fn files_are_staged_below_the_content_directory() {
    let mut c = composer(
        config(),
        &["book/ch1.md", "book/style/main.css", "book/img/pic.png", "book/notes.txt"],
    );
    let css = c.compose_css().unwrap();
    assert_eq!(css.actions.len(), 1);
    match &css.actions[0] {
        StageAction::Copy { from, to } => {
            assert_eq!(from.to_string(), "book/style/main.css");
            assert_eq!(to.to_string(), "repub_tmp/OEBPS/style/main.css");
        },
        other => panic!("{:?}", other),
    }
    assert_eq!(css.logs[0].1, "style/main.css");
    assert_eq!(c.composed.style_items[0].id, "css0");
    let stat = c.compose_static().unwrap();
    assert_eq!(stat.actions.len(), 1);
    assert_eq!(c.composed.static_items.len(), 1);
    assert_eq!(c.composed.static_items[0].id, "static0");
    assert_eq!(c.composed.static_items[0].path.to_string(), "repub_tmp/OEBPS/img/pic.png");
    assert_eq!(stat.warnings.len(), 1);
    assert_eq!(stat.warnings[0].0, "book/notes.txt : unsupported extension: txt");
}

#[test]
fn three_documents_give_six_entries_in_two_levels() {
    let mut c = composer(config(), &THREE);
    let texts = texts_for(&c, "# Chapter\n\ntext\n\n## Section\n\nmore\n");
    let outcomes = c.compose(&texts).unwrap();
    assert_eq!(outcomes.len(), 6);
    let nav = written(&outcomes[4].actions, "repub_tmp/OEBPS/navigation.xhtml");
    assert_eq!(nav.matches("<li>").count(), 6);
    assert_eq!(nav.matches("<a href=\"").count(), 6);
    for (i, name) in ["ch1", "ch2", "ch3"].iter().enumerate() {
        assert!(nav.contains(&format!("<a href=\"{}.xhtml#header{}\">Chapter</a>", name, 2 * i)));
        assert!(nav.contains(&format!("<a href=\"{}.xhtml#header{}\">Section</a>", name, 2 * i + 1)));
    }
    // one list at the top, one below each chapter, none below the sections
    assert_eq!(nav.matches("<ol").count(), 4);
    assert_eq!(nav.matches("<ol hidden").count(), 0);
    let chapter = "<li>\n<a href=\"ch1.xhtml#header0\">Chapter</a>\n<ol>\n<li>\n<a href=\"ch1.xhtml#header1\">Section</a>\n\n</li>\n</ol>\n</li>";
    assert!(nav.contains(chapter));
    assert_eq!(c.toc.size(), 6);
}

#[test]
fn a_document_is_converted_and_framed() {
    let mut c = composer(config(), &["book/text/ch1.md", "book/css/a.css"]);
    let texts = texts_for(&c, "# One\nline ~~gone~~\nnext\n");
    let outcomes = c.compose(&texts).unwrap();
    let document = written(&outcomes[2].actions, "repub_tmp/OEBPS/text/ch1.xhtml");
    assert!(document.contains("<link type=\"text/css\" rel=\"stylesheet\" href=\"../css/a.css\" />"));
    assert!(document.contains("<title>ch1.md</title>"));
    assert!(document.contains("<h1 id=\"header0\">One</h1>"));
    assert!(document.contains("<p>line <del>gone</del><br />\nnext</p>"));
    assert_eq!(c.composed.contents[0].id, "contents0");
    assert_eq!(c.composed.contents[0].path.to_string(), "repub_tmp/OEBPS/text/ch1.xhtml");
    let logs: Vec<&str> = outcomes[2].logs.iter().map(|l| l.1.as_str()).collect();
    assert_eq!(logs, vec!["# One (ch1.xhtml)", "text/ch1.md"]);
}

#[test]
fn a_document_that_needs_no_conversion_is_copied() {
    let mut c = composer(config(), &["book/ready.xhtml"]);
    let texts = vec![None];
    let outcomes = c.compose(&texts).unwrap();
    match &outcomes[2].actions[0] {
        StageAction::Copy { from, to } => {
            assert_eq!(from.to_string(), "book/ready.xhtml");
            assert_eq!(to.to_string(), "repub_tmp/OEBPS/ready.xhtml");
        },
        other => panic!("{:?}", other),
    }
    assert_eq!(c.toc.size(), 0);
}

#[test]
fn a_document_without_its_text_stops_the_run() {
    let mut c = composer(config(), &THREE);
    let texts = vec![Some(String::from("# a")), None, Some(String::from("# c"))];
    match c.compose(&texts) {
        Err(ComposeError::NoText(path)) => assert_eq!(path.to_string(), "book/ch2.md"),
        other => panic!("{:?}", other.map(|o| o.len())),
    }
    let mut c = composer(config(), &THREE);
    assert!(matches!(c.compose(&Vec::new()), Err(ComposeError::NoText(_))));
}

#[test]
fn the_package_document_lists_everything_that_was_staged() {
    let mut c = composer(
        config(),
        &["book/ch1.md", "book/ch2.md", "book/style/main.css", "book/img/pic.png"],
    );
    let texts = texts_for(&c, "# T\n");
    let outcomes = c.compose(&texts).unwrap();
    let opf = written(&outcomes[5].actions, "repub_tmp/OEBPS/package.opf");
    let manifest = "<manifest>\n<item id=\"navigation0\" href=\"navigation.xhtml\" media-type=\"application/xhtml+xml\" properties=\"nav\" />\n<item id=\"contents0\" href=\"ch1.xhtml\" media-type=\"application/xhtml+xml\" />\n<item id=\"contents1\" href=\"ch2.xhtml\" media-type=\"application/xhtml+xml\" />\n<item id=\"css0\" href=\"style/main.css\" media-type=\"text/css\" />\n<item id=\"static0\" href=\"img/pic.png\" media-type=\"image/png\" />\n</manifest>";
    assert_eq!(block(&opf, "manifest"), manifest);
    assert_eq!(c.manifest_block().unwrap(), manifest);
    let spine = "<spine page-progression-direction=\"default\">\n<itemref idref=\"navigation0\" />\n<itemref idref=\"contents0\" />\n<itemref idref=\"contents1\" />\n</spine>";
    assert_eq!(block(&opf, "spine"), spine);
    assert_eq!(c.spine_block(), spine);
    assert!(opf.starts_with("<?xml version=\"1.0\" encoding=\"UTF-8\"?>\n<package xmlns=\"http://www.idpf.org/2007/opf\" version=\"3.0\" unique-identifier=\"BookId\">\n<metadata"));
    assert!(opf.ends_with("</spine>\n</package>\n"));
    assert!(opf.contains("<dc:title>A Book</dc:title>\n<dc:language>en</dc:language>\n<dc:creator>Someone</dc:creator>\n<dc:identifier id=\"BookId\">id-1</dc:identifier>"));
    assert_eq!(
        c.render_package("2020-01-02T03:04:05Z").unwrap(),
        format!("<?xml version=\"1.0\" encoding=\"UTF-8\"?>\n<package xmlns=\"http://www.idpf.org/2007/opf\" version=\"3.0\" unique-identifier=\"BookId\">\n{}\n{}\n{}\n</package>\n", c.metadata_block("2020-01-02T03:04:05Z"), manifest, spine)
    );
    assert_eq!(
        c.metadata_block("now"),
        "<metadata xmlns:dc=\"http://purl.org/dc/elements/1.1/\">\n<dc:title>A Book</dc:title>\n<dc:language>en</dc:language>\n<dc:creator>Someone</dc:creator>\n<dc:identifier id=\"BookId\">id-1</dc:identifier>\n<meta property=\"dcterms:modified\">now</meta>\n</metadata>"
    );
}

#[test]
fn the_time_of_the_last_change_is_universal_time_to_the_second() {
    let mut c = composer(config(), &["book/ch1.md"]);
    let texts = texts_for(&c, "# T\n");
    let outcomes = c.compose(&texts).unwrap();
    let opf = written(&outcomes[5].actions, "repub_tmp/OEBPS/package.opf");
    let open = "<meta property=\"dcterms:modified\">";
    let start = opf.find(open).unwrap() + open.len();
    let stamp: Vec<char> = opf[start..start + 20].chars().collect();
    for (i, c) in stamp.iter().enumerate() {
        match i {
            4 | 7 => assert_eq!(*c, '-'),
            10 => assert_eq!(*c, 'T'),
            13 | 16 => assert_eq!(*c, ':'),
            19 => assert_eq!(*c, 'Z'),
            _ => assert!(c.is_ascii_digit(), "{:?}", stamp),
        }
    }
    assert!(opf[start + 20..].starts_with("</meta>"));
}

#[test]
fn two_runs_give_the_same_manifest_and_reading_order() {
    let run = || {
        let mut c = composer(
            config(),
            &["book/b.md", "book/a.md", "book/s.css", "book/i.gif", "book/ready.xhtml"],
        );
        let texts = texts_for(&c, "# T\n\n### deep\n");
        let outcomes = c.compose(&texts).unwrap();
        let opf = written(&outcomes[5].actions, "repub_tmp/OEBPS/package.opf");
        (block(&opf, "manifest"), block(&opf, "spine"), c.manifest_block().unwrap(), c.spine_block())
    };
    let first = run();
    let second = run();
    assert_eq!(first, second);
    assert_eq!(first.0, first.2);
    assert_eq!(first.1, first.3);
}

#[test]
fn the_reading_order_is_the_order_of_staging_after_the_navigation_documents() {
    let names: Vec<String> = (0..12).map(|i| format!("book/c{:02}.xhtml", i)).collect();
    let refs: Vec<&str> = names.iter().map(|n| n.as_str()).collect();
    let mut cfg = config();
    cfg.writing_mode = WritingMode::VerticalRl;
    cfg.contents = vec![ContentConfigure {
        src: FilePath::from_str("c05.xhtml"),
        properties: vec![Properties::Nav],
        styles: Vec::new(),
    }];
    let mut c = composer(cfg, &refs);
    let texts: Vec<Option<String>> = refs.iter().map(|_| None).collect();
    c.compose(&texts).unwrap();
    assert!(c.composed.contents[5].is_nav());
    let spine = c.spine_block();
    let ids: Vec<&str> = spine
        .lines()
        .filter(|l| l.starts_with("<itemref"))
        .map(|l| &l[16..l.len() - 4])
        .collect();
    assert_eq!(
        ids,
        vec![
            "navigation0", "contents5", "contents0", "contents1", "contents2", "contents3",
            "contents4", "contents6", "contents7", "contents8", "contents9", "contents10",
            "contents11",
        ]
    );
    assert!(spine.starts_with("<spine page-progression-direction=\"rtl\">\n"));
    assert!(c.manifest_block().unwrap().contains(
        "<item id=\"contents5\" href=\"c05.xhtml\" media-type=\"application/xhtml+xml\" properties=\"nav\" />"
    ));
}

#[test]
fn the_configured_sequence_decides_which_documents_are_taken() {
    let mut cfg = config();
    cfg.sequence = Some(vec![
        FilePath::from_str("ch3.md"),
        FilePath::from_str("missing.md"),
        FilePath::from_str("ch1.md"),
    ]);
    let c = composer(cfg, &THREE);
    let queue: Vec<String> = c.content_queue().iter().map(|s| s.src.path.to_string()).collect();
    assert_eq!(queue, vec!["book/ch3.md", "book/ch1.md"]);
    let mut cfg = config();
    cfg.ignores = vec![FilePath::from_str("ch2.md")];
    let c = composer(cfg, &THREE);
    let queue: Vec<String> = c.content_queue().iter().map(|s| s.src.path.to_string()).collect();
    assert_eq!(queue, vec!["book/ch1.md", "book/ch3.md"]);
}

#[test]
fn a_document_links_to_the_style_sheets_that_are_named_for_it() {
    let mut cfg = config();
    cfg.contents = vec![ContentConfigure {
        src: FilePath::from_str("ch1.md"),
        properties: vec![Properties::Scripted, Properties::MathML],
        styles: vec![FilePath::from_str("b.css"), FilePath::from_str("none.css")],
    }];
    let mut c = composer(cfg, &["book/ch1.md", "book/ch2.md", "book/a.css", "book/b.css"]);
    let texts = texts_for(&c, "text\n");
    let outcomes = c.compose(&texts).unwrap();
    let first = written(&outcomes[2].actions, "repub_tmp/OEBPS/ch1.xhtml");
    assert!(first.contains("href=\"b.css\""));
    assert!(!first.contains("href=\"a.css\""));
    let second = written(&outcomes[2].actions, "repub_tmp/OEBPS/ch2.xhtml");
    assert!(second.contains("href=\"a.css\" />\n<link type=\"text/css\" rel=\"stylesheet\" href=\"b.css\""));
    assert_eq!(c.composed.contents[0].properties, vec![Properties::Scripted, Properties::MathML]);
    assert!(c.composed.contents[1].properties.is_empty());
}

#[test]
fn the_cover_image_is_staged_with_the_other_files() {
    let mut cfg = config();
    cfg.cover_image = Some(FilePath::from_str("img/cover.jpg"));
    let mut c = composer(cfg, &["book/ch1.md", "book/img/pic.png"]);
    let texts = texts_for(&c, "# T\n");
    let outcomes = c.compose(&texts).unwrap();
    assert_eq!(c.stage, Stage::PackageRendered);
    match &outcomes[3].actions[0] {
        StageAction::Copy { from, to } => {
            assert_eq!(from.to_string(), "book/img/cover.jpg");
            assert_eq!(to.to_string(), "repub_tmp/OEBPS/img/cover.jpg");
        },
        other => panic!("{:?}", other),
    }
    assert_eq!(outcomes[3].logs[0].1, "Cover Image (img/cover.jpg)");
    let cover = &c.composed.static_items[1];
    assert_eq!(cover.id, "static1");
    assert_eq!(cover.properties, vec![Properties::CoverImage]);
    assert!(c.manifest_block().unwrap().contains(
        "<item id=\"static1\" href=\"img/cover.jpg\" media-type=\"image/jpeg\" properties=\"cover-image\" />"
    ));
}

#[test]
fn a_cover_image_of_no_media_type_is_left_out_with_a_warning() {
    let mut cfg = config();
    cfg.cover_image = Some(FilePath::from_str("cover.bmp"));
    let mut c = composer(cfg, &["book/ch1.md"]);
    let texts = texts_for(&c, "# T\n");
    let outcomes = c.compose(&texts).unwrap();
    assert!(outcomes[3].actions.is_empty());
    assert_eq!(outcomes[3].warnings.len(), 1);
    assert_eq!(outcomes[3].warnings[0].0, "book/cover.bmp : unsupported extension: bmp");
    assert!(c.composed.static_items.is_empty());
    assert!(!c.manifest_block().unwrap().contains("cover"));
}

#[test]
fn the_navigation_document_holds_title_styles_and_list() {
    let mut c = composer(config(), &["book/ch1.md", "book/a.css"]);
    let texts = texts_for(&c, "# One \\<b\\>\n");
    let outcomes = c.compose(&texts).unwrap();
    let nav = written(&outcomes[4].actions, "repub_tmp/OEBPS/navigation.xhtml");
    let list = "<ol>\n<li>\n<a href=\"ch1.xhtml#header0\">One &lt;b&gt;</a>\n\n</li>\n</ol>";
    assert_eq!(
        nav,
        render_navigation_document(
            "\u{76EE}\u{6B21}",
            "<link type=\"text/css\" rel=\"stylesheet\" href=\"a.css\" />",
            list
        )
    );
    assert_eq!(outcomes[4].logs[0].1, "OEBPS/navigation.xhtml");
    let item = c.navigation.as_ref().unwrap();
    assert_eq!(item.id, "navigation0");
    assert_eq!(item.properties, vec![Properties::Nav]);
    assert_eq!(outcomes[5].logs[0].1, "OEBPS/package.opf");
}

#[test]
fn a_time_has_the_form_of_the_package_document() {
    assert!(timestamp_ok("2020-01-02T03:04:05Z"));
    assert!(timestamp_ok("0000-00-00T00:00:00Z"));
    for wrong in [
        "",
        "2020-01-02T03:04:05",
        "2020-01-02T03:04:05ZZ",
        "2020-01-02 03:04:05Z",
        "2020/01/02T03:04:05Z",
        "2020-01-02T03.04.05Z",
        "20200-1-02T03:04:05Z",
        "2020-01-02T03:04:05z",
        "+2020-01-02T03:04:0Z",
        "2020-01-02T03:04:0\u{663}Z",
    ] {
        assert!(!timestamp_ok(wrong), "{}", wrong);
    }
}

#[test]
fn the_package_document_is_rendered_for_a_given_time() {
    let mut c = composer(config(), &["book/ch1.md"]);
    c.compose_css().unwrap();
    c.compose_static().unwrap();
    let texts = texts_for(&c, "# T\n");
    c.compose_contents(&texts).unwrap();
    c.compose_nav().unwrap();
    match c.compose_opf_at("yesterday") {
        Err(ComposeError::NotATime(stamp)) => assert_eq!(stamp, "yesterday"),
        other => panic!("{:?}", other.map(|o| o.actions.len())),
    }
    assert_eq!(c.stage, Stage::NavigationRendered);
    assert!(c.tmp_dir.oebps.package_opf.is_none());
    let expected = c.render_package("2020-01-02T03:04:05Z").unwrap();
    let outcome = c.compose_opf_at("2020-01-02T03:04:05Z").unwrap();
    assert_eq!(written(&outcome.actions, "repub_tmp/OEBPS/package.opf"), expected);
    assert!(expected.contains("<meta property=\"dcterms:modified\">2020-01-02T03:04:05Z</meta>"));
    assert_eq!(c.stage, Stage::PackageRendered);
    assert!(matches!(c.compose_opf_at("2020-01-02T03:04:05Z"), Err(ComposeError::OutOfOrder)));
}
