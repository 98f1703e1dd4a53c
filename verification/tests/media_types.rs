use repub::error::ComposeError;
use repub::media_type::{ApplicationType, AudioType, ImageType, MediaType, Properties, TextType};
use repub::path::FilePath;

#[test]
fn every_supported_extension_has_its_media_type() {
    let table = [
        ("gif", MediaType::Image(ImageType::GIF), "image/gif"),
        ("jpeg", MediaType::Image(ImageType::JPEG), "image/jpeg"),
        ("jpg", MediaType::Image(ImageType::JPEG), "image/jpeg"),
        ("jpe", MediaType::Image(ImageType::JPEG), "image/jpeg"),
        ("png", MediaType::Image(ImageType::PNG), "image/png"),
        ("svg", MediaType::Image(ImageType::SVG), "image/svg+xml"),
        ("svgz", MediaType::Image(ImageType::SVG), "image/svg+xml"),
        ("xhtml", MediaType::Application(ApplicationType::XHTML), "application/xhtml+xml"),
        ("xht", MediaType::Application(ApplicationType::XHTML), "application/xhtml+xml"),
        ("otf", MediaType::Application(ApplicationType::OpenType), "application/vnd.ms-opentype"),
        ("otc", MediaType::Application(ApplicationType::OpenType), "application/vnd.ms-opentype"),
        ("ttf", MediaType::Application(ApplicationType::OpenType), "application/vnd.ms-opentype"),
        ("ttc", MediaType::Application(ApplicationType::OpenType), "application/vnd.ms-opentype"),
        ("woff", MediaType::Application(ApplicationType::WOFF), "application/font-woff"),
        ("woff2", MediaType::Application(ApplicationType::WOFF), "application/font-woff"),
        ("smil", MediaType::Application(ApplicationType::MediaOverlays), "application/smil+xml"),
        ("pls", MediaType::Application(ApplicationType::PLS), "application/pls+xml"),
        ("mp3", MediaType::Audio(AudioType::MPEG), "audio/mpeg"),
        ("aac", MediaType::Audio(AudioType::MP4), "audio/mp4"),
        ("mp4", MediaType::Audio(AudioType::MP4), "audio/mp4"),
        ("css", MediaType::Text(TextType::CSS), "text/css"),
        ("js", MediaType::Text(TextType::JS), "text/javascript"),
    ];
    for (ext, media_type, text) in table {
        let found = MediaType::from_str(ext).unwrap();
        assert_eq!(found, media_type, "{}", ext);
        assert_eq!(found.to_string(), text);
    }
}

#[test]
fn an_extension_outside_the_table_is_unsupported() {
    for ext in ["txt", "md", "GIF", "Png", "", "jpeg ", "html", "mp"] {
        match MediaType::from_str(ext) {
            Err(ComposeError::Unsupported(named)) => assert_eq!(named, ext),
            other => panic!("{:?} for {:?}", other, ext),
        }
    }
}

#[test]
fn each_family_knows_only_its_own_extensions() {
    assert_eq!(ImageType::from_str("png").unwrap(), ImageType::PNG);
    assert!(matches!(ImageType::from_str("css"), Err(ComposeError::Unsupported(_))));
    assert_eq!(ApplicationType::from_str("ttf").unwrap(), ApplicationType::OpenType);
    assert!(matches!(ApplicationType::from_str("png"), Err(ComposeError::Unsupported(_))));
    assert_eq!(AudioType::from_str("mp3").unwrap(), AudioType::MPEG);
    assert!(matches!(AudioType::from_str("js"), Err(ComposeError::Unsupported(_))));
    assert_eq!(TextType::from_str("js").unwrap(), TextType::JS);
    assert!(matches!(TextType::from_str("mp3"), Err(ComposeError::Unsupported(_))));
    assert_eq!(ImageType::SVG.to_string(), "svg+xml");
    assert_eq!(ApplicationType::PLS.to_string(), "pls+xml");
    assert_eq!(AudioType::MP4.to_string(), "mp4");
    assert_eq!(TextType::CSS.to_string(), "css");
}

#[test]
fn a_path_is_classified_by_its_extension() {
    let image = FilePath::from_str("OEBPS/img/cover.png");
    assert_eq!(MediaType::try_from(&image).unwrap(), MediaType::Image(ImageType::PNG));
    let text = FilePath::from_str("OEBPS/notes.txt");
    assert!(matches!(MediaType::try_from(&text), Err(ComposeError::Unsupported(e)) if e == "txt"));
    let bare = FilePath::from_str("OEBPS/README");
    match MediaType::try_from(&bare) {
        Err(ComposeError::NoExtension(p)) => assert_eq!(p.to_string(), "OEBPS/README"),
        other => panic!("{:?}", other),
    }
}

#[test]
fn the_default_media_type_is_that_of_a_content_document() {
    assert_eq!(MediaType::default(), MediaType::Application(ApplicationType::XHTML));
}

#[test]
fn each_property_has_its_name() {
    let names = [
        (Properties::CoverImage, "cover-image"),
        (Properties::MathML, "mathml"),
        (Properties::Nav, "nav"),
        (Properties::RemoteResources, "remote-resources"),
        (Properties::Scripted, "scripted"),
        (Properties::Svg, "svg"),
        (Properties::Switch, "switch"),
    ];
    for (property, name) in names {
        assert_eq!(property.to_string(), name);
        assert_eq!(property.is_nav(), name == "nav");
    }
}
