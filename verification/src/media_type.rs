//! The media types that a package may hold, told by file extension, and the
//! properties that a packaged file may carry.

use crate::error::ComposeError;
use crate::path::{extension_of, FilePath};
use crate::text::str_eq;
use vstd::prelude::*;

verus! {

/// The image formats.
#[derive(Clone, Copy, PartialEq, Eq, Debug)]
pub enum ImageType {
    GIF,
    JPEG,
    PNG,
    SVG,
}

/// The application formats.
#[derive(Clone, Copy, PartialEq, Eq, Debug)]
pub enum ApplicationType {
    /// Content documents and the navigation document.
    XHTML,
    /// OpenType fonts.
    OpenType,
    /// WOFF fonts.
    WOFF,
    /// Media overlay documents.
    MediaOverlays,
    /// Pronunciation lexicons for text-to-speech.
    PLS,
}

/// The audio formats.
#[derive(Clone, Copy, PartialEq, Eq, Debug)]
pub enum AudioType {
    /// MP3 audio.
    MPEG,
    /// AAC LC audio in an MP4 container.
    MP4,
}

/// The text formats.
#[derive(Clone, Copy, PartialEq, Eq, Debug)]
pub enum TextType {
    CSS,
    JS,
}

/// A media type: one of four families, each with its formats.
#[derive(Clone, Copy, PartialEq, Eq, Debug)]
pub enum MediaType {
    Image(ImageType),
    Application(ApplicationType),
    Audio(AudioType),
    Text(TextType),
}

/// The image format that an extension stands for.
pub open spec fn image_type_of(ext: Seq<char>) -> Option<ImageType> {
    if ext == "gif"@ {
        Some(ImageType::GIF)
    } else if ext == "jpeg"@ || ext == "jpg"@ || ext == "jpe"@ {
        Some(ImageType::JPEG)
    } else if ext == "png"@ {
        Some(ImageType::PNG)
    } else if ext == "svg"@ || ext == "svgz"@ {
        Some(ImageType::SVG)
    } else {
        None
    }
}

/// The application format that an extension stands for.
pub open spec fn application_type_of(ext: Seq<char>) -> Option<ApplicationType> {
    if ext == "xhtml"@ || ext == "xht"@ {
        Some(ApplicationType::XHTML)
    } else if ext == "otf"@ || ext == "otc"@ || ext == "ttf"@ || ext == "ttc"@ {
        Some(ApplicationType::OpenType)
    } else if ext == "woff"@ || ext == "woff2"@ {
        Some(ApplicationType::WOFF)
    } else if ext == "smil"@ {
        Some(ApplicationType::MediaOverlays)
    } else if ext == "pls"@ {
        Some(ApplicationType::PLS)
    } else {
        None
    }
}

/// The audio format that an extension stands for.
pub open spec fn audio_type_of(ext: Seq<char>) -> Option<AudioType> {
    if ext == "mp3"@ {
        Some(AudioType::MPEG)
    } else if ext == "aac"@ || ext == "mp4"@ {
        Some(AudioType::MP4)
    } else {
        None
    }
}

/// The text format that an extension stands for.
pub open spec fn text_type_of(ext: Seq<char>) -> Option<TextType> {
    if ext == "css"@ {
        Some(TextType::CSS)
    } else if ext == "js"@ {
        Some(TextType::JS)
    } else {
        None
    }
}

/// The media type that an extension stands for: the table of supported
/// extensions. The match is exact and tells upper from lower case.
pub open spec fn classify(ext: Seq<char>) -> Option<MediaType> {
    if image_type_of(ext) is Some {
        Some(MediaType::Image(image_type_of(ext)->0))
    } else if application_type_of(ext) is Some {
        Some(MediaType::Application(application_type_of(ext)->0))
    } else if audio_type_of(ext) is Some {
        Some(MediaType::Audio(audio_type_of(ext)->0))
    } else if text_type_of(ext) is Some {
        Some(MediaType::Text(text_type_of(ext)->0))
    } else {
        None
    }
}

/// What a classification returns for `ext`, where `found` is what the table
/// holds for it: the entry, or the refusal that names the extension.
pub open spec fn classified<T>(found: Option<T>, ext: Seq<char>, result: Result<T, ComposeError>) -> bool {
    match result {
        Ok(t) => found == Some(t),
        Err(e) => found is None && (e matches ComposeError::Unsupported(x) && x@ == ext),
    }
}

impl ImageType {
    /// The image format that the extension `s` stands for.
    pub fn from_str(s: &str) -> (result: Result<ImageType, ComposeError>)
        ensures
            classified(image_type_of(s@), s@, result),
    {
        if str_eq(s, "gif") {
            Ok(ImageType::GIF)
        } else if str_eq(s, "jpeg") || str_eq(s, "jpg") || str_eq(s, "jpe") {
            Ok(ImageType::JPEG)
        } else if str_eq(s, "png") {
            Ok(ImageType::PNG)
        } else if str_eq(s, "svg") || str_eq(s, "svgz") {
            Ok(ImageType::SVG)
        } else {
            Err(ComposeError::Unsupported(String::from_str(s)))
        }
    }

    /// The subtype as it is written in a media type.
    pub open spec fn text(&self) -> Seq<char> {
        match self {
            ImageType::GIF => "gif"@,
            ImageType::JPEG => "jpeg"@,
            ImageType::PNG => "png"@,
            ImageType::SVG => "svg+xml"@,
        }
    }

    /// The subtype as it is written in a media type.
    pub fn to_string(&self) -> (out: String)
        ensures
            out@ == self.text(),
    {
        match self {
            ImageType::GIF => String::from_str("gif"),
            ImageType::JPEG => String::from_str("jpeg"),
            ImageType::PNG => String::from_str("png"),
            ImageType::SVG => String::from_str("svg+xml"),
        }
    }
}

impl ApplicationType {
    /// The application format that the extension `s` stands for.
    pub fn from_str(s: &str) -> (result: Result<ApplicationType, ComposeError>)
        ensures
            classified(application_type_of(s@), s@, result),
    {
        if str_eq(s, "xhtml") || str_eq(s, "xht") {
            Ok(ApplicationType::XHTML)
        } else if str_eq(s, "otf") || str_eq(s, "otc") || str_eq(s, "ttf") || str_eq(s, "ttc") {
            Ok(ApplicationType::OpenType)
        } else if str_eq(s, "woff") || str_eq(s, "woff2") {
            Ok(ApplicationType::WOFF)
        } else if str_eq(s, "smil") {
            Ok(ApplicationType::MediaOverlays)
        } else if str_eq(s, "pls") {
            Ok(ApplicationType::PLS)
        } else {
            Err(ComposeError::Unsupported(String::from_str(s)))
        }
    }

    /// The subtype as it is written in a media type.
    pub open spec fn text(&self) -> Seq<char> {
        match self {
            ApplicationType::XHTML => "xhtml+xml"@,
            ApplicationType::OpenType => "vnd.ms-opentype"@,
            ApplicationType::WOFF => "font-woff"@,
            ApplicationType::MediaOverlays => "smil+xml"@,
            ApplicationType::PLS => "pls+xml"@,
        }
    }

    /// The subtype as it is written in a media type.
    pub fn to_string(&self) -> (out: String)
        ensures
            out@ == self.text(),
    {
        match self {
            ApplicationType::XHTML => String::from_str("xhtml+xml"),
            ApplicationType::OpenType => String::from_str("vnd.ms-opentype"),
            ApplicationType::WOFF => String::from_str("font-woff"),
            ApplicationType::MediaOverlays => String::from_str("smil+xml"),
            ApplicationType::PLS => String::from_str("pls+xml"),
        }
    }
}

impl AudioType {
    /// The audio format that the extension `s` stands for.
    pub fn from_str(s: &str) -> (result: Result<AudioType, ComposeError>)
        ensures
            classified(audio_type_of(s@), s@, result),
    {
        if str_eq(s, "mp3") {
            Ok(AudioType::MPEG)
        } else if str_eq(s, "aac") || str_eq(s, "mp4") {
            Ok(AudioType::MP4)
        } else {
            Err(ComposeError::Unsupported(String::from_str(s)))
        }
    }

    /// The subtype as it is written in a media type.
    pub open spec fn text(&self) -> Seq<char> {
        match self {
            AudioType::MPEG => "mpeg"@,
            AudioType::MP4 => "mp4"@,
        }
    }

    /// The subtype as it is written in a media type.
    pub fn to_string(&self) -> (out: String)
        ensures
            out@ == self.text(),
    {
        match self {
            AudioType::MPEG => String::from_str("mpeg"),
            AudioType::MP4 => String::from_str("mp4"),
        }
    }
}

impl TextType {
    /// The text format that the extension `s` stands for.
    pub fn from_str(s: &str) -> (result: Result<TextType, ComposeError>)
        ensures
            classified(text_type_of(s@), s@, result),
    {
        if str_eq(s, "css") {
            Ok(TextType::CSS)
        } else if str_eq(s, "js") {
            Ok(TextType::JS)
        } else {
            Err(ComposeError::Unsupported(String::from_str(s)))
        }
    }

    /// The subtype as it is written in a media type.
    pub open spec fn text(&self) -> Seq<char> {
        match self {
            TextType::CSS => "css"@,
            TextType::JS => "javascript"@,
        }
    }

    /// The subtype as it is written in a media type.
    pub fn to_string(&self) -> (out: String)
        ensures
            out@ == self.text(),
    {
        match self {
            TextType::CSS => String::from_str("css"),
            TextType::JS => String::from_str("javascript"),
        }
    }
}

impl Default for MediaType {
    fn default() -> (m: MediaType)
        ensures
            m == MediaType::Application(ApplicationType::XHTML),
    {
        MediaType::Application(ApplicationType::XHTML)
    }
}

/// What classifying a path returns: the media type of its extension, the
/// refusal of an extension that the table lacks, or the refusal of a path
/// that has no extension.
pub open spec fn classified_path(path: Seq<Seq<char>>, result: Result<MediaType, ComposeError>) -> bool {
    match extension_of(path) {
        Some(ext) => classified(classify(ext), ext, result),
        None => (result matches Err(ComposeError::NoExtension(p)) && p@ == path),
    }
}

impl MediaType {
    /// The media type that the extension `s` stands for.
    pub fn from_str(s: &str) -> (result: Result<MediaType, ComposeError>)
        ensures
            classified(classify(s@), s@, result),
    {
        match ImageType::from_str(s) {
            Ok(t) => {
                return Ok(MediaType::Image(t));
            },
            Err(_) => {},
        }
        match ApplicationType::from_str(s) {
            Ok(t) => {
                return Ok(MediaType::Application(t));
            },
            Err(_) => {},
        }
        match AudioType::from_str(s) {
            Ok(t) => {
                return Ok(MediaType::Audio(t));
            },
            Err(_) => {},
        }
        match TextType::from_str(s) {
            Ok(t) => Ok(MediaType::Text(t)),
            Err(e) => Err(e),
        }
    }

    /// The media type of the file at `path`, told by its extension.
    pub fn try_from(path: &FilePath) -> (result: Result<MediaType, ComposeError>)
        ensures
            classified_path(path@, result),
    {
        match path.extension() {
            Some(ext) => MediaType::from_str(ext.as_str()),
            None => Err(ComposeError::NoExtension(path.clone())),
        }
    }

    /// The media type as text: family, `/`, subtype.
    pub open spec fn text(&self) -> Seq<char> {
        match self {
            MediaType::Image(t) => "image/"@ + t.text(),
            MediaType::Application(t) => "application/"@ + t.text(),
            MediaType::Audio(t) => "audio/"@ + t.text(),
            MediaType::Text(t) => "text/"@ + t.text(),
        }
    }

    /// The media type as text: family, `/`, subtype.
    pub fn to_string(&self) -> (out: String)
        ensures
            out@ == self.text(),
    {
        match self {
            MediaType::Image(t) => {
                let mut out = String::from_str("image/");
                out.append(t.to_string().as_str());
                out
            },
            MediaType::Application(t) => {
                let mut out = String::from_str("application/");
                out.append(t.to_string().as_str());
                out
            },
            MediaType::Audio(t) => {
                let mut out = String::from_str("audio/");
                out.append(t.to_string().as_str());
                out
            },
            MediaType::Text(t) => {
                let mut out = String::from_str("text/");
                out.append(t.to_string().as_str());
                out
            },
        }
    }
}

/// What a packaged file may be marked as.
#[derive(Clone, Copy, PartialEq, Eq, Debug)]
pub enum Properties {
    /// The cover image of the publication.
    CoverImage,
    /// The file holds MathML.
    MathML,
    /// The file is the navigation document.
    Nav,
    /// The file refers to resources outside the package.
    RemoteResources,
    /// The file is scripted.
    Scripted,
    /// The file holds SVG.
    Svg,
    /// The file holds a conditional switch.
    Switch,
}

impl Properties {
    /// The property as it is written in a manifest entry.
    pub open spec fn text(&self) -> Seq<char> {
        match self {
            Properties::CoverImage => "cover-image"@,
            Properties::MathML => "mathml"@,
            Properties::Nav => "nav"@,
            Properties::RemoteResources => "remote-resources"@,
            Properties::Scripted => "scripted"@,
            Properties::Svg => "svg"@,
            Properties::Switch => "switch"@,
        }
    }

    /// The property as it is written in a manifest entry.
    pub fn to_string(&self) -> (out: String)
        ensures
            out@ == self.text(),
    {
        match self {
            Properties::CoverImage => String::from_str("cover-image"),
            Properties::MathML => String::from_str("mathml"),
            Properties::Nav => String::from_str("nav"),
            Properties::RemoteResources => String::from_str("remote-resources"),
            Properties::Scripted => String::from_str("scripted"),
            Properties::Svg => String::from_str("svg"),
            Properties::Switch => String::from_str("switch"),
        }
    }

    /// Whether this is the navigation property.
    pub fn is_nav(&self) -> (nav: bool)
        ensures
            nav == (*self == Properties::Nav),
    {
        match self {
            Properties::Nav => true,
            _ => false,
        }
    }
}

} // verus!
