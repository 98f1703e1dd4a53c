//! The staging tree: where the parts of the package lie before they are
//! archived, and the files that every package holds.

use crate::path::{components, joined_path, FilePath};
use vstd::prelude::*;

verus! {

/// The directory of the staging tree.
pub const TMP_DIR_PATH_STR: &'static str = "repub_tmp";

/// The text of the file that names the format of the package.
pub const MIMETYPE_TEXT: &'static str = "application/epub+zip";

/// The text of the descriptor that points to the package document.
pub const CONTAINER_XML_TEXT: &'static str =
    "<?xml version=\"1.0\" encoding=\"UTF-8\"?>\n<container version=\"1.0\" xmlns=\"urn:oasis:names:tc:opendocument:xmlns:container\">\n  <rootfiles>\n    <rootfile full-path=\"OEBPS/package.opf\" media-type=\"application/oebps-package+xml\" />\n  </rootfiles>\n</container>\n";

/// Something that has to be done in the file system.
#[derive(Debug)]
pub enum StageAction {
    /// Make the directory, and those above it.
    CreateDir(FilePath),
    /// Copy the file.
    Copy { from: FilePath, to: FilePath },
    /// Write the text to the file.
    Write { to: FilePath, text: String },
}

/// What a step in the file system is.
pub ghost enum Action {
    CreateDir(Seq<Seq<char>>),
    Copy { from: Seq<Seq<char>>, to: Seq<Seq<char>> },
    Write { to: Seq<Seq<char>>, text: Seq<char> },
}

impl View for StageAction {
    type V = Action;

    open spec fn view(&self) -> Action {
        match self {
            StageAction::CreateDir(path) => Action::CreateDir(path@),
            StageAction::Copy { from, to } => Action::Copy { from: from@, to: to@ },
            StageAction::Write { to, text } => Action::Write { to: to@, text: text@ },
        }
    }
}

/// The views of a list of steps.
pub open spec fn actions_view(actions: Seq<StageAction>) -> Seq<Action> {
    Seq::new(actions.len(), |i: int| actions[i]@)
}

/// The path `name` below `dir`.
pub open spec fn below(dir: Seq<Seq<char>>, name: Seq<char>) -> Seq<Seq<char>> {
    joined_path(dir, components(name))
}

/// The directory of the package's descriptor.
#[derive(Debug)]
pub struct MetaInf(pub FilePath);

impl MetaInf {
    /// The descriptor directory of the staging tree at `tmpdir_path`.
    pub fn new(tmpdir_path: &FilePath) -> (meta_inf: MetaInf)
        ensures
            meta_inf.0@ == below(tmpdir_path@, "META-INF"@),
    {
        MetaInf(tmpdir_path.join(&FilePath::from_str("META-INF")))
    }

    /// Where the descriptor lies.
    pub fn container_xml(&self) -> (path: FilePath)
        ensures
            path@ == below(self.0@, "container.xml"@),
    {
        self.0.join(&FilePath::from_str("container.xml"))
    }
}

/// The directory of the content, and the package document once it is written.
#[derive(Debug)]
pub struct OEBPS {
    /// The directory.
    pub path: FilePath,
    /// The package document.
    pub package_opf: Option<FilePath>,
}

impl OEBPS {
    /// The content directory of the staging tree at `tmpdir_path`.
    pub fn new(tmpdir_path: &FilePath) -> (oebps: OEBPS)
        ensures
            oebps.path@ == below(tmpdir_path@, "OEBPS"@),
            oebps.package_opf is None,
    {
        OEBPS { path: tmpdir_path.join(&FilePath::from_str("OEBPS")), package_opf: None }
    }
}

/// The file that names the format of the package.
#[derive(Debug)]
pub struct Mimetype(pub FilePath);

impl Mimetype {
    /// The format file of the staging tree at `tmpdir_path`.
    pub fn new(tmpdir_path: &FilePath) -> (mimetype: Mimetype)
        ensures
            mimetype.0@ == below(tmpdir_path@, "mimetype"@),
    {
        Mimetype(tmpdir_path.join(&FilePath::from_str("mimetype")))
    }
}

/// The staging tree.
#[derive(Debug)]
pub struct TmpDir {
    /// The directory of the tree.
    pub path: FilePath,
    /// The descriptor directory.
    pub meta_inf: MetaInf,
    /// The content directory.
    pub oebps: OEBPS,
    /// The format file.
    pub mimetype: Mimetype,
}

impl TmpDir {
    /// Whether the parts lie where the layout of a package puts them.
    pub open spec fn wf(&self) -> bool {
        &&& self.meta_inf.0@ == below(self.path@, "META-INF"@)
        &&& self.oebps.path@ == below(self.path@, "OEBPS"@)
        &&& self.mimetype.0@ == below(self.path@, "mimetype"@)
    }

    /// The staging tree in its usual place.
    pub fn new() -> (tmp_dir: TmpDir)
        ensures
            tmp_dir.path@ == components(TMP_DIR_PATH_STR@),
            tmp_dir.wf(),
            tmp_dir.oebps.package_opf is None,
    {
        TmpDir::at(FilePath::from_str(TMP_DIR_PATH_STR))
    }

    /// The staging tree at `path`.
    pub fn at(path: FilePath) -> (tmp_dir: TmpDir)
        ensures
            tmp_dir.path@ == path@,
            tmp_dir.wf(),
            tmp_dir.oebps.package_opf is None,
    {
        let meta_inf = MetaInf::new(&path);
        let oebps = OEBPS::new(&path);
        let mimetype = Mimetype::new(&path);
        TmpDir { path, meta_inf, oebps, mimetype }
    }

    /// What has to be done before anything is staged: the directories, the
    /// descriptor and the format file.
    pub open spec fn setup_of(&self) -> Seq<Action> {
        seq![
            Action::CreateDir(self.path@),
            Action::CreateDir(self.meta_inf.0@),
            Action::Write {
                to: below(self.meta_inf.0@, "container.xml"@),
                text: CONTAINER_XML_TEXT@,
            },
            Action::CreateDir(self.oebps.path@),
            Action::Write { to: self.mimetype.0@, text: MIMETYPE_TEXT@ },
        ]
    }

    /// What has to be done before anything is staged.
    pub fn setup(&self) -> (actions: Vec<StageAction>)
        ensures
            actions_view(actions@) == self.setup_of(),
    {
        let mut actions: Vec<StageAction> = Vec::new();
        actions.push(StageAction::CreateDir(self.path.clone()));
        actions.push(StageAction::CreateDir(self.meta_inf.0.clone()));
        actions.push(
            StageAction::Write {
                to: self.meta_inf.container_xml(),
                text: String::from_str(CONTAINER_XML_TEXT),
            },
        );
        actions.push(StageAction::CreateDir(self.oebps.path.clone()));
        actions.push(
            StageAction::Write {
                to: self.mimetype.0.clone(),
                text: String::from_str(MIMETYPE_TEXT),
            },
        );
        assert(actions_view(actions@) == self.setup_of());
        actions
    }
}

} // verus!
