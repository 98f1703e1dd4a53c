use repub::path::{FilePath, PathDiff};

fn path(text: &str) -> FilePath {
    FilePath::from_str(text)
}

fn parts(p: &FilePath) -> Vec<String> {
    (0..p.len()).map(|i| p.part(i).clone()).collect()
}

fn diff(from: &str, to: &str) -> Option<String> {
    FilePath::path_diff(&path(from), &path(to)).map(|p| p.to_string())
}

#[test]
fn a_path_is_read_as_its_components() {
    assert_eq!(parts(&path("ex/am/ple")), vec!["ex", "am", "ple"]);
    assert_eq!(parts(&path("/usr/lib")), vec!["/", "usr", "lib"]);
    assert_eq!(parts(&path("")), Vec::<String>::new());
    assert_eq!(parts(&path("/")), vec!["/"]);
    assert_eq!(parts(&path("a//b/")), vec!["a", "b"]);
    assert_eq!(parts(&path("../a/..")), vec!["..", "a", ".."]);
}

#[test]
fn a_dot_counts_only_at_the_start() {
    assert_eq!(parts(&path("./a")), vec![".", "a"]);
    assert_eq!(parts(&path(".")), vec!["."]);
    assert_eq!(parts(&path("a/./b")), vec!["a", "b"]);
    assert_eq!(parts(&path("a/.")), vec!["a"]);
    assert_eq!(parts(&path("/./a")), vec!["/", "a"]);
}

#[test]
fn a_path_is_written_with_one_separator_between_components() {
    assert_eq!(path("ex/am/ple").to_string(), "ex/am/ple");
    assert_eq!(path("/usr//lib/").to_string(), "/usr/lib");
    assert_eq!(path("/").to_string(), "/");
    assert_eq!(path("").to_string(), "");
    assert_eq!(path("./a/./b").to_string(), "./a/b");
}

#[test]
fn paths_are_the_same_when_their_components_are() {
    assert!(path("a//b").same(&path("a/b/")));
    assert!(!path("a/b").same(&path("a/c")));
    assert!(!path("a/b").same(&path("a")));
    assert!(!path("/a").same(&path("a")));
    assert!(path("x/y").clone().same(&path("x/y")));
}

#[test]
fn only_a_path_from_the_root_is_absolute() {
    assert!(path("/a").is_absolute());
    assert!(path("/").is_absolute());
    assert!(!path("a/b").is_absolute());
    assert!(!path("").is_absolute());
}

#[test]
fn the_file_name_is_the_last_plain_component() {
    assert_eq!(path("a/b.md").file_name(), Some(String::from("b.md")));
    assert_eq!(path("a/..").file_name(), None);
    assert_eq!(path("/").file_name(), None);
    assert_eq!(path("").file_name(), None);
    assert_eq!(path(".").file_name(), None);
}

#[test]
fn the_extension_follows_the_last_dot() {
    assert_eq!(path("a/b.md").extension(), Some(String::from("md")));
    assert_eq!(path("a.tar.gz").extension(), Some(String::from("gz")));
    assert_eq!(path("a/.hidden").extension(), None);
    assert_eq!(path("a/.hidden.txt").extension(), Some(String::from("txt")));
    assert_eq!(path("a/name.").extension(), Some(String::new()));
    assert_eq!(path("a/name").extension(), None);
    assert_eq!(path("a.d/name").extension(), None);
    assert_eq!(path("a/..").extension(), None);
}

#[test]
fn the_parent_is_the_path_without_its_last_component() {
    assert_eq!(path("a/b/c").parent().map(|p| p.to_string()), Some(String::from("a/b")));
    assert_eq!(path("/a").parent().map(|p| p.to_string()), Some(String::from("/")));
    assert_eq!(path("a").parent().map(|p| p.to_string()), Some(String::new()));
    assert!(path("/").parent().is_none());
    assert!(path("").parent().is_none());
}

#[test]
fn joining_appends_a_relative_path_and_takes_an_absolute_one() {
    assert_eq!(path("a/b").join(&path("c/d")).to_string(), "a/b/c/d");
    assert_eq!(path("a/b").join(&path("/c")).to_string(), "/c");
    assert_eq!(path("a").join(&path("./c")).to_string(), "a/c");
    assert_eq!(path("").join(&path("./c")).to_string(), "./c");
    assert_eq!(path("/").join(&path("c")).to_string(), "/c");
    assert_eq!(path("a").join(&path("")).to_string(), "a");
    assert_eq!(path("a").join(&path("../b")).to_string(), "a/../b");
}

#[test]
fn the_extension_of_the_file_name_can_be_replaced() {
    assert_eq!(path("a/b.md").with_extension("xhtml").to_string(), "a/b.xhtml");
    assert_eq!(path("a/b").with_extension("xhtml").to_string(), "a/b.xhtml");
    assert_eq!(path("a/b.tar.gz").with_extension("zip").to_string(), "a/b.tar.zip");
    assert_eq!(path("a/.hidden").with_extension("txt").to_string(), "a/.hidden.txt");
    assert_eq!(path("a/b.md").with_extension("").to_string(), "a/b");
    assert_eq!(path("a/..").with_extension("md").to_string(), "a/..");
    assert_eq!(path("").with_extension("md").to_string(), "");
}

#[test]
fn a_reference_starts_at_the_directory_of_the_file_that_holds_it() {
    assert_eq!(diff("OEBPS/navigation.xhtml", "OEBPS/ch1/a.xhtml"), Some(String::from("ch1/a.xhtml")));
    assert_eq!(diff("OEBPS/ch1/a.xhtml", "OEBPS/css/main.css"), Some(String::from("../css/main.css")));
    assert_eq!(diff("OEBPS/package.opf", "OEBPS/package.opf"), Some(String::from("package.opf")));
    assert_eq!(diff("a/b/c/d.xhtml", "a/x.css"), Some(String::from("../../x.css")));
}

#[test]
fn a_reference_from_a_directory_starts_at_that_directory() {
    assert_eq!(diff("book", "book/ch1/a.md"), Some(String::from("ch1/a.md")));
    assert_eq!(diff("book/ch1", "book"), Some(String::from("..")));
    assert_eq!(diff("book", "book"), Some(String::new()));
    assert_eq!(diff("a/b", "c/d"), Some(String::from("../../c/d")));
    assert_eq!(diff("", "c/d"), Some(String::from("c/d")));
    assert_eq!(diff("/a/b", "/a/c"), Some(String::from("../c")));
    assert_eq!(diff("ex", "ex/am/ple"), Some(String::from("am/ple")));
}

#[test]
fn a_rooted_and_an_unrooted_path_have_no_relation() {
    assert_eq!(diff("a/b", "/a/b"), None);
    assert_eq!(diff("/a/b", "a/b"), None);
}

#[test]
fn a_target_cannot_pass_a_parent_step_of_the_base() {
    assert_eq!(diff("../a", "b"), None);
    assert_eq!(diff("a/../b", "a/c"), None);
    assert_eq!(diff("a/..", "a"), Some(String::from("..")));
}

#[test]
fn a_dot_in_the_base_costs_no_step_up() {
    assert_eq!(diff("./a", "./a/b"), Some(String::from("b")));
    assert_eq!(diff(".", "b/c"), Some(String::from("b/c")));
    assert_eq!(diff("./a", "b"), Some(String::from("b/..")));
    assert_eq!(diff("./a/b", "c/d"), Some(String::from("c/../../d")));
}

/// Follows `rel` from `base`, as a reader of the reference would.
fn follow(base: &str, rel: &str) -> String {
    let mut at: Vec<String> = parts(&path(base));
    for step in parts(&path(rel)) {
        if step == ".." {
            at.pop();
        } else if step != "." {
            at.push(step);
        }
    }
    at.join("/")
}

#[test]
fn following_a_reference_leads_to_what_it_refers_to() {
    let cases = [
        ("OEBPS/text/ch1.xhtml", "OEBPS/css/a.css", "OEBPS/text"),
        ("OEBPS/navigation.xhtml", "OEBPS/text/deep/ch2.xhtml", "OEBPS"),
        ("a/b/c", "x/y", "a/b/c"),
        ("a", "a/b/c/d.png", "a"),
    ];
    for (from, to, base) in cases {
        let rel = diff(from, to).unwrap();
        assert_eq!(follow(base, &rel), to);
    }
}
