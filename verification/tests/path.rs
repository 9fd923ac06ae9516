//! Paths as lists of names.

use albumplayer::path::FilePath;

fn path(text: &str) -> FilePath {
    FilePath::parse(text)
}

#[test]
fn paths_read_back_as_they_were_written() {
    for text in ["/", "", "/m/a.mp3", "a/b", "../x"] {
        assert_eq!(path(text).to_text(), text);
    }
    assert_eq!(path("/m//a/./b/").to_text(), "/m/a/b");
}

#[test]
fn names_come_apart() {
    let p = path("/m/Kid A/01.x.mp3");
    assert_eq!(p.file_name().as_deref(), Some("01.x.mp3"));
    assert_eq!(p.file_stem().as_deref(), Some("01.x"));
    assert_eq!(p.extension().as_deref(), Some("mp3"));
    assert_eq!(p.parent(), Some(path("/m/Kid A")));
    assert_eq!(path("/").parent(), None);
    assert_eq!(path(".hidden").extension(), None);
    assert_eq!(path("a/..").file_name(), None);
}

#[test]
fn prefixes_are_whole_names() {
    assert!(path("/m/a/b").starts_with(&path("/m/a")));
    assert!(!path("/m/ab").starts_with(&path("/m/a")));
    assert!(!path("m/a").starts_with(&path("/m")));
    assert_eq!(path("/m/a/b").strip_prefix(&path("/m")), Some(path("a/b")));
    assert_eq!(path("/m").strip_prefix(&path("/x")), None);
    // The empty path comes first in every path, and leaves it as it is.
    assert!(path("/m/a").starts_with(&path("")));
    assert!(path("m/a").starts_with(&path("")));
    assert_eq!(path("/m/a").strip_prefix(&path("")), Some(path("/m/a")));
    assert_eq!(path("m/a").strip_prefix(&path("")), Some(path("m/a")));
    assert!(!path("").starts_with(&path("/")));
    assert!(!path("/").same(&path("")));
}

#[test]
fn joining_and_stripping_undo_each_other() {
    let joined = path("/m").join(&path("a/b"));
    assert_eq!(joined, path("/m/a/b"));
    assert_eq!(joined.strip_prefix(&path("/m")), Some(path("a/b")));
    assert_eq!(path("/m").join(&path("/x")), path("/x"), "an absolute path replaces");
}

#[test]
fn paths_order_by_name() {
    assert!(path("/m/a").before(&path("/m/b")));
    assert!(path("/m").before(&path("/m/a")));
    assert!(!path("/m/a").before(&path("/m/a")));
    assert!(path("/m/a").same(&path("/m/a/")));
}
