use imgorisort::path::{directory, extension, file_name, final_component, join, split_name};
use imgorisort::text::{decimal_string, last_index_of};

#[test]
fn file_name_is_the_last_component() {
    assert_eq!(file_name("a/b/c.png"), Some("c.png"));
    assert_eq!(file_name("c.png"), Some("c.png"));
    assert_eq!(file_name("/c"), Some("c"));
    assert_eq!(file_name("a/.hidden"), Some(".hidden"));
    assert_eq!(file_name("a/..."), Some("..."));
}

#[test]
fn some_paths_have_no_file_name() {
    assert_eq!(file_name(""), None);
    assert_eq!(file_name("a/"), None);
    assert_eq!(file_name("/"), None);
    assert_eq!(file_name("."), None);
    assert_eq!(file_name(".."), None);
    assert_eq!(file_name("a/."), None);
    assert_eq!(file_name("a/.."), None);
}

#[test]
fn directory_keeps_its_last_slash() {
    assert_eq!(directory("a/b/c.png"), "a/b/");
    assert_eq!(directory("c.png"), "");
    assert_eq!(directory("/c.png"), "/");
    assert_eq!(directory("a/"), "a/");
    assert_eq!(directory(""), "");
}

#[test]
fn final_component_follows_the_last_slash() {
    assert_eq!(final_component("a/b/c.png"), "c.png");
    assert_eq!(final_component("a/"), "");
    assert_eq!(final_component("a/.."), "..");
    assert_eq!(final_component("\u{e9}/\u{fc}.png"), "\u{fc}.png");
}

#[test]
fn extension_follows_the_last_dot() {
    assert_eq!(extension("a.png"), Some("png"));
    assert_eq!(extension("a.tar.gz"), Some("gz"));
    assert_eq!(extension("d/a.JPG"), Some("JPG"));
    assert_eq!(extension("a."), Some(""));
    assert_eq!(extension(".a.b"), Some("b"));
}

#[test]
fn some_paths_have_no_extension() {
    assert_eq!(extension("a"), None);
    assert_eq!(extension(".bashrc"), None);
    assert_eq!(extension("d.png/a"), None);
    assert_eq!(extension("d.png/"), None);
    assert_eq!(extension(".."), None);
    assert_eq!(extension(""), None);
}

#[test]
fn name_splits_into_stem_and_suffix() {
    assert_eq!(split_name("foo.png"), ("foo", ".png"));
    assert_eq!(split_name("foo"), ("foo", ""));
    assert_eq!(split_name(".bashrc"), (".bashrc", ""));
    assert_eq!(split_name("a.tar.gz"), ("a.tar", ".gz"));
    assert_eq!(split_name("foo."), ("foo", "."));
    assert_eq!(split_name(""), ("", ""));
}

#[test]
fn join_sets_one_slash_between() {
    assert_eq!(join("out", "tall"), "out/tall");
    assert_eq!(join("out/", "tall"), "out/tall");
    assert_eq!(join("", "tall"), "tall");
    assert_eq!(join("/", "tall"), "/tall");
    assert_eq!(join(".", "tall"), "./tall");
    assert_eq!(join("a/b", "c.png"), "a/b/c.png");
}

#[test]
fn last_index_of_finds_the_last_one() {
    assert_eq!(last_index_of("a/b/c", '/'), Some(3));
    assert_eq!(last_index_of("/", '/'), Some(0));
    assert_eq!(last_index_of("abc", '/'), None);
    assert_eq!(last_index_of("", '/'), None);
    assert_eq!(last_index_of("\u{e9}\u{e9}.x", '.'), Some(2));
}

#[test]
fn decimal_string_writes_numbers() {
    assert_eq!(decimal_string(0), "0");
    assert_eq!(decimal_string(7), "7");
    assert_eq!(decimal_string(9), "9");
    assert_eq!(decimal_string(10), "10");
    assert_eq!(decimal_string(101), "101");
    assert_eq!(decimal_string(65535), "65535");
    assert_eq!(decimal_string(1234567890), "1234567890");
    assert_eq!(decimal_string(usize::MAX), usize::MAX.to_string());
}
