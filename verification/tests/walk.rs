use imgorisort::config::{Mode, Opt};
use imgorisort::walk::{image_paths, walk_depths, Entry};

fn flat() -> Opt {
    Opt { mode: Mode::Rename, recursive: false, overwrite: false }
}

fn recursive() -> Opt {
    Opt { mode: Mode::Rename, recursive: true, overwrite: false }
}

fn dir(path: &str, depth: usize) -> Entry {
    Entry { path: path.to_string(), depth, is_file: false }
}

fn file(path: &str, depth: usize) -> Entry {
    Entry { path: path.to_string(), depth, is_file: true }
}

/// The entries of a walk over this tree, with three images in each
/// directory:
/// root
/// ├── level_one_a
/// │   └── level_two
/// │       └── level_three
/// └── level_one_b
fn test_dir_tree() -> Vec<Entry> {
    let dirs = [
        ("root", 0),
        ("root/level_one_a", 1),
        ("root/level_one_a/level_two", 2),
        ("root/level_one_a/level_two/level_three", 3),
        ("root/level_one_b", 1),
    ];
    let mut entries = Vec::new();
    for (path, depth) in dirs {
        entries.push(dir(path, depth));
        entries.push(file(&format!("{}/w.png", path), depth + 1));
        entries.push(file(&format!("{}/t.png", path), depth + 1));
        entries.push(file(&format!("{}/s.png", path), depth + 1));
    }
    entries
}

#[test]
fn test_image_paths() {
    let entries = test_dir_tree();

    // Without recursion: the three images of the root.
    let src_paths = image_paths(&flat(), true, &entries);
    assert_eq!(src_paths.len(), 3);

    // With recursion: the fifteen images of the tree.
    let src_paths = image_paths(&recursive(), true, &entries);
    assert_eq!(src_paths.len(), 15);
}

#[test]
fn walk_without_recursion_stays_at_depth_one() {
    let entries = vec![
        dir("root", 0),
        file("root/a.png", 1),
        dir("root/sub", 1),
        file("root/sub/b.png", 2),
        file("root/c.jpg", 1),
    ];
    assert_eq!(image_paths(&flat(), true, &entries), vec!["root/a.png", "root/c.jpg"]);
}

#[test]
fn walk_with_recursion_finds_every_depth() {
    let entries = vec![
        dir("root", 0),
        file("root/a.png", 1),
        dir("root/sub", 1),
        file("root/sub/b.png", 2),
        file("root/sub/sub/sub/sub/c.gif", 5),
        file("root/deep.bmp", 100_000),
        file("root/deepest.bmp", usize::MAX),
    ];
    assert_eq!(
        image_paths(&recursive(), true, &entries),
        vec![
            "root/a.png",
            "root/sub/b.png",
            "root/sub/sub/sub/sub/c.gif",
            "root/deep.bmp",
            "root/deepest.bmp",
        ]
    );
}

#[test]
fn walk_keeps_regular_image_files_only() {
    let entries = vec![
        dir("root", 0),
        dir("root/album.png", 1),
        file("root/notes.txt", 1),
        file("root/README", 1),
        file("root/a.PNG", 1),
        file("root/b.xjpgx", 1),
    ];
    assert_eq!(image_paths(&flat(), true, &entries), vec!["root/a.PNG"]);
}

#[test]
fn root_that_is_a_file_is_found_itself() {
    let entries = vec![file("pictures/a.png", 0)];
    assert_eq!(image_paths(&flat(), false, &entries), vec!["pictures/a.png"]);
    assert_eq!(image_paths(&recursive(), false, &entries), vec!["pictures/a.png"]);
    assert_eq!(
        image_paths(&flat(), false, &vec![file("pictures/a.txt", 0)]),
        Vec::<String>::new()
    );
}

#[test]
fn root_that_is_a_directory_is_not_found_itself() {
    let entries = vec![file("odd.png", 0), file("odd.png/a.png", 1)];
    assert_eq!(image_paths(&flat(), true, &entries), vec!["odd.png/a.png"]);
}

#[test]
fn walk_over_nothing_finds_nothing() {
    assert_eq!(image_paths(&flat(), true, &Vec::new()), Vec::<String>::new());
    assert_eq!(image_paths(&recursive(), false, &Vec::new()), Vec::<String>::new());
}

#[test]
fn depths_of_a_walk() {
    assert_eq!(walk_depths(false, true), (1, 1));
    assert_eq!(walk_depths(true, true), (1, usize::MAX));
    assert_eq!(walk_depths(false, false), (0, 1));
    assert_eq!(walk_depths(true, false), (0, usize::MAX));
}
