use imgorisort::unique::{contains_name, dedupe, make_uniq};

fn names(list: &[&str]) -> Vec<String> {
    list.iter().map(|s| s.to_string()).collect()
}

#[test]
fn free_name_is_kept() {
    assert_eq!(make_uniq("foo.png", &names(&[])), "foo.png");
    assert_eq!(make_uniq("foo.png", &names(&["bar.png", "foo_1.png"])), "foo.png");
    assert_eq!(make_uniq("d/foo.png", &names(&["foo.png"])), "d/foo.png");
}

#[test]
fn taken_name_gets_the_number_one() {
    assert_eq!(make_uniq("foo.png", &names(&["foo.png"])), "foo_1.png");
}

#[test]
fn number_grows_until_a_name_is_free() {
    assert_eq!(make_uniq("foo.png", &names(&["foo.png", "foo_1.png"])), "foo_2.png");
    assert_eq!(
        make_uniq("foo.png", &names(&["foo_2.png", "foo_1.png", "foo.png"])),
        "foo_3.png"
    );
    assert_eq!(make_uniq("foo.png", &names(&["foo.png", "foo_2.png"])), "foo_1.png");
}

#[test]
fn number_passes_from_nine_to_ten() {
    let mut taken = names(&["foo.png"]);
    for k in 1..10 {
        taken.push(format!("foo_{}.png", k));
    }
    assert_eq!(make_uniq("foo.png", &taken), "foo_10.png");
    taken.push("foo_10.png".to_string());
    assert_eq!(make_uniq("foo.png", &taken), "foo_11.png");
}

#[test]
fn directory_and_extension_are_kept() {
    assert_eq!(make_uniq("a/b/foo.png", &names(&["a/b/foo.png"])), "a/b/foo_1.png");
    assert_eq!(make_uniq("/foo.JPG", &names(&["/foo.JPG"])), "/foo_1.JPG");
    assert_eq!(make_uniq("a.b/c.tar.gz", &names(&["a.b/c.tar.gz"])), "a.b/c.tar_1.gz");
}

#[test]
fn name_without_extension_gets_the_number_at_its_end() {
    assert_eq!(make_uniq("foo", &names(&["foo"])), "foo_1");
    assert_eq!(make_uniq("d/.bashrc", &names(&["d/.bashrc"])), "d/.bashrc_1");
    assert_eq!(make_uniq("d.x/foo", &names(&["d.x/foo", "d.x/foo_1"])), "d.x/foo_2");
}

#[test]
fn names_listed_twice_count_once() {
    assert_eq!(
        make_uniq("foo.png", &names(&["foo.png", "foo.png", "foo_1.png", "foo_1.png"])),
        "foo_2.png"
    );
}

#[test]
fn result_is_never_taken() {
    let mut taken = names(&["x/foo.png"]);
    for _ in 0..25 {
        let name = make_uniq("x/foo.png", &taken);
        assert!(!contains_name(&taken, &name));
        taken.push(name);
    }
    assert_eq!(taken.len(), 26);
    assert_eq!(taken[25], "x/foo_25.png");
}

#[test]
fn contains_name_compares_whole_names() {
    let taken = names(&["a/b.png", "c.png"]);
    assert!(contains_name(&taken, &"c.png".to_string()));
    assert!(contains_name(&taken, &"a/b.png".to_string()));
    assert!(!contains_name(&taken, &"b.png".to_string()));
    assert!(!contains_name(&taken, &"c.pn".to_string()));
    assert!(!contains_name(&Vec::new(), &"c.png".to_string()));
}

#[test]
fn dedupe_steps_aside_unless_overwriting() {
    let existing = names(&["foo.png"]);
    assert_eq!(dedupe("foo.png", false, &existing), "foo_1.png");
    assert_eq!(dedupe("foo.png", true, &existing), "foo.png");
}

#[test]
fn dedupe_counts_up_until_a_name_is_free() {
    let existing = names(&["foo.png", "foo_1.png", "foo_2.png"]);
    assert_eq!(dedupe("foo.png", false, &existing), "foo_3.png");
    assert_eq!(dedupe("foo.png", true, &existing), "foo.png");
}

#[test]
fn dedupe_keeps_a_free_name() {
    let existing = names(&["bar.png"]);
    assert_eq!(dedupe("foo.png", false, &existing), "foo.png");
    assert_eq!(dedupe("foo.png", true, &existing), "foo.png");
    assert_eq!(dedupe("foo.png", false, &Vec::new()), "foo.png");
}
