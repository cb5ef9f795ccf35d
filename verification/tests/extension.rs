use imgorisort::extension::{has_image_extension, ExtensionMatcher};

#[test]
fn supported_extensions_in_lower_case() {
    for ext in ["jpg", "jpeg", "png", "gif", "webp", "ico", "tiff", "bmp"] {
        assert!(has_image_extension(&format!("a.{}", ext)), "{}", ext);
    }
}

#[test]
fn supported_extensions_in_upper_case() {
    for ext in ["JPG", "JPEG", "PNG", "GIF", "WEBP", "ICO", "TIFF", "BMP"] {
        assert!(has_image_extension(&format!("a.{}", ext)), "{}", ext);
    }
}

#[test]
fn supported_extensions_in_mixed_case() {
    assert!(has_image_extension("a.JPG"));
    assert!(has_image_extension("a.Png"));
    assert!(has_image_extension("a.jPeG"));
    assert!(has_image_extension("a.WebP"));
    assert!(has_image_extension("a.tIfF"));
}

#[test]
fn other_extensions_are_no_images() {
    assert!(!has_image_extension("a.txt"));
    assert!(!has_image_extension("a.rs"));
    assert!(!has_image_extension("a.svg"));
    assert!(!has_image_extension("a.jp"));
    assert!(!has_image_extension("a.jpe"));
}

#[test]
fn no_extension_is_no_image() {
    assert!(!has_image_extension("a"));
    assert!(!has_image_extension(""));
    assert!(!has_image_extension("png"));
    assert!(!has_image_extension("dir/png"));
    assert!(!has_image_extension("a."));
}

#[test]
fn extension_is_matched_as_a_whole() {
    assert!(!has_image_extension("a.xjpgx"));
    assert!(!has_image_extension("a.jpgx"));
    assert!(!has_image_extension("a.xjpg"));
    assert!(!has_image_extension("a.pngpng"));
    assert!(!has_image_extension("a.jpegs"));
    assert!(!has_image_extension("a.tif"));
}

#[test]
fn extension_is_taken_from_the_file_name() {
    assert!(has_image_extension("some/dir/a.png"));
    assert!(has_image_extension("/abs/a.b.png"));
    assert!(has_image_extension("dir.txt/a.gif"));
    assert!(!has_image_extension("dir.png/a"));
    assert!(!has_image_extension("dir.png/a.txt"));
    assert!(!has_image_extension("dir.png/"));
}

#[test]
fn leading_dot_makes_no_extension() {
    assert!(!has_image_extension(".png"));
    assert!(!has_image_extension("dir/.jpg"));
    assert!(has_image_extension(".hidden.jpg"));
}

#[test]
fn dots_alone_name_no_image() {
    assert!(!has_image_extension("."));
    assert!(!has_image_extension(".."));
    assert!(!has_image_extension("a/.."));
}

#[test]
fn letters_outside_ascii_match_nothing() {
    assert!(!has_image_extension("a.pn\u{121}"));
    assert!(!has_image_extension("a.\u{131}co"));
    assert!(!has_image_extension("a.\u{212a}ng"));
    assert!(has_image_extension("\u{e9}t\u{e9}.png"));
}

#[test]
fn one_matcher_serves_many_paths() {
    let matcher = ExtensionMatcher::new();
    assert!(matcher.is_image("a.JPG"));
    assert!(!matcher.is_image("a.txt"));
    assert!(matcher.is_image("b.bmp"));
    assert!(!matcher.is_image("b"));
}
