use yolo_train::{
    components_have_glob, extension_is_supported_image, extension_is_text,
    glob_component_has_wildcard, glob_component_matches, is_supported_image, is_text_file,
    path_has_glob,
};

#[test]
fn wildcard_detection() {
    assert!(glob_component_has_wildcard("*.jpg"));
    assert!(glob_component_has_wildcard("img?.png"));
    assert!(!glob_component_has_wildcard("images"));
}

#[test]
fn glob_matching() {
    assert!(glob_component_matches("*.jpg", "a.jpg"));
    assert!(glob_component_matches("*.jpg", ".jpg"));
    assert!(!glob_component_matches("*.jpg", "a.png"));
    assert!(glob_component_matches("img?.png", "img1.png"));
    assert!(!glob_component_matches("img?.png", "img12.png"));
    assert!(glob_component_matches("*", ""));
    assert!(glob_component_matches("a*b*c", "aXXbYc"));
    assert!(!glob_component_matches("a*b*c", "aXXbY"));
    assert!(glob_component_matches("abc", "abc"));
    assert!(!glob_component_matches("abc", "abcd"));
}

#[test]
fn path_globs() {
    assert!(path_has_glob("data/images/*.jpg"));
    assert!(path_has_glob("data/*/train"));
    assert!(!path_has_glob("data/images/train"));
}

#[test]
fn file_kinds() {
    assert!(is_text_file("labels/a.txt"));
    assert!(is_text_file("labels/a.TXT"));
    assert!(!is_text_file("labels/a.txt.bak"));
    assert!(!is_text_file("labels/txt"));
    assert!(is_supported_image("a.jpg"));
    assert!(is_supported_image("a.JPEG"));
    assert!(is_supported_image("dir.v2/a.Png"));
    assert!(!is_supported_image("a.gif"));
    assert!(!is_supported_image("jpg"));
}

#[test]
fn list_file_entries_strip_comments_and_space() {
    let text = "a.jpg\n  b.png # second\r\n# only a comment\n\n\tc.jpeg\u{3000}";
    assert_eq!(
        yolo_train::list_file_entries(text),
        vec!["a.jpg".to_string(), "b.png".to_string(), "c.jpeg".to_string()]
    );
    assert!(yolo_train::list_file_entries("").is_empty());
    assert_eq!(yolo_train::list_file_entries("x\r"), vec!["x".to_string()]);
}

#[test]
fn extensions_are_compared_case_insensitively() {
    assert!(extension_is_text(&Some("TxT".to_string())));
    assert!(!extension_is_text(&Some("bak".to_string())));
    assert!(!extension_is_text(&None));
    assert!(extension_is_supported_image(&Some("JPEG".to_string())));
    assert!(extension_is_supported_image(&Some("png".to_string())));
    assert!(!extension_is_supported_image(&Some("gif".to_string())));
}

#[test]
fn component_lists_with_wildcards_are_globs() {
    assert!(components_have_glob(&vec!["data".to_string(), "*.jpg".to_string()]));
    assert!(!components_have_glob(&vec!["data".to_string(), "a.jpg".to_string()]));
}
