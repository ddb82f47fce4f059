use image_browser::image::{is_img_extension, mime_for_extension};
use image_browser::paths::{extension, parent_of};
use image_browser::text::{sort_strings, str_eq, str_le};
use image_browser::volumes::{scan_drive, volume_candidates};

#[test]
fn str_le_orders_lexicographically() {
    assert!(str_le("a", "b"));
    assert!(!str_le("b", "a"));
    assert!(str_le("abc", "abd"));
    assert!(str_le("ab", "abc")); // a prefix precedes its extensions
    assert!(!str_le("abc", "ab"));
    assert!(str_le("", ""));
    assert!(str_le("same", "same"));
}

#[test]
fn str_eq_compares_exactly() {
    assert!(str_eq("GET", "GET"));
    assert!(!str_eq("GET", "POST"));
    assert!(!str_eq("GET", "get"));
    assert!(str_eq("", ""));
}

#[test]
fn sort_strings_sorts_and_keeps_elements() {
    let v = vec![
        "pear".to_string(),
        "apple".to_string(),
        "orange".to_string(),
        "apple".to_string(),
    ];
    let sorted = sort_strings(&v);
    assert_eq!(
        sorted,
        vec![
            "apple".to_string(),
            "apple".to_string(),
            "orange".to_string(),
            "pear".to_string(),
        ]
    );
}

#[test]
fn is_img_extension_accepts_the_allow_list_case_insensitively() {
    for ext in ["png", "jpg", "jpeg", "gif", "bmp", "webp"] {
        assert!(is_img_extension(ext));
        assert!(is_img_extension(&ext.to_uppercase()));
    }
    assert!(is_img_extension("Png"));
    assert!(!is_img_extension("txt"));
    assert!(!is_img_extension("pngx"));
    assert!(!is_img_extension(""));
}

#[test]
fn mime_for_extension_lowercases() {
    assert_eq!(mime_for_extension("PNG").as_deref(), Some("image/png"));
    assert_eq!(mime_for_extension("jpg").as_deref(), Some("image/jpg"));
    assert_eq!(mime_for_extension("JpEg").as_deref(), Some("image/jpeg"));
    assert_eq!(mime_for_extension("webp").as_deref(), Some("image/webp"));
    assert_eq!(mime_for_extension("txt"), None);
}

#[test]
fn parent_of_walks_up_one_component() {
    assert_eq!(parent_of("D:\\Photos").as_deref(), Some("D:\\"));
    assert_eq!(parent_of("D:\\Photos\\cats").as_deref(), Some("D:\\Photos"));
    assert_eq!(parent_of("D:\\"), None); // a volume root has no parent
    assert_eq!(parent_of(""), None);
    assert_eq!(parent_of("noseparator"), None);
}

#[test]
fn extension_takes_the_last_dot_of_the_last_component() {
    assert_eq!(extension("D:\\a.jpg").as_deref(), Some("jpg"));
    assert_eq!(extension("D:\\archive.tar.gz").as_deref(), Some("gz"));
    assert_eq!(extension("D:\\pics.d\\file").as_deref(), None);
    assert_eq!(extension("D:\\README"), None);
    assert_eq!(extension("D:\\.hidden"), None); // a leading dot is no extension
}

#[test]
fn volume_candidates_runs_a_through_z() {
    let candidates = volume_candidates();
    assert_eq!(candidates.len(), 26);
    assert_eq!(candidates[0], "A:\\");
    assert_eq!(candidates[3], "D:\\");
    assert_eq!(candidates[25], "Z:\\");
}

#[test]
fn scan_drive_keeps_accessible_candidates_in_order() {
    let mut accessible = vec![false; 26];
    accessible[2] = true; // C
    accessible[3] = true; // D
    accessible[25] = true; // Z
    let drives = scan_drive(&accessible);
    assert_eq!(
        drives,
        vec!["C:\\".to_string(), "D:\\".to_string(), "Z:\\".to_string()]
    );
    assert_eq!(scan_drive(&vec![false; 26]), Vec::<String>::new());
}
