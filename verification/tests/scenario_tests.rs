use image_browser::nav::{Entry, Navigator};
use image_browser::resource::{resolve_request, respond};

/// One full session: pick a volume, scan it, navigate into a subdirectory,
/// and fetch an image from the still-addressable (stale) snapshot.
#[test]
fn volume_scan_navigate_and_fetch() {
    let mut nav = Navigator::new(vec!["C:\\".to_string(), "D:\\".to_string()]);

    let committed = nav.change_drive(1);
    assert_eq!(committed, 1);
    assert_eq!(nav.current_path().as_str(), "D:\\");

    let snapshot = nav.scan_dir(vec![
        Entry { path: "D:\\Photos".to_string(), is_dir: true },
        Entry { path: "D:\\a.jpg".to_string(), is_dir: false },
    ]);
    assert_eq!(
        snapshot,
        vec![
            "D:\\".to_string(), // the root is its own synthetic parent
            "D:\\Photos".to_string(),
            "D:\\a.jpg".to_string(),
        ]
    );
    assert_eq!(nav.count_sub_dir(), 2);

    let r = nav.change_dir(1);
    assert_eq!(r, Ok(()));
    assert_eq!(nav.current_path().as_str(), "D:\\Photos");

    // before a re-scan the previous snapshot still answers index lookups
    let target = resolve_request(&nav, "GET", "?n=2&").unwrap();
    assert_eq!(target.path, "D:\\a.jpg");
    assert_eq!(target.mime, "image/jpg");

    let bytes = vec![0xFFu8, 0xD8, 0xFF, 0xE0];
    let response = respond(target, Some(bytes.clone()));
    assert_eq!(response.status, 200);
    assert_eq!(response.mime.as_deref(), Some("image/jpg"));
    assert_eq!(response.body, bytes);
}
