use image_browser::nav::{ChangeDirError, Entry, Navigator};

fn two_drives() -> Navigator {
    Navigator::new(vec!["C:\\".to_string(), "D:\\".to_string()])
}

fn entry(path: &str, is_dir: bool) -> Entry {
    Entry { path: path.to_string(), is_dir }
}

#[test]
fn change_drive_valid_commits_exactly() {
    let mut nav = two_drives();
    let committed = nav.change_drive(1);
    assert_eq!(committed, 1);
    assert_eq!(nav.active_volume(), 1);
    assert_eq!(nav.current_path().as_str(), "D:\\");
}

#[test]
fn change_drive_invalid_falls_back_to_zero() {
    let mut nav = two_drives();
    nav.change_drive(1);
    let committed = nav.change_drive(7);
    assert_eq!(committed, 0);
    assert_eq!(nav.active_volume(), 0);
    assert_eq!(nav.current_path().as_str(), "C:\\");
}

#[test]
fn scan_puts_parent_directory_first() {
    let mut nav = two_drives();
    nav.change_drive(1);
    let snapshot = nav.scan_dir(vec![
        entry("D:\\Photos", true),
        entry("D:\\a.jpg", false),
    ]);
    // at a volume root the synthetic entry is the root itself
    assert_eq!(snapshot[0], "D:\\");
    assert!(nav.snapshot_entries()[0].is_dir);

    let r = nav.change_dir(1);
    assert!(r.is_ok());
    let snapshot = nav.scan_dir(vec![entry("D:\\Photos\\cat.png", false)]);
    // below the root the synthetic entry is the parent
    assert_eq!(snapshot[0], "D:\\");
    assert!(nav.snapshot_entries()[0].is_dir);
}

#[test]
fn scan_sorts_directories_before_files_each_group_sorted() {
    let mut nav = two_drives();
    nav.change_drive(1);
    let snapshot = nav.scan_dir(vec![
        entry("D:\\z.txt", false),
        entry("D:\\beta", true),
        entry("D:\\c.txt", false),
        entry("D:\\alpha", true),
    ]);
    assert_eq!(
        snapshot,
        vec![
            "D:\\".to_string(),
            "D:\\alpha".to_string(),
            "D:\\beta".to_string(),
            "D:\\c.txt".to_string(),
            "D:\\z.txt".to_string(),
        ]
    );
}

#[test]
fn count_sub_dir_is_directory_entries_plus_parent() {
    let mut nav = two_drives();
    nav.change_drive(1);
    assert_eq!(nav.count_sub_dir(), 0);
    nav.scan_dir(vec![
        entry("D:\\a", true),
        entry("D:\\b", true),
        entry("D:\\c.txt", false),
    ]);
    assert_eq!(nav.count_sub_dir(), 3);
    nav.scan_dir(vec![entry("D:\\only.txt", false)]);
    assert_eq!(nav.count_sub_dir(), 1);
}

#[test]
fn change_dir_out_of_range_rejected_state_unchanged() {
    let mut nav = two_drives();
    nav.change_drive(1);
    nav.scan_dir(vec![entry("D:\\Photos", true)]);
    let r = nav.change_dir(9);
    assert_eq!(r, Err(ChangeDirError::IndexOutOfRange));
    assert_eq!(nav.current_path().as_str(), "D:\\");
    assert_eq!(nav.count_sub_dir(), 2);
}

#[test]
fn change_dir_to_file_rejected_state_unchanged() {
    let mut nav = two_drives();
    nav.change_drive(1);
    nav.scan_dir(vec![entry("D:\\Photos", true), entry("D:\\a.jpg", false)]);
    let r = nav.change_dir(2);
    assert_eq!(r, Err(ChangeDirError::NotADirectory));
    assert_eq!(nav.current_path().as_str(), "D:\\");
}

#[test]
fn change_dir_success_moves_path_keeps_snapshot() {
    let mut nav = two_drives();
    nav.change_drive(1);
    nav.scan_dir(vec![entry("D:\\Photos", true), entry("D:\\a.jpg", false)]);
    let r = nav.change_dir(1);
    assert_eq!(r, Ok(()));
    assert_eq!(nav.current_path().as_str(), "D:\\Photos");
    // the stale snapshot stays addressable until the next scan
    assert_eq!(nav.snapshot_entries().len(), 3);
    assert_eq!(nav.count_sub_dir(), 2);
}

#[test]
fn change_dir_error_codes() {
    assert_eq!(ChangeDirError::IndexOutOfRange.code(), -1);
    assert_eq!(ChangeDirError::NotADirectory.code(), -2);
}
