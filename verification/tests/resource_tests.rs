use image_browser::nav::{Entry, Navigator};
use image_browser::resource::{not_found, parse_query_index, resolve_request, respond};

fn listed_nav(paths: &[(&str, bool)]) -> Navigator {
    let mut nav = Navigator::new(vec!["D:\\".to_string()]);
    nav.change_drive(0);
    nav.scan_dir(
        paths
            .iter()
            .map(|(p, d)| Entry { path: p.to_string(), is_dir: *d })
            .collect(),
    );
    nav
}

#[test]
fn parse_query_index_reads_the_number() {
    assert_eq!(parse_query_index("?n=2&"), Some(2));
    assert_eq!(parse_query_index("reqimg://x?n=417&rest"), Some(417));
    assert_eq!(parse_query_index("?n=0&"), Some(0));
}

#[test]
fn parse_query_index_rejects_malformed_queries() {
    assert_eq!(parse_query_index("?m=2&"), None); // no marker
    assert_eq!(parse_query_index("?n=2"), None); // no terminator
    assert_eq!(parse_query_index("?n=&"), None); // empty numeral
    assert_eq!(parse_query_index("?n=12x&"), None); // not a numeral
    assert_eq!(parse_query_index("x&y?n=3&"), None); // terminator before marker
    assert_eq!(parse_query_index(""), None);
    assert_eq!(parse_query_index("?n=99999999999999999999999999&"), None); // oversized
}

#[test]
fn non_get_requests_are_not_found() {
    let nav = listed_nav(&[("D:\\a.png", false)]);
    assert!(resolve_request(&nav, "POST", "?n=1&").is_none());
    assert!(resolve_request(&nav, "GET", "?n=1&").is_some());
}

#[test]
fn out_of_range_index_is_not_found() {
    let nav = listed_nav(&[("D:\\a.png", false)]);
    assert!(resolve_request(&nav, "GET", "?n=5&").is_none());
}

#[test]
fn text_file_is_not_found_even_when_listed() {
    let nav = listed_nav(&[("D:\\notes.txt", false)]);
    assert!(resolve_request(&nav, "GET", "?n=1&").is_none());
    let response = not_found();
    assert_eq!(response.status, 404);
    assert!(response.mime.is_none());
    assert!(response.body.is_empty());
}

#[test]
fn entry_without_extension_is_not_found() {
    let nav = listed_nav(&[("D:\\README", false)]);
    assert!(resolve_request(&nav, "GET", "?n=1&").is_none());
}

#[test]
fn png_entry_resolves_and_serves_exact_bytes() {
    let nav = listed_nav(&[("D:\\pic.png", false)]);
    let target = resolve_request(&nav, "GET", "?n=1&").unwrap();
    assert_eq!(target.path, "D:\\pic.png");
    assert_eq!(target.mime, "image/png");
    let bytes = vec![137u8, 80, 78, 71, 13, 10, 26, 10];
    let response = respond(target, Some(bytes.clone()));
    assert_eq!(response.status, 200);
    assert_eq!(response.mime.as_deref(), Some("image/png"));
    assert_eq!(response.body, bytes);
}

#[test]
fn uppercase_extension_serves_lowercased_content_type() {
    let nav = listed_nav(&[("D:\\PIC.PNG", false)]);
    let target = resolve_request(&nav, "GET", "?n=1&").unwrap();
    assert_eq!(target.mime, "image/png");
}

#[test]
fn failed_read_degrades_to_not_found() {
    let nav = listed_nav(&[("D:\\gone.gif", false)]);
    let target = resolve_request(&nav, "GET", "?n=1&").unwrap();
    let response = respond(target, None);
    assert_eq!(response.status, 404);
    assert!(response.mime.is_none());
    assert!(response.body.is_empty());
}
