use sharetty::pages::{
    config_script_text, directory_listing, directory_redirect, download_path_allowed,
    index_missing, index_page_text, key_le_exec, listing_page_text, sort_entries,
    static_asset_path, static_content_type, upload_file_name, upload_form_page, DirEntry,
};

fn entry(name: &str, is_dir: bool) -> DirEntry {
    DirEntry { key: name.as_bytes().to_vec(), name: name.to_string(), is_dir }
}

#[test]
fn config_script() {
    assert_eq!(
        config_script_text(true, false),
        "<script>window.SHARETTY_CONFIG = { upload: true, download: false };</script>"
    );
}

#[test]
fn script_goes_before_head_end() {
    let page = index_page_text("<html><head><title>t</title></head><body></body></html>", false, true);
    assert_eq!(
        page,
        "<html><head><title>t</title><script>window.SHARETTY_CONFIG = { upload: false, download: true };</script></head><body></body></html>"
    );
    let page = index_page_text("<p>x</p>", false, false);
    assert_eq!(page, "<p>x</p><script>window.SHARETTY_CONFIG = { upload: false, download: false };</script>");
    // only the first </head> is used
    let page = index_page_text("a</head>b</head>", true, true);
    assert!(page.starts_with("a<script>"));
    assert!(page.ends_with("</script></head>b</head>"));
    assert_eq!(index_missing(), "Index not found");
}

#[test]
fn traversal_is_refused() {
    assert!(download_path_allowed("dir/file.txt"));
    assert!(download_path_allowed(""));
    assert!(!download_path_allowed("../etc/passwd"));
    assert!(!download_path_allowed("a/..b"));
}

#[test]
fn directories_get_trailing_slash() {
    assert_eq!(directory_redirect("/download/sub"), Some("/download/sub/".to_string()));
    assert_eq!(directory_redirect("/download/sub/"), None);
}

#[test]
fn byte_order() {
    assert!(key_le_exec(b"a", b"b"));
    assert!(key_le_exec(b"ab", b"ab"));
    assert!(key_le_exec(b"a", b"ab"));
    assert!(!key_le_exec(b"b", b"ab"));
    assert!(key_le_exec(b"B", b"a"));
}

#[test]
fn entries_sort_by_name() {
    let sorted = sort_entries(vec![entry("b", false), entry("a", true), entry("C", false)]);
    let names: Vec<&str> = sorted.iter().map(|e| e.name.as_str()).collect();
    assert_eq!(names, vec!["C", "a", "b"]);
}

#[test]
fn listing_layout() {
    let page = listing_page_text("", &vec![entry("docs", true), entry("file.txt", false)]);
    assert_eq!(
        page,
        "<!doctype html><html><head><title>Index of /</title></head><body><h1>Index of /</h1><hr><ul><li><a href=\"docs\">docs/</a></li><li><a href=\"file.txt\">file.txt</a></li></ul><hr></body></html>"
    );
    let page = directory_listing("sub", vec![entry("z", false), entry("y", false)]);
    assert_eq!(
        page,
        "<!doctype html><html><head><title>Index of /sub</title></head><body><h1>Index of /sub</h1><hr><ul><li><a href=\"..\">..</a></li><li><a href=\"y\">y</a></li><li><a href=\"z\">z</a></li></ul><hr></body></html>"
    );
}

#[test]
fn upload_names() {
    assert_eq!(upload_file_name("report.pdf"), "report.pdf");
    assert_eq!(upload_file_name("../../etc/passwd"), "passwd");
    assert_eq!(upload_file_name("dir/"), "dir");
    assert_eq!(upload_file_name(".."), "unknown");
    assert_eq!(upload_file_name(""), "unknown");
    assert_eq!(upload_file_name("/"), "unknown");
    assert_eq!(upload_file_name("up/upload.txt"), "upload.txt");
    assert_eq!(upload_file_name("a/./b//."), "b");
    assert_eq!(upload_file_name("a/b/.."), "unknown");
}

#[test]
fn static_assets() {
    assert_eq!(static_asset_path("/index.html"), "index.html");
    assert_eq!(static_asset_path("//js/app.js"), "js/app.js");
    assert_eq!(static_content_type("index.html"), "text/html");
    assert_eq!(static_content_type("noext"), "application/octet-stream");
}

#[test]
fn upload_form() {
    let f = upload_form_page();
    assert!(f.contains("<form action=\"\" method=\"post\" enctype=\"multipart/form-data\">"));
    assert!(f.contains("<input type=\"file\" name=\"file\" multiple>"));
}

#[test]
fn listing_ignores_read_order() {
    let a = directory_listing("d", vec![entry("x", false), entry("a", true), entry("m", false)]);
    let b = directory_listing("d", vec![entry("m", false), entry("x", false), entry("a", true)]);
    assert_eq!(a, b);
}
