use std::io::Read;
use settlers_server::http::helpers::{HeaderName, Status};
use settlers_server::http::serve::{
    build_resource_cache, etag_of_digest, normalize, ResourceCache, ResourceTable,
};

fn gunzip(data: &[u8]) -> Vec<u8> {
    let mut out = Vec::new();
    flate2::read::GzDecoder::new(data).read_to_end(&mut out).unwrap();
    out
}

fn plain(mime: &str, etag: &str, body: &[u8]) -> ResourceCache {
    ResourceCache {
        mime_type: mime.to_string(),
        etag: etag.to_string(),
        is_gzipped: false,
        body: body.to_vec(),
    }
}

#[test]
fn normalize_keeps_ordinary_components() {
    assert_eq!(normalize("a/b.js"), Some("a/b.js".to_string()));
    assert_eq!(normalize("a//b"), Some("a/b".to_string()));
    assert_eq!(normalize("a/./b/"), Some("a/b".to_string()));
    assert_eq!(normalize("index.html"), Some("index.html".to_string()));
    assert_eq!(normalize(""), Some(String::new()));
    assert_eq!(normalize(".hidden"), Some(".hidden".to_string()));
    assert_eq!(normalize("..."), Some("...".to_string()));
}

#[test]
fn normalize_refuses_traversal() {
    assert_eq!(normalize("/etc/passwd"), None);
    assert_eq!(normalize("../secret"), None);
    assert_eq!(normalize("a/../b"), None);
    assert_eq!(normalize("a/.."), None);
    assert_eq!(normalize(".."), None);
    assert_eq!(normalize("./a"), None);
    assert_eq!(normalize("."), None);
}

#[test]
fn etag_is_quoted_hex() {
    assert_eq!(etag_of_digest(&[0x00, 0xab, 0x10, 0xff]), "\"00ab10ff\"");
    assert_eq!(etag_of_digest(&[]), "\"\"");
}

#[test]
fn cache_entry_for_script() {
    let e = build_resource_cache("js/app.js", b"hello".to_vec());
    assert_eq!(e.mime_type, "text/javascript");
    assert_eq!(e.etag, "\"aaf4c61ddcc5e8a2dabede0f3b482cd9aea9434d\"");
    assert!(e.is_gzipped);
    assert_ne!(e.body, b"hello".to_vec());
    assert_eq!(gunzip(&e.body), b"hello".to_vec());
}

#[test]
fn cache_entry_for_compressed_font_is_stored_as_is() {
    let e = build_resource_cache("font.woff2", vec![1, 2, 3]);
    assert_eq!(e.mime_type, "application/octet-stream");
    assert!(!e.is_gzipped);
    assert_eq!(e.body, vec![1, 2, 3]);
    assert_eq!(e.etag, "\"7037807198c22a7d2b0807371d763779a84fdfcf\"");
}

#[test]
fn lookup_serves_body_with_validation_headers() {
    let table = ResourceTable::from_files(vec![("app.js".to_string(), b"hello".to_vec())]);
    let r = table.serve("app.js", None);
    assert_eq!(r.status, Status::Success);
    assert_eq!(r.headers, vec![
        (HeaderName::ContentType, "text/javascript".to_string()),
        (HeaderName::ETag, "\"aaf4c61ddcc5e8a2dabede0f3b482cd9aea9434d\"".to_string()),
        (HeaderName::ContentEncoding, "gzip".to_string()),
    ]);
    assert_eq!(gunzip(&r.body), b"hello".to_vec());
}

#[test]
fn lookup_with_matching_token_is_not_modified() {
    let mut table = ResourceTable::new();
    table.insert("a.css".to_string(), plain("text/css", "\"t1\"", b"body"));
    let r = table.serve("a.css", Some("\"t1\""));
    assert_eq!(r.status, Status::NotModified);
    assert!(r.body.is_empty());
    assert!(r.headers.is_empty());
    let r = table.serve("a.css", Some("\"t2\""));
    assert_eq!(r.status, Status::Success);
    assert_eq!(r.body, b"body".to_vec());
}

#[test]
fn repeated_lookups_are_identical() {
    let table = ResourceTable::from_files(vec![
        ("index.html".to_string(), b"<p>hi</p>".to_vec()),
        ("logo.png".to_string(), vec![137, 80, 78, 71]),
    ]);
    let first = table.serve("logo.png", None);
    let second = table.serve("logo.png", None);
    assert_eq!(first.status, second.status);
    assert_eq!(first.headers, second.headers);
    assert_eq!(first.body, second.body);
    assert_eq!(table.serve("./logo.png", None).status, Status::NotFound);
}

#[test]
fn traversal_is_not_found_whatever_the_table_holds() {
    let mut table = ResourceTable::new();
    table.insert("../secret".to_string(), plain("text/plain", "\"s\"", b"secret"));
    table.insert("etc/passwd".to_string(), plain("text/plain", "\"p\"", b"root"));
    for path in ["../secret", "/etc/passwd", "a/../etc/passwd"] {
        let r = table.serve(path, None);
        assert_eq!(r.status, Status::NotFound);
        assert_eq!(r.body, b"Not Found".to_vec());
    }
    assert_eq!(table.serve("etc/passwd", None).status, Status::Success);
}

#[test]
fn missing_resource_is_not_found() {
    let table = ResourceTable::new();
    assert_eq!(table.len(), 0);
    let r = table.get_response_data("none.js", Some("\"x\""));
    assert_eq!(r.status, Status::NotFound);
}

#[test]
fn table_keeps_last_file_of_a_path() {
    let table = ResourceTable::from_files(vec![
        ("a.woff2".to_string(), vec![1]),
        ("b.woff2".to_string(), vec![2]),
        ("a.woff2".to_string(), vec![3]),
    ]);
    assert_eq!(table.len(), 2);
    assert_eq!(table.get("a.woff2").unwrap().body, vec![3]);
    assert_eq!(table.get("b.woff2").unwrap().body, vec![2]);
    assert!(table.get("c.woff2").is_none());
}

#[test]
fn insert_replaces_entry_of_same_key() {
    let mut table = ResourceTable::new();
    table.insert("k".to_string(), plain("text/plain", "\"1\"", b"one"));
    table.insert("k".to_string(), plain("text/plain", "\"2\"", b"two"));
    assert_eq!(table.len(), 1);
    assert_eq!(table.get("k").unwrap().etag, "\"2\"");
}
