use settlers_server::http::helpers::{
    get_ext, get_mime_type, header_value, status_response, HeaderName, HttpResponse,
    PreBuiltHeader, Status, MAX_HTTP_BODY_SIZE,
};
use settlers_server::http::{build_section_subpath, disable_caching, route_request, Dispatch};

fn status_of(d: &Dispatch) -> Option<Status> {
    match d {
        Dispatch::Respond(resp) => Some(resp.status),
        _ => None,
    }
}

#[test]
fn section_of_root_is_default_document() {
    let (section, subpath) = build_section_subpath("");
    assert_eq!(section, "public");
    assert_eq!(subpath, "index.html");
}

#[test]
fn section_api_and_ws_keep_their_rest() {
    assert_eq!(build_section_subpath("api/check_token"), ("api", "check_token".to_string()));
    assert_eq!(build_section_subpath("api/a/b"), ("api", "a/b".to_string()));
    assert_eq!(build_section_subpath("ws"), ("ws", String::new()));
    assert_eq!(build_section_subpath("ws/extra"), ("ws", "extra".to_string()));
}

#[test]
fn section_public_refuses_html_by_name() {
    assert_eq!(build_section_subpath("public/app.js"), ("public", "app.js".to_string()));
    assert_eq!(build_section_subpath("public/js/app.js"), ("public", "js/app.js".to_string()));
    assert_eq!(build_section_subpath("public/foo.html"), ("", String::new()));
    assert_eq!(build_section_subpath("public/index.html"), ("", String::new()));
}

#[test]
fn section_bare_name_is_html_document() {
    assert_eq!(build_section_subpath("about"), ("public", "about.html".to_string()));
    assert_eq!(build_section_subpath("about/"), ("public", "about.html".to_string()));
    assert_eq!(build_section_subpath("index"), ("", String::new()));
    assert_eq!(build_section_subpath("favicon.ico"), ("", String::new()));
    assert_eq!(build_section_subpath("a/b"), ("", String::new()));
}

#[test]
fn route_without_length_is_refused() {
    let d = route_request(None, "/api/check_token", true);
    assert_eq!(status_of(&d), Some(Status::LengthRequired));
}

#[test]
fn route_oversized_body_is_refused_before_reading() {
    let d = route_request(Some(MAX_HTTP_BODY_SIZE + 1), "/api/check_token", true);
    assert_eq!(status_of(&d), Some(Status::PayloadTooLarge));
    let d = route_request(Some(u64::MAX), "/", true);
    assert_eq!(status_of(&d), Some(Status::PayloadTooLarge));
    match route_request(Some(MAX_HTTP_BODY_SIZE), "/api/check_token", true) {
        Dispatch::Api(name, size) => {
            assert_eq!(name, "check_token");
            assert_eq!(size, 131072);
        },
        _ => panic!("expected an API call"),
    }
}

#[test]
fn route_static_needs_gzip() {
    match route_request(Some(0), "/", true) {
        Dispatch::Public(p) => assert_eq!(p, "index.html"),
        _ => panic!("expected a static resource"),
    }
    match route_request(Some(0), "/public/app.js", true) {
        Dispatch::Public(p) => assert_eq!(p, "app.js"),
        _ => panic!("expected a static resource"),
    }
    let d = route_request(Some(0), "/", false);
    assert_eq!(status_of(&d), Some(Status::UnsupportedMediaType));
}

#[test]
fn route_relay_and_unknown() {
    match route_request(Some(0), "/ws", true) {
        Dispatch::Ws(p) => assert_eq!(p, ""),
        _ => panic!("expected a relay upgrade"),
    }
    assert_eq!(status_of(&route_request(Some(0), "/unknown/x", true)), Some(Status::NotFound));
    assert_eq!(status_of(&route_request(Some(0), "/public/a.html", true)), Some(Status::NotFound));
}

#[test]
fn status_response_is_reason_phrase() {
    let r = status_response(Status::NotFound);
    assert_eq!(r.status.code(), 404);
    assert_eq!(r.body, b"Not Found".to_vec());
    assert_eq!(r.headers, vec![(HeaderName::ContentType, "text/plain".to_string())]);
    assert_eq!(Status::PayloadTooLarge.code(), 413);
    assert_eq!(Status::PayloadTooLarge.reason(), "Payload Too Large");
    assert_eq!(Status::SwitchingProtocols.code(), 101);
    assert_eq!(Status::LengthRequired.code(), 411);
}

#[test]
fn api_answers_are_not_cached() {
    let mut r = HttpResponse { status: Status::Success, headers: Vec::new(), body: vec![1, 2] };
    disable_caching(&mut r);
    assert_eq!(r.headers, vec![
        (HeaderName::CacheControl, "no-store, must-revalidate".to_string()),
        (HeaderName::Expires, "0".to_string()),
    ]);
    assert_eq!(r.body, vec![1, 2]);
    assert_eq!(r.header(HeaderName::Expires), Some(&"0".to_string()));
    assert_eq!(r.header(HeaderName::ETag), None);
}

#[test]
fn extensions_and_media_types() {
    assert_eq!(get_ext("a/b.tar.gz"), "gz");
    assert_eq!(get_ext("noext"), "");
    assert_eq!(get_ext("dir.d/file"), "d/file");
    assert_eq!(get_mime_type("index.html"), "text/html");
    assert_eq!(get_mime_type("app.js"), "text/javascript");
    assert_eq!(get_mime_type("style.css"), "text/css");
    assert_eq!(get_mime_type("logo.png"), "image/png");
    assert_eq!(get_mime_type("core.wasm"), "application/wasm");
    assert_eq!(get_mime_type("font.woff2"), "application/octet-stream");
    assert_eq!(header_value(PreBuiltHeader::WebSocket), "websocket");
}
