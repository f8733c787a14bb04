use cargo_doc_viewer::server::file_content_type;
use cargo_doc_viewer::server::has_html_extension;
use cargo_doc_viewer::server::method_allowed;
use cargo_doc_viewer::server::route;
use cargo_doc_viewer::server::transformed_html;
use cargo_doc_viewer::server::Route;
use cargo_doc_viewer::server::ServerError;
use cargo_doc_viewer::server::ServerState;

#[test]
fn routing_matches_reserved_paths() {
    assert!(matches!(route("/"), Route::Overview));
    assert!(matches!(route("/index.html"), Route::Overview));
    assert!(matches!(route("/cdv-crate-overview.html"), Route::Overview));
    assert!(matches!(route("/cdv-sw.js"), Route::ServiceWorker));
    assert!(matches!(route("/serde/index.html"), Route::Asset));
    assert!(matches!(route("/Index.html"), Route::Asset));
}

#[test]
fn only_get_and_head_are_answered() {
    assert!(method_allowed("GET"));
    assert!(method_allowed("HEAD"));
    assert!(!method_allowed("POST"));
    assert!(!method_allowed("PUT"));
    assert!(!method_allowed("get"));
}

#[test]
fn errors_map_to_their_status_codes() {
    let (status, body) = ServerError::NotFound.into_response();
    assert_eq!((status, body.as_str()), (404, "Not Found"));
    let (status, body) = ServerError::PermissionDenied.into_response();
    assert_eq!((status, body.as_str()), (403, "Permission Denied"));
    let (status, body) = ServerError::Failure("disk on fire".to_string()).into_response();
    assert_eq!((status, body.as_str()), (500, "disk on fire"));
}

#[test]
fn traversal_request_is_not_resolvable() {
    let state = ServerState::new("/docs".to_string(), "/docs".to_string());
    assert!(state.join("/../../etc/passwd").is_none());
    assert!(state.join("/serde/index.html").is_some());
}

#[test]
fn canonical_containment_guards_serving() {
    let state = ServerState::new("/docs".to_string(), "/docs".to_string());
    assert!(state.contains_canonical("/docs/serde/index.html"));
    assert!(!state.contains_canonical("/home/user/.ssh/id_rsa"));
    assert!(!state.contains_canonical("/docs-evil/index.html"));
}

#[test]
fn served_html_gains_the_marker_without_writing() {
    let on_disk = "<html><head></head><body>hi</body></html>";
    let served = transformed_html(on_disk.to_string());
    assert!(served.contains("<!-- CDV: injected -->"));
    assert!(served.contains("hi"));
    // the source text is untouched; only the served copy is enhanced
    assert!(!on_disk.contains("cdv-style"));
    // an already-enhanced document passes through unchanged
    assert_eq!(transformed_html(served.clone()), served);
}

#[test]
fn html_extension_is_detected_case_insensitively() {
    assert!(has_html_extension("/serde/index.html"));
    assert!(has_html_extension("a/b.HTML"));
    assert!(!has_html_extension("style.css"));
    assert!(!has_html_extension("archive.tar.gz"));
    assert!(!has_html_extension(".bashrc"));
    assert!(!has_html_extension("no_extension"));
}

#[test]
fn content_types_follow_the_extension() {
    assert_eq!(file_content_type("style.css"), "text/css");
    assert_eq!(file_content_type("logo.png"), "image/png");
    assert_eq!(file_content_type("data.bin"), "application/octet-stream");
    assert_eq!(file_content_type("no_extension"), "application/octet-stream");
}
