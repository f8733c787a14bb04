use cargo_doc_viewer::paths::join_under_root;
use cargo_doc_viewer::paths::path_contained;
use cargo_doc_viewer::paths::percent_decode;

#[test]
fn join_resolves_plain_segments() {
    assert_eq!(join_under_root("/docs", "/crate_a/index.html").as_deref(), Some(
        "/docs/crate_a/index.html",
    ));
    assert_eq!(join_under_root("/docs", "crate_a").as_deref(), Some("/docs/crate_a"));
}

#[test]
fn join_skips_empty_and_dot_segments() {
    assert_eq!(join_under_root("/docs", "//a/./b/").as_deref(), Some("/docs/a/b"));
    assert_eq!(join_under_root("/docs", "/").as_deref(), Some("/docs"));
    assert_eq!(join_under_root("/docs", "").as_deref(), Some("/docs"));
}

#[test]
fn join_rejects_literal_traversal() {
    assert!(join_under_root("/docs", "/../../etc/passwd").is_none());
    assert!(join_under_root("/docs", "/a/../b").is_none());
    assert!(join_under_root("/docs", "..").is_none());
}

#[test]
fn join_rejects_encoded_traversal() {
    assert!(join_under_root("/docs", "/%2e%2e/etc/passwd").is_none());
    assert!(join_under_root("/docs", "/%2E%2E").is_none());
    assert!(join_under_root("/docs", "/.%2e").is_none());
    assert!(join_under_root("/docs", "/%2e.").is_none());
}

#[test]
fn join_rejects_backslash_and_nul() {
    assert!(join_under_root("/docs", "/a%5Cb").is_none());
    assert!(join_under_root("/docs", "/a\\b").is_none());
    assert!(join_under_root("/docs", "/a%00b").is_none());
}

#[test]
fn join_rejects_invalid_utf8_escapes() {
    assert!(join_under_root("/docs", "/%ff").is_none());
    assert!(join_under_root("/docs", "/%C3%28").is_none());
}

#[test]
fn join_decodes_utf8_escapes() {
    assert_eq!(join_under_root("/docs", "/caf%C3%A9").as_deref(), Some("/docs/café"));
    assert_eq!(join_under_root("/docs", "/a%20b").as_deref(), Some("/docs/a b"));
}

#[test]
fn join_keeps_malformed_escapes_literally() {
    assert_eq!(join_under_root("/docs", "/a%zz").as_deref(), Some("/docs/a%zz"));
    assert_eq!(join_under_root("/docs", "/a%2").as_deref(), Some("/docs/a%2"));
}

#[test]
fn percent_decode_decodes_hex_pairs() {
    let decoded = percent_decode(&b"a%20b%41".to_vec());
    assert_eq!(decoded, b"a bA".to_vec());
    let kept = percent_decode(&b"100%".to_vec());
    assert_eq!(kept, b"100%".to_vec());
}

#[test]
fn containment_respects_component_boundaries() {
    assert!(path_contained("/docs/crate_a/index.html", "/docs"));
    assert!(path_contained("/docs", "/docs"));
    assert!(!path_contained("/docs-other/file", "/docs"));
    assert!(!path_contained("/etc/passwd", "/docs"));
    assert!(path_contained("/anything", "/"));
}

#[test]
fn symlink_target_outside_root_is_rejected() {
    // A symlink inside the root resolving elsewhere yields a canonical
    // path outside the canonical root; the containment check refuses it
    // even though the literal request path looked valid.
    assert!(!path_contained("/home/user/secrets/key", "/docs"));
}
