use cargo_doc_viewer::injector::inject;
use cargo_doc_viewer::injector::revert;
use cargo_doc_viewer::injector::should_skip_file;

#[test]
fn inject_adds_assets_once() {
    let original = "<html><head><title>demo</title></head><body><h1>Hi</h1></body></html>";
    let first = inject(original).expect("first injection should modify");
    assert!(first.contains("<!-- CDV: injected -->"));
    assert!(first.contains("id=\"cdv-style\""));
    assert!(first.contains("id=\"cdv-script\""));

    assert!(inject(&first).is_none(), "second injection should be skipped");
}

#[test]
fn revert_restores_original_content() {
    let original = "<html><head></head><body></body></html>";
    let injected = inject(original).expect("should inject");
    let reverted = revert(&injected).expect("should revert");
    assert_eq!(reverted, original);
}

#[test]
fn inject_skips_documents_without_anchors() {
    assert!(inject("<p>no anchors here</p>").is_none());
    assert!(inject("").is_none());
}

#[test]
fn inject_head_only_document() {
    let original = "<head>x</head> and nothing else";
    let enhanced = inject(original).expect("head anchor should suffice");
    assert!(enhanced.contains("<!-- CDV: injected -->"));
    assert!(enhanced.contains("id=\"cdv-style\""));
    assert!(!enhanced.contains("id=\"cdv-script\""));
    assert_eq!(revert(&enhanced).expect("revert"), original);
}

#[test]
fn inject_body_only_document() {
    let original = "text<body>content</body>";
    let enhanced = inject(original).expect("body anchor should suffice");
    assert!(!enhanced.contains("<!-- CDV: injected -->"));
    assert!(enhanced.contains("id=\"cdv-script\""));
    assert_eq!(revert(&enhanced).expect("revert"), original);
}

#[test]
fn inject_uses_last_anchors() {
    let original = "<head>a</head><head>b</head><body>c</body><body>d</body>";
    let enhanced = inject(original).expect("inject");
    let style_at = enhanced.find("<style id=\"cdv-style\">").expect("style present");
    let second_head = enhanced.rfind("</head>").expect("head kept");
    assert!(style_at < second_head);
    assert!(enhanced.starts_with("<head>a</head><head>b"));
    assert_eq!(revert(&enhanced).expect("revert"), original);
}

#[test]
fn revert_without_markers_reports_no_change() {
    assert!(revert("<html><head></head><body></body></html>").is_none());
    assert!(revert("").is_none());
}

#[test]
fn revert_handles_marker_without_trailing_newline() {
    let text = "a<!-- CDV: injected --><style id=\"cdv-style\">\nx\n</style>\nb";
    let reverted = revert(text).expect("revert should strip the block");
    assert_eq!(reverted, "ab");
}

#[test]
fn should_skip_file_matches_reserved_names() {
    assert!(should_skip_file("search.html"));
    assert!(should_skip_file("SETTINGS.HTML"));
    assert!(should_skip_file("Source-Src.html"));
    assert!(should_skip_file("cdv-crate-overview.html"));
    assert!(!should_skip_file("index.html"));
    assert!(!should_skip_file("search.htm"));
    assert!(!should_skip_file(""));
}
