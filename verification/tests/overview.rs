use cargo_doc_viewer::overview::extract_crate_info;
use cargo_doc_viewer::overview::extract_description;
use cargo_doc_viewer::overview::extract_version;
use cargo_doc_viewer::overview::generate_crate_card_html;
use cargo_doc_viewer::overview::generate_overview_html;
use cargo_doc_viewer::overview::is_excluded_dir;
use cargo_doc_viewer::overview::sort_crates;
use cargo_doc_viewer::overview::strip_html_tags;
use cargo_doc_viewer::overview::CrateInfo;

fn sample(name: &str) -> CrateInfo {
    CrateInfo {
        name: name.to_string(),
        description: format!("docs for {}", name),
        version: None,
        path: format!("{}/index.html", name),
    }
}

#[test]
fn sort_orders_packages_by_name() {
    let input = vec![sample("zeta"), sample("alpha"), sample("mid")];
    let sorted = sort_crates(input);
    let names: Vec<&str> = sorted.iter().map(|c| c.name.as_str()).collect();
    assert_eq!(names, vec!["alpha", "mid", "zeta"]);
}

#[test]
fn catalog_order_is_independent_of_enumeration_order() {
    let one = sort_crates(vec![sample("zeta"), sample("alpha"), sample("mid")]);
    let two = sort_crates(vec![sample("mid"), sample("zeta"), sample("alpha")]);
    let names_one: Vec<&str> = one.iter().map(|c| c.name.as_str()).collect();
    let names_two: Vec<&str> = two.iter().map(|c| c.name.as_str()).collect();
    assert_eq!(names_one, names_two);
    assert_eq!(generate_overview_html(&one), generate_overview_html(&two));
}

#[test]
fn overview_rendering_is_deterministic() {
    let crates = sort_crates(vec![sample("alpha"), sample("beta")]);
    let first = generate_overview_html(&crates);
    let second = generate_overview_html(&crates);
    assert_eq!(first, second);
    assert!(first.contains("alpha"));
    assert!(first.contains("beta/index.html"));
}

#[test]
fn overview_renders_empty_state() {
    let page = generate_overview_html(&Vec::new());
    assert!(page.contains("empty-state"));
    assert!(!page.contains("<div class=\"crates-grid\">"));
}

#[test]
fn excluded_directories_are_not_packages() {
    assert!(is_excluded_dir("static.files"));
    assert!(is_excluded_dir("src"));
    assert!(is_excluded_dir("implementors"));
    assert!(is_excluded_dir("help.html"));
    assert!(!is_excluded_dir("serde"));
    assert!(!is_excluded_dir("Src"));
}

#[test]
fn description_prefers_meta_tag() {
    let html = "<meta name=\"description\" content=\"A fine crate\"><div class=\"docblock\"><p>other</p></div>";
    assert_eq!(extract_description(html).as_deref(), Some("A fine crate"));
}

#[test]
fn description_falls_back_to_docblock() {
    let html = "<div class=\"docblock\"><p>  Uses <code>&lt;T&gt;</code> &amp; more  </p></div>";
    assert_eq!(extract_description(html).as_deref(), Some("Uses <T> & more"));
    assert!(extract_description("<p>no markers</p>").is_none());
}

#[test]
fn strip_html_tags_drops_tags_and_decodes_entities() {
    assert_eq!(strip_html_tags("  <b>bold</b> &quot;q&quot; "), "bold \"q\"");
    assert_eq!(strip_html_tags("<a href=x>link</a>"), "link");
}

#[test]
fn strip_html_tags_trims_unicode_whitespace() {
    assert_eq!(strip_html_tags("\u{000B}x"), "x");
    assert_eq!(strip_html_tags("\u{00A0}\u{2003}y\u{3000}"), "y");
    assert_eq!(strip_html_tags("\u{000C}<i>z</i>\u{0085}"), "z");
}

#[test]
fn version_accepts_numeric_suffix_only() {
    assert_eq!(extract_version("<title>serde-1.0.200</title>").as_deref(), Some("1.0.200"));
    assert!(extract_version("<title>serde - 1.0.200</title>").is_none());
    assert!(extract_version("<title>serde-beta</title>").is_none());
    assert!(extract_version("<title>serde</title>").is_none());
    assert!(extract_version("no title").is_none());
}

#[test]
fn crate_info_carries_name_description_and_path() {
    let html = "<title>demo-0.3.1</title><meta name=\"description\" content=\"Demo crate\">";
    let info = extract_crate_info("demo", html);
    assert_eq!(info.name, "demo");
    assert_eq!(info.description, "Demo crate");
    assert_eq!(info.version.as_deref(), Some("0.3.1"));
    assert_eq!(info.path, "demo/index.html");
}

#[test]
fn crate_info_uses_placeholder_description() {
    let info = extract_crate_info("bare", "<html></html>");
    assert_eq!(info.description, "Rust crate documentation");
    assert!(info.version.is_none());
}

#[test]
fn card_shows_version_badge_when_present() {
    let with_version = CrateInfo {
        name: "demo".to_string(),
        description: "Demo crate".to_string(),
        version: Some("0.3.1".to_string()),
        path: "demo/index.html".to_string(),
    };
    let card = generate_crate_card_html(&with_version);
    assert!(card.contains("<span class=\"crate-version\">v0.3.1</span>"));
    assert!(card.contains("href=\"demo/index.html\""));
    let without = generate_crate_card_html(&sample("plain"));
    assert!(!without.contains("crate-version"));
}
