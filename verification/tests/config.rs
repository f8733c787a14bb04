use cargo_doc_viewer::cli::usage;
use cargo_doc_viewer::cli::CliError;
use cargo_doc_viewer::config::escape_json_for_script;
use cargo_doc_viewer::config::extract_env_ref;
use cargo_doc_viewer::config::is_valid_env_char;
use cargo_doc_viewer::config::AppConfig;
use cargo_doc_viewer::config::EnvSource;

#[test]
fn escape_json_handles_script_closers() {
    let raw = r#"{"text":"</script><script>"}"#;
    let escaped = escape_json_for_script(raw);
    assert!(escaped.contains("<\\/script>"));
    assert!(!escaped.contains("</script>"));
}

#[test]
fn resolves_env_placeholders() {
    let mut cfg = AppConfig::default();
    cfg.api.base_url = "$API_URL".to_string();
    cfg.api.model = "${API_MODEL}".to_string();
    cfg.api.headers.push(("Authorization".to_string(), "$TOKEN".to_string()));

    let env = EnvSource::from_pairs(vec![
        ("API_URL".to_string(), "https://example.com".to_string()),
        ("API_MODEL".to_string(), "gpt-test".to_string()),
        ("TOKEN".to_string(), "abc123".to_string()),
    ]);

    cfg.resolve_env(&env);

    assert_eq!(cfg.api.base_url, "https://example.com");
    assert_eq!(cfg.api.model, "gpt-test");
    assert_eq!(cfg.api.headers[0].1, "abc123");
}

#[test]
fn unknown_placeholder_clears_the_field() {
    let mut cfg = AppConfig::default();
    cfg.ui.language = "$NO_SUCH_VARIABLE_SET".to_string();
    cfg.resolve_env(&EnvSource::from_pairs(Vec::new()));
    assert_eq!(cfg.ui.language, "");
}

#[test]
fn env_references_take_both_spellings() {
    assert_eq!(extract_env_ref("$HOME").as_deref(), Some("HOME"));
    assert_eq!(extract_env_ref("${A_1}").as_deref(), Some("A_1"));
    assert!(extract_env_ref("plain").is_none());
    assert!(extract_env_ref("$").is_none());
    assert!(extract_env_ref("${open").is_none());
    assert!(extract_env_ref("$bad-char").is_none());
    assert!(is_valid_env_char('Z'));
    assert!(is_valid_env_char('_'));
    assert!(!is_valid_env_char('-'));
}

#[test]
fn env_lookup_prefers_earlier_pairs() {
    let env = EnvSource::from_pairs(vec![
        ("KEY".to_string(), "first".to_string()),
        ("KEY".to_string(), "second".to_string()),
    ]);
    assert_eq!(env.lookup("KEY").as_deref(), Some("first"));
    assert!(env.lookup("OTHER").is_none());
}

#[test]
fn normalize_restores_blank_and_zero_fields() {
    let mut cfg = AppConfig::default();
    cfg.api.base_url = "   ".to_string();
    cfg.api.model = "  custom-model ".to_string();
    cfg.api.timeout_ms = 0;
    cfg.context.history_window = 0;
    cfg.context.sanitize_patterns.clear();
    cfg.ui.language = "".to_string();
    cfg.normalize();
    assert_eq!(cfg.api.base_url, "https://api.openai.com/v1");
    assert_eq!(cfg.api.model, "custom-model");
    assert_eq!(cfg.api.timeout_ms, 15_000);
    assert_eq!(cfg.context.history_window, 6);
    assert_eq!(cfg.context.sanitize_patterns.len(), 1);
    assert_eq!(cfg.context.sanitize_patterns[0].replacement, "[redacted]");
    assert_eq!(cfg.ui.language, "auto");
}

#[test]
fn blank_fields_include_unicode_whitespace() {
    let mut cfg = AppConfig::default();
    cfg.ui.language = "\u{00A0}\u{2002}".to_string();
    cfg.api.model = "\u{3000}folded\u{3000}".to_string();
    cfg.normalize();
    assert_eq!(cfg.ui.language, "auto");
    assert_eq!(cfg.api.model, "folded");
}

#[test]
fn usage_names_every_command() {
    let text = usage();
    assert!(text.contains("serve"));
    assert!(text.contains("enhance"));
    assert!(text.contains("revert"));
    assert!(text.contains("--doc-dir"));
}

#[test]
fn cli_error_keeps_its_message() {
    let err = CliError::new("unexpected positional argument: x".to_string());
    assert_eq!(err.message(), "unexpected positional argument: x");
}
