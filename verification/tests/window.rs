use abar::modules::ScriptLine;
use abar::modules::window::{WindowConfig, truncate_title, truncated_update};

#[test]
fn short_title_unchanged() {
    assert_eq!(truncate_title("Hello", 10), "Hello");
}

#[test]
fn exact_length_unchanged() {
    assert_eq!(truncate_title("Hello", 5), "Hello");
}

#[test]
fn long_title_truncated_with_ellipsis() {
    assert_eq!(truncate_title("Hello, world!", 5), "Hello…");
}

#[test]
fn zero_max_length_means_no_limit() {
    let long = "a".repeat(1000);
    assert_eq!(truncate_title(&long, 0), long);
}

#[test]
fn unicode_scalar_values_counted_not_bytes() {
    assert_eq!(truncate_title("日本語テスト", 3), "日本語…");
    assert_eq!(truncate_title("日本語", 3), "日本語");
}

#[test]
fn empty_title_unchanged() {
    assert_eq!(truncate_title("", 10), "");
    assert_eq!(truncate_title("", 0), "");
}

#[test]
fn window_default_limit_is_fifty() {
    assert_eq!(WindowConfig::default().max_length, 50);
}

#[test]
fn truncated_update_keeps_markup_and_icon() {
    let line = ScriptLine { text: "abcdef".to_string(), markup: true, icon: Some("x".to_string()) };
    let u = truncated_update("window", line, 3);
    assert_eq!(u.module_id, "window");
    assert_eq!(u.text, "abc…");
    assert!(u.use_markup);
    assert_eq!(u.icon.as_deref(), Some("x"));
}
