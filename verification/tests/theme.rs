use std::path::PathBuf;

use abar::color::{ParseHexRgbaError, parse_hex_rgba_to_bgra};
use abar::fs::FsView;
use abar::theme::{Base, Theme, Workspaces, resolve_path};

fn theme_with_colors(bg: &str, fg: &str) -> Theme {
    Theme {
        base: Some(Base { background_color: Some(bg.to_string()), foreground_color: Some(fg.to_string()) }),
        workspaces: None,
    }
}

#[test]
fn parse_example_theme_colors() {
    let t = theme_with_colors("#161925FF", "#c74dedFF");
    let bg = t.base.as_ref().and_then(|b| b.background_color.as_deref()).unwrap();
    let px = parse_hex_rgba_to_bgra(bg).unwrap();
    assert_eq!(px, [0x25, 0x19, 0x16, 255]);
}

#[test]
fn rejects_bad_hex_in_settings_path() {
    let t = theme_with_colors("161925", "#FFFFFFFF");
    let bg = t.base.as_ref().and_then(|b| b.background_color.clone()).unwrap_or_default();
    assert_eq!(parse_hex_rgba_to_bgra(&bg), Err(ParseHexRgbaError::InvalidFormat));
}

#[test]
fn resolve_prefers_themes_subdir_next_to_config() {
    let dir = PathBuf::from("/tmp/cfgdir");
    let config = dir.join("config.toml");
    let themes = dir.join("themes");
    let theme_file = themes.join("theme.toml");
    let fs = FsView::new(
        vec![theme_file.to_string_lossy().into_owned()],
        vec![dir.to_string_lossy().into_owned(), themes.to_string_lossy().into_owned()],
        vec![],
    );
    let resolved = resolve_path(&fs, &config.to_string_lossy(), "theme.toml");
    assert_eq!(PathBuf::from(resolved), theme_file);
}

#[test]
fn resolve_absolute_theme_path() {
    let dir = PathBuf::from("/tmp/cfgdir");
    let theme = dir.join("custom.toml");
    let config = dir.join("config.toml");
    let fs = FsView::new(vec![theme.to_string_lossy().into_owned()], vec![dir.to_string_lossy().into_owned()], vec![]);
    let resolved = resolve_path(&fs, &config.to_string_lossy(), theme.to_str().unwrap());
    assert_eq!(PathBuf::from(resolved), theme);
}

#[test]
fn resolve_prefers_file_next_to_config() {
    let fs = FsView::new(
        vec!["/c/t.toml".to_string(), "/c/themes/t.toml".to_string()],
        vec!["/c".to_string(), "/c/themes".to_string()],
        vec![],
    );
    assert_eq!(resolve_path(&fs, "/c/config.toml", "t.toml"), "/c/t.toml");
}

#[test]
fn resolve_relative_config_without_directory() {
    let fs = FsView::new(vec![], vec![], vec![]);
    assert_eq!(resolve_path(&fs, "config.toml", "t.toml"), "themes/t.toml");
    assert_eq!(resolve_path(&fs, "/", "t.toml"), "./themes/t.toml");
}

#[test]
fn default_theme_has_black_background_and_white_foreground() {
    let t = Theme::default();
    let base = t.base.unwrap();
    assert_eq!(base.background_color.as_deref(), Some("#000000FF"));
    assert_eq!(base.foreground_color.as_deref(), Some("#FFFFFFFF"));
}

#[test]
fn default_theme_workspaces_table() {
    let w = Workspaces::default();
    assert_eq!(w.visibility_mode.as_deref(), Some(""));
    assert_eq!(w.active_color.as_deref(), Some("#00000000"));
    assert_eq!(w.inactive_color.as_deref(), Some("#00000000"));
}
