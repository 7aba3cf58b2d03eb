use std::path::{Path, PathBuf};

use abar::fs::FsView;
use abar::icon::{IconLookupMode, absolute_candidates, default_search_dirs, parse_dir_section, parse_dir_size, resolve_icon};

/// A file-system view holding `files` (with the texts of `texts`) and every directory above
/// them, up to the root, in sorted order.
fn fs_with(files: &[String], texts: &[(String, String)]) -> FsView {
    let mut dirs: Vec<String> = Vec::new();
    for f in files.iter().chain(texts.iter().map(|t| &t.0)) {
        let mut p = PathBuf::from(f);
        while let Some(parent) = p.parent().map(Path::to_path_buf) {
            let d = parent.to_string_lossy().into_owned();
            if d.is_empty() {
                break;
            }
            if !dirs.contains(&d) {
                dirs.push(d);
            }
            p = parent;
        }
    }
    dirs.sort();
    let mut all: Vec<String> = files.to_vec();
    for t in texts {
        all.push(t.0.clone());
    }
    FsView::new(all, dirs, texts.to_vec())
}

fn at(base: &Path, rel: &str) -> String {
    base.join(rel).to_string_lossy().into_owned()
}

fn fixture_base() -> PathBuf {
    PathBuf::from("/tmp/fixture/icons")
}

fn fixture_theme_dir() -> (FsView, PathBuf) {
    let base = fixture_base();
    let fs = fs_with(&[at(&base, "hicolor/48x48/apps/test-icon.png")], &[]);
    (fs, base)
}

fn dirs_of(base: &Path) -> Vec<String> {
    vec![base.to_string_lossy().into_owned()]
}

#[test]
fn resolve_finds_icon_in_hicolor() {
    let (fs, base) = fixture_theme_dir();
    let result = resolve_icon(&fs, "test-icon", 48, &dirs_of(&base), "hicolor", IconLookupMode::Exact);
    assert!(result.is_some(), "expected to resolve test-icon");
    assert_eq!(PathBuf::from(result.unwrap()), base.join("hicolor").join("48x48").join("apps").join("test-icon.png"));
}

#[test]
fn resolve_returns_none_for_missing_icon() {
    let (fs, base) = fixture_theme_dir();
    let result = resolve_icon(&fs, "nonexistent-icon", 48, &dirs_of(&base), "hicolor", IconLookupMode::Exact);
    assert!(result.is_none());
}

#[test]
fn resolve_falls_back_to_hicolor_from_other_theme() {
    let (fs, base) = fixture_theme_dir();
    let result = resolve_icon(&fs, "test-icon", 48, &dirs_of(&base), "Papirus", IconLookupMode::Exact);
    assert!(result.is_some(), "should fall back to hicolor");
}

#[test]
fn resolve_finds_icon_in_category_first_theme() {
    let base = fixture_base();
    let index_content = "[Icon Theme]\nName=mytheme\nDirectories=apps/scalable\n\n[apps/scalable]\nSize=96\nType=Scalable\nMinSize=8\nMaxSize=512\n";
    let fs = fs_with(
        &[at(&base, "mytheme/apps/scalable/discord.png")],
        &[(at(&base, "mytheme/index.theme"), index_content.to_string())],
    );
    let result = resolve_icon(&fs, "discord", 24, &dirs_of(&base), "mytheme", IconLookupMode::Exact);
    assert!(result.is_some(), "should find discord icon via index.theme Directories");
    assert!(result.unwrap().ends_with("discord.png"));
}

#[test]
fn resolve_follows_inherits_from_index_theme() {
    let base = fixture_base();
    let index_content = "[Icon Theme]\nName=child-theme\nInherits=parent-theme,hicolor\nDirectories=\n";
    let fs = fs_with(
        &[at(&base, "parent-theme/48x48/apps/myapp.png")],
        &[(at(&base, "child-theme/index.theme"), index_content.to_string())],
    );
    let result = resolve_icon(&fs, "myapp", 48, &dirs_of(&base), "child-theme", IconLookupMode::Exact);
    assert!(result.is_some(), "should find icon via inherited parent-theme");
}

#[test]
fn resolve_strips_trailing_hyphen_segments() {
    let base = fixture_base();
    let index_content = "[Icon Theme]\nName=mytheme\nDirectories=apps/scalable\n\n[apps/scalable]\nSize=96\nType=Scalable\n";
    let fs = fs_with(
        &[at(&base, "mytheme/apps/scalable/org.telegram.desktop.png")],
        &[(at(&base, "mytheme/index.theme"), index_content.to_string())],
    );
    let result = resolve_icon(
        &fs,
        "org.telegram.desktop-mute-symbolic",
        24,
        &dirs_of(&base),
        "mytheme",
        IconLookupMode::PreferTheme,
    );
    assert!(result.is_some(), "should find icon after stripping -mute-symbolic");
    assert!(result.unwrap().ends_with("org.telegram.desktop.png"), "should resolve to org.telegram.desktop.png");
}

#[test]
fn resolve_prefers_primary_theme_stripped_over_hicolor_exact() {
    let base = fixture_base();
    let index = "[Icon Theme]\nName=mytheme\nDirectories=apps/scalable\n\n[apps/scalable]\nSize=96\nType=Scalable\n";
    let fs = fs_with(
        &[
            at(&base, "mytheme/apps/scalable/org.telegram.desktop.png"),
            at(&base, "hicolor/scalable/apps/org.telegram.desktop-mute-symbolic.png"),
        ],
        &[(at(&base, "mytheme/index.theme"), index.to_string())],
    );
    let result = resolve_icon(
        &fs,
        "org.telegram.desktop-mute-symbolic",
        24,
        &dirs_of(&base),
        "mytheme",
        IconLookupMode::PreferTheme,
    );
    assert!(result.is_some());
    let path = result.unwrap();
    assert!(path.contains("mytheme"), "PreferTheme: expected primary theme icon, got: {}", path);

    let result = resolve_icon(
        &fs,
        "org.telegram.desktop-mute-symbolic",
        24,
        &dirs_of(&base),
        "mytheme",
        IconLookupMode::Exact,
    );
    assert!(result.is_some());
    let path = result.unwrap();
    assert!(path.contains("hicolor"), "Exact: expected hicolor icon, got: {}", path);
}

#[test]
fn resolve_finds_svg_icon() {
    let base = fixture_base();
    let fs = fs_with(&[at(&base, "hicolor/scalable/apps/test-svg-icon.svg")], &[]);
    let result = resolve_icon(&fs, "test-svg-icon", 24, &dirs_of(&base), "hicolor", IconLookupMode::Exact);
    assert!(result.is_some());
    assert_eq!(PathBuf::from(result.unwrap()).extension().unwrap(), "svg");
}

#[test]
fn resolve_prefers_png_over_svg_in_one_directory() {
    let base = fixture_base();
    let fs = fs_with(&[at(&base, "hicolor/48x48/apps/both.svg"), at(&base, "hicolor/48x48/apps/both.png")], &[]);
    let r = resolve_icon(&fs, "both", 48, &dirs_of(&base), "hicolor", IconLookupMode::Exact);
    assert!(r.unwrap().ends_with("both.png"));
}

#[test]
fn resolve_absolute_name_tries_extensions() {
    let fs = fs_with(&["/opt/app/logo.svg".to_string()], &[]);
    let r = resolve_icon(&fs, "/opt/app/logo", 24, &vec![], "hicolor", IconLookupMode::PreferTheme);
    assert_eq!(r.as_deref(), Some("/opt/app/logo.svg"));
    assert!(resolve_icon(&fs, "/opt/app/nothing", 24, &vec![], "hicolor", IconLookupMode::PreferTheme).is_none());
}

#[test]
fn resolve_uses_pixmaps_last() {
    let fs = fs_with(&["/usr/share/pixmaps/old.png".to_string()], &[]);
    let r = resolve_icon(&fs, "old", 24, &dirs_of(&fixture_base()), "hicolor", IconLookupMode::PreferTheme);
    assert_eq!(r.as_deref(), Some("/usr/share/pixmaps/old.png"));
}

#[test]
fn absolute_candidates_in_order() {
    assert_eq!(absolute_candidates("/a/b"), vec!["/a/b", "/a/b.png", "/a/b.svg"]);
}

#[test]
fn parse_dir_section_reads_size_and_type() {
    let content = "[Icon Theme]\nDirectories=apps/48,apps/scalable\n\n[apps/48]\nSize=48\nType=Fixed\n\n[apps/scalable]\nSize=96\nType=Scalable\n";
    assert_eq!(parse_dir_section(content, "[apps/48]"), (48, false));
    assert_eq!(parse_dir_section(content, "[apps/scalable]"), (96, true));
}

#[test]
fn parse_dir_size_forms() {
    assert_eq!(parse_dir_size("48x48"), Some(48));
    assert_eq!(parse_dir_size("scalable"), Some(u32::MAX));
    assert_eq!(parse_dir_size("apps"), None);
}

#[test]
fn default_search_dirs_from_env_values() {
    assert_eq!(
        default_search_dirs(Some("/home/u"), None),
        vec!["/home/u/.local/share/icons", "/usr/local/share/icons", "/usr/share/icons"]
    );
    assert_eq!(default_search_dirs(None, Some("/a::/b")), vec!["/a/icons", "/b/icons"]);
    assert!(default_search_dirs(None, Some("")).is_empty());
}

#[test]
fn resolve_ignores_files_outside_the_theme_layers() {
    let base = fixture_base();
    // Files of the name outside any theme directory, in a theme that is not a layer, and
    // three levels down, are never returned.
    let fs = fs_with(
        &[
            at(&base, "app.png"),
            at(&base, "Other/48x48/apps/app.png"),
            at(&base, "hicolor/48x48/apps/deep/app.png"),
            "/usr/share/pixmaps/app-extra.png".to_string(),
        ],
        &[],
    );
    let r = resolve_icon(&fs, "app", 48, &dirs_of(&base), "hicolor", IconLookupMode::PreferTheme);
    assert_eq!(r, None);
    // A shortened variant is looked up in the themes, never in pixmaps.
    let r = resolve_icon(&fs, "app-extra-thing", 48, &dirs_of(&base), "hicolor", IconLookupMode::Exact);
    assert_eq!(r, None);
}
