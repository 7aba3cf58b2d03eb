use abar::cli::Cli;
use abar::color::ParseHexRgbaError;
use abar::config::events::Events;
use abar::config::layout::{Layout, LayoutEntry};
use abar::config::modules::{Clock, Custom, Keyboard, Modules};
use abar::config::{Base as ConfigBase, Config};
use abar::fs::FsView;
use abar::icon::IconLookupMode;
use abar::model::{BarLayout, DisplayMode, Island, Segment};
use abar::modules::workspaces::VisibilityMode;
use abar::settings::{
    Error, Settings, apply_icon_fallbacks_with_dirs, apply_markup_for_workspaces, build_module_configs, resolve,
    workspace_colors_trimmable,
};
use abar::theme::{Base as ThemeBase, Theme, Workspaces as ThemeWorkspaces};

fn cli() -> Cli {
    Cli { config: None, theme: None }
}

fn empty_fs() -> FsView {
    FsView::new(vec![], vec![], vec![])
}

fn config(font: &str, layout: Option<Layout>) -> Config {
    Config {
        base: Some(ConfigBase { font_name: Some(font.to_string()), theme: Some("t.toml".to_string()) }),
        layout,
        modules: None,
        keyboard: None,
        clock: None,
        workspaces: None,
        window: None,
        icons: None,
    }
}

fn empty_layout() -> Layout {
    Layout { left: Some(vec![]), center: Some(vec![]), right: Some(vec![]) }
}

fn resolve_simple(cfg: &Config, theme: &Theme) -> Result<Settings, Error> {
    resolve(&cli(), cfg, theme, &empty_fs(), 14, &vec![], "hicolor")
}

#[test]
fn resolve_uses_config_font_and_theme_colors() {
    let cfg = config("File Font", Some(empty_layout()));
    let theme = Theme {
        base: Some(ThemeBase {
            background_color: Some("#112233FF".to_string()),
            foreground_color: Some("#FFFFFFFF".to_string()),
        }),
        workspaces: None,
    };
    let s = resolve_simple(&cfg, &theme).unwrap();
    assert_eq!(s.font_name(), "File Font");
    assert_eq!(s.colors.background, [0x33, 0x22, 0x11, 255]);
    assert_eq!(s.colors.foreground, [255, 255, 255, 255]);
}

#[test]
fn resolve_builds_layout_with_builtin_modules() {
    let layout = Layout {
        left: Some(vec![LayoutEntry::Module("workspaces".into())]),
        center: Some(vec![LayoutEntry::Module("window".into())]),
        right: Some(vec![
            LayoutEntry::Group(vec!["keyboard".into()]),
            LayoutEntry::Group(vec!["tray".into(), "clock".into()]),
        ]),
    };
    let mut cfg = config("NotoSans Nerd Font", Some(layout));
    cfg.clock = Some(Clock {
        formats: Some(vec!["%R %Z %d.%m.%Y".to_string()]),
        timezones: None,
        events: Some(Events {
            on_left_click: Some("rusti-cal".to_string()),
            on_right_click: None,
            on_middle_click: None,
            on_scroll_up: None,
            on_scroll_down: None,
        }),
    });
    let s = resolve_simple(&cfg, &Theme::default()).unwrap();
    assert!(!s.layout.left.is_empty());
    assert_eq!(s.layout.center.len(), 1);
    assert!(!s.layout.right.is_empty());
    assert_eq!(s.layout.right[1].segments[1].label, "clock");
    assert_eq!(s.layout.right[1].segments[1].module_id, "clock");
    assert_eq!(s.layout.right[1].segments[1].events.on_left_click.as_deref(), Some("rusti-cal"));
    assert_eq!(s.layout.left[0].segments[0].label, "...");
    assert!(s.layout.left[0].segments[0].use_markup);
    let clock = s.modules.clock.unwrap();
    assert_eq!(clock.formats, vec!["%R %Z %d.%m.%Y".to_string()]);
    let ws = s.modules.workspaces.unwrap();
    assert_eq!(ws.active_color.as_deref(), Some("#000000"));
    assert_eq!(ws.visibility_mode, VisibilityMode::AllMonitors);
}

#[test]
fn resolve_falls_back_to_text_for_missing_icon() {
    let seg = Segment::icon_only("mymod", "nonexistent-icon-xyz");
    let mut layout = BarLayout { left: vec![Island { segments: vec![seg] }], ..BarLayout::default() };
    apply_icon_fallbacks_with_dirs(&mut layout, &empty_fs(), 14.0_f64.round() as u32, &vec![], "hicolor", IconLookupMode::Exact);
    let seg = &layout.left[0].segments[0];
    assert_eq!(seg.display_mode, DisplayMode::TextOnly, "should fall back to text");
    assert_eq!(seg.label, "mymod");
}

#[test]
fn icon_fallback_keeps_resolvable_icon() {
    let fs = FsView::new(vec!["/icons/hicolor/48x48/apps/app.png".to_string()], vec![
        "/icons".to_string(),
        "/icons/hicolor".to_string(),
        "/icons/hicolor/48x48".to_string(),
        "/icons/hicolor/48x48/apps".to_string(),
    ], vec![]);
    let mut layout = BarLayout {
        left: vec![Island { segments: vec![Segment::icon_only("m", "app"), Segment::new("t", "text")] }],
        ..BarLayout::default()
    };
    apply_icon_fallbacks_with_dirs(&mut layout, &fs, 48, &vec!["/icons".to_string()], "hicolor", IconLookupMode::PreferTheme);
    assert_eq!(layout.left[0].segments[0].display_mode, DisplayMode::IconOnly);
    assert_eq!(layout.left[0].segments[1].display_mode, DisplayMode::TextOnly);
}

#[test]
fn resolve_rejects_bad_background() {
    let cfg = config("F", None);
    let theme = Theme {
        base: Some(ThemeBase { background_color: Some("161925".to_string()), foreground_color: None }),
        workspaces: None,
    };
    match resolve_simple(&cfg, &theme) {
        Err(e) => assert_eq!(e, Error::InvalidHexRgba(ParseHexRgbaError::InvalidFormat)),
        Ok(_) => panic!("expected an error"),
    }
}

#[test]
fn resolve_defaults_without_tables() {
    let cfg = Config { base: None, layout: None, modules: None, keyboard: None, clock: None, workspaces: None, window: None, icons: None };
    let theme = Theme { base: None, workspaces: None };
    let s = resolve_simple(&cfg, &theme).unwrap();
    assert_eq!(s.font_name, "NotoSans Nerd Font");
    assert_eq!(s.colors.background, [0, 0, 0, 255]);
    assert_eq!(s.colors.foreground, [255, 255, 255, 255]);
    assert!(s.layout.left.is_empty() && s.layout.center.is_empty() && s.layout.right.is_empty());
    assert!(s.modules.clock.is_none() && s.modules.keyboard.is_none());
    assert!(s.modules.window.is_none() && s.modules.mpris.is_none());
}

#[test]
fn resolve_custom_module_without_icon_becomes_text() {
    let mut cfg = config("F", Some(Layout { left: Some(vec![LayoutEntry::Module("power".into())]), center: None, right: None }));
    cfg.modules = Some(Modules {
        custom: Some(vec![Custom { name: "power".into(), icon: "system-shutdown".into(), submenu: vec![], events: None }]),
    });
    let s = resolve_simple(&cfg, &Theme::default()).unwrap();
    let seg = &s.layout.left[0].segments[0];
    assert_eq!(seg.display_mode, DisplayMode::TextOnly);
    assert_eq!(seg.icon_name.as_deref(), Some("system-shutdown"));
    assert_eq!(seg.label, "power");
}

#[test]
fn markup_only_with_workspace_colors() {
    let mut layout = BarLayout {
        left: vec![Island { segments: vec![Segment::new("workspaces", "w"), Segment::new("clock", "c")] }],
        ..BarLayout::default()
    };
    let none = ThemeWorkspaces { visibility_mode: None, active_color: None, inactive_color: None };
    apply_markup_for_workspaces(&mut layout, Some(&none));
    assert!(!layout.left[0].segments[0].use_markup);
    let colored = ThemeWorkspaces { visibility_mode: None, active_color: None, inactive_color: Some("#123456FF".into()) };
    apply_markup_for_workspaces(&mut layout, Some(&colored));
    assert!(layout.left[0].segments[0].use_markup);
    assert!(!layout.left[0].segments[1].use_markup);
}

#[test]
fn build_module_configs_reads_tables() {
    let mut cfg = config("F", None);
    cfg.clock = Some(Clock {
        formats: None,
        timezones: Some(vec!["Asia/Tokyo".into(), "Not/AZone".into(), "Europe/Moscow".into()]),
        events: None,
    });
    cfg.keyboard = Some(Keyboard { command: Some("kb.sh".into()), events: None });
    let theme = Theme {
        base: None,
        workspaces: Some(ThemeWorkspaces {
            visibility_mode: Some("monitor_specific".into()),
            active_color: Some("#00c1e4FF".into()),
            inactive_color: None,
        }),
    };
    let mut layout = BarLayout {
        left: vec![Island { segments: vec![Segment::new("workspaces", "ws")] }],
        ..BarLayout::default()
    };
    let m = build_module_configs(&cfg, &theme, &mut layout);
    let clock = m.clock.unwrap();
    assert_eq!(clock.formats, vec!["%H:%M".to_string()]);
    assert_eq!(clock.timezones, vec![chrono_tz::Tz::Asia__Tokyo, chrono_tz::Tz::Europe__Moscow]);
    assert_eq!(m.keyboard.unwrap().command.as_deref(), Some("kb.sh"));
    let ws = m.workspaces.unwrap();
    assert_eq!(ws.visibility_mode, VisibilityMode::MonitorSpecific);
    assert_eq!(ws.active_color.as_deref(), Some("#00c1e4"));
    assert!(ws.inactive_color.is_none());
    assert_eq!(layout.left[0].segments[0].label, "...");
}

#[test]
fn workspace_colors_check() {
    assert!(workspace_colors_trimmable(&Theme::default()));
    let bad = Theme {
        base: None,
        workspaces: Some(ThemeWorkspaces { visibility_mode: None, active_color: Some("#00000é0".into()), inactive_color: None }),
    };
    assert!(!workspace_colors_trimmable(&bad));
}

#[test]
fn error_messages() {
    assert_eq!(Error::MissingFont.message(), "`[base].font` is required and must be non-empty");
    assert_eq!(Error::LayoutMustBeEmpty("left".into()).message(), "`[layout].left` must be an empty array (no slots yet)");
}
