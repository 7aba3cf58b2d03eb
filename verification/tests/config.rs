use std::path::PathBuf;

use abar::config::events::{Events, apply_module_events, events_for_module};
use abar::config::layout::{Layout, LayoutEntry};
use abar::config::modules::{Clock, Custom, Modules, Workspaces};
use abar::config::{Base, Config, Icons, config_dir_from_env, default_config_path};
use abar::icon::IconLookupMode;
use abar::model::{BarLayout, DisplayMode, Island, Segment};

fn events_left(cmd: &str) -> Events {
    Events {
        on_left_click: Some(cmd.to_string()),
        on_right_click: None,
        on_middle_click: None,
        on_scroll_up: None,
        on_scroll_down: None,
    }
}

fn empty_config() -> Config {
    Config {
        base: None,
        layout: None,
        modules: None,
        keyboard: None,
        clock: None,
        workspaces: None,
        window: None,
        icons: None,
    }
}

fn example_config() -> Config {
    let mut cfg = empty_config();
    cfg.base = Some(Base { font_name: Some("NotoSans Nerd Font".to_string()), theme: None });
    cfg.modules = Some(Modules {
        custom: Some(vec![Custom {
            name: "system_info".to_string(),
            icon: "utilities-system-monitor".to_string(),
            submenu: vec![],
            events: Some(events_left("$TERMINAL -e btm")),
        }]),
    });
    cfg.clock = Some(Clock {
        formats: Some(vec!["%R %Z %d.%m.%Y".to_string()]),
        timezones: Some(vec!["Asia/Tokyo".to_string(), "Europe/Moscow".to_string()]),
        events: Some(events_left("$TERMINAL -e calendar-tui")),
    });
    cfg.workspaces = Some(Workspaces { command: None, events: None });
    cfg
}

#[test]
fn default_config_has_base_and_layout() {
    let cfg = Config::default();
    let base = cfg.base.unwrap();
    assert_eq!(base.font_name.as_deref(), Some("NotoSans Nerd Font"));
    assert_eq!(base.theme.as_deref(), Some("theme.toml"));
    let layout = cfg.layout.unwrap();
    assert!(layout.left.is_none() && layout.center.is_none() && layout.right.is_none());
}

#[test]
fn config_dir_uses_xdg_config_home() {
    let dir = config_dir_from_env(Some("/custom/config"), None);
    assert_eq!(PathBuf::from(dir), PathBuf::from("/custom/config/abar"));
}

#[test]
fn config_dir_falls_back_to_home_dot_config() {
    let dir = config_dir_from_env(None, Some("/home/user"));
    assert_eq!(PathBuf::from(dir), PathBuf::from("/home/user/.config/abar"));
}

#[test]
fn config_dir_ignores_empty_xdg_and_uses_home() {
    let dir = config_dir_from_env(Some(""), Some("/home/user"));
    assert_eq!(PathBuf::from(dir), PathBuf::from("/home/user/.config/abar"));
}

#[test]
fn config_dir_falls_back_to_relative_when_no_env() {
    let dir = config_dir_from_env(None, None);
    assert_eq!(PathBuf::from(dir), PathBuf::from(".config/abar"));
}

#[test]
fn default_config_path_appends_config_toml() {
    let dir = config_dir_from_env(Some("/cfg"), None);
    assert_eq!(PathBuf::from(dir).join("config.toml"), PathBuf::from("/cfg/abar/config.toml"));
    assert_eq!(
        PathBuf::from(default_config_path(Some("/cfg"), None)),
        PathBuf::from("/cfg/abar/config.toml")
    );
}

#[test]
fn config_dir_handles_trailing_slash() {
    assert_eq!(config_dir_from_env(Some("/x/"), None), "/x/abar");
    assert_eq!(config_dir_from_env(None, Some("/")), "/.config/abar");
}

#[test]
fn to_bar_layout_uses_builtin_segment_labels() {
    let layout = Layout {
        left: Some(vec![LayoutEntry::Module("keyboard".into())]),
        center: Some(vec![LayoutEntry::Module("workspaces".into())]),
        right: Some(vec![LayoutEntry::Module("clock".into())]),
    };
    let bar = layout.to_bar_layout(None);
    assert_eq!(bar.left[0].segments[0].label, "kb");
    assert_eq!(bar.center[0].segments[0].label, "ws");
    assert_eq!(bar.right[0].segments[0].label, "clock");
}

#[test]
fn to_bar_layout_nested_group_is_one_island() {
    let layout = Layout {
        right: Some(vec![LayoutEntry::Group(vec!["tray".into(), "clock".into()])]),
        ..Layout::default()
    };
    let bar = layout.to_bar_layout(None);
    assert_eq!(bar.right.len(), 1);
    assert_eq!(bar.right[0].segments.len(), 2);
    assert_eq!(bar.right[0].segments[0].module_id, "tray");
    assert_eq!(bar.right[0].segments[0].label, "tray");
    assert_eq!(bar.right[0].segments[1].label, "clock");
}

#[test]
fn to_bar_layout_custom_module_is_icon_only() {
    let cfg = example_config();
    let layout = Layout {
        left: Some(vec![LayoutEntry::Module("system_info".into())]),
        center: None,
        right: Some(vec![LayoutEntry::Module("other".into())]),
    };
    let bar = layout.to_bar_layout(cfg.modules.as_ref());
    let seg = &bar.left[0].segments[0];
    assert_eq!(seg.display_mode, DisplayMode::IconOnly);
    assert_eq!(seg.icon_name.as_deref(), Some("utilities-system-monitor"));
    assert_eq!(seg.label, "system_info");
    assert!(bar.center.is_empty());
    assert_eq!(bar.right[0].segments[0].label, "other");
    assert_eq!(bar.right[0].segments[0].display_mode, DisplayMode::TextOnly);
}

#[test]
fn events_for_module_reads_builtin_and_custom_tables() {
    let cfg = example_config();
    assert_eq!(
        events_for_module(&cfg, "clock").on_left_click.as_deref(),
        Some("$TERMINAL -e calendar-tui")
    );
    assert_eq!(
        events_for_module(&cfg, "system_info").on_left_click.as_deref(),
        Some("$TERMINAL -e btm")
    );
    assert!(events_for_module(&cfg, "workspaces").on_left_click.is_none());
}

#[test]
fn custom_by_name_finds_first_match() {
    let cfg = example_config();
    let m = cfg.modules.as_ref().unwrap();
    assert_eq!(m.custom_by_name("system_info").unwrap().icon, "utilities-system-monitor");
    assert!(m.custom_by_name("missing").is_none());
    assert!(Modules { custom: None }.custom_by_name("system_info").is_none());
}

#[test]
fn layout_module_names_in_order() {
    let layout = Layout {
        left: Some(vec![LayoutEntry::Module("a".into())]),
        center: Some(vec![LayoutEntry::Group(vec!["b".into(), "c".into()])]),
        right: Some(vec![LayoutEntry::Module("d".into())]),
    };
    assert_eq!(layout.module_names_in_order(), vec!["a", "b", "c", "d"]);
}

#[test]
fn module_names_of_entries() {
    assert_eq!(LayoutEntry::Module("x".into()).module_names(), &["x".to_string()]);
    assert_eq!(
        LayoutEntry::Group(vec!["p".into(), "q".into()]).module_names(),
        &["p".to_string(), "q".to_string()]
    );
}

#[test]
fn bar_ids_follow_module_names_in_order() {
    let layout = Layout {
        left: Some(vec![LayoutEntry::Module("a".into())]),
        center: Some(vec![LayoutEntry::Group(vec!["b".into(), "c".into()])]),
        right: Some(vec![LayoutEntry::Module("d".into())]),
    };
    let bar = layout.to_bar_layout(None);
    let mut ids = Vec::new();
    for island in bar.left.iter().chain(bar.center.iter()).chain(bar.right.iter()) {
        for seg in &island.segments {
            ids.push(seg.module_id.clone());
        }
    }
    assert_eq!(ids, layout.module_names_in_order());
}

#[test]
fn apply_module_events_sets_each_segment() {
    let cfg = example_config();
    let mut layout = BarLayout {
        left: vec![Island { segments: vec![Segment::new("clock", "c"), Segment::new("other", "o")] }],
        center: vec![],
        right: vec![Island { segments: vec![Segment::icon_only("system_info", "x")] }],
    };
    apply_module_events(&mut layout, &cfg);
    assert_eq!(layout.left[0].segments[0].events.on_left_click.as_deref(), Some("$TERMINAL -e calendar-tui"));
    assert!(layout.left[0].segments[1].events.on_left_click.is_none());
    assert_eq!(layout.right[0].segments[0].events.on_left_click.as_deref(), Some("$TERMINAL -e btm"));
    assert_eq!(layout.left[0].segments[0].label, "c");
}

#[test]
fn icon_lookup_mode_from_config() {
    let mut cfg = empty_config();
    assert_eq!(cfg.lookup_mode(), IconLookupMode::Exact);
    cfg.icons = Some(Icons { prefer: Some("theme".into()) });
    assert_eq!(cfg.lookup_mode(), IconLookupMode::PreferTheme);
    cfg.icons = Some(Icons { prefer: Some("exact".into()) });
    assert_eq!(cfg.lookup_mode(), IconLookupMode::Exact);
    cfg.icons = Some(Icons { prefer: None });
    assert_eq!(cfg.lookup_mode(), IconLookupMode::Exact);
}
