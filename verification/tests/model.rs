use abar::cli::Cli;
use abar::model::{DisplayMode, Segment, SegmentEvents};

#[test]
fn segment_new_is_text_only() {
    let s = Segment::new("clock", "12:00");
    assert_eq!(s.module_id, "clock");
    assert_eq!(s.label, "12:00");
    assert_eq!(s.display_mode, DisplayMode::TextOnly);
    assert!(s.icon_name.is_none());
    assert_eq!(s.events, SegmentEvents::default());
}

#[test]
fn segment_icon_only_labels_with_module_id() {
    let s = Segment::icon_only("audio", "pavucontrol");
    assert_eq!(s.label, "audio");
    assert_eq!(s.icon_name.as_deref(), Some("pavucontrol"));
    assert_eq!(s.display_mode, DisplayMode::IconOnly);
}

#[test]
fn segment_event_getters() {
    let e = SegmentEvents {
        on_left_click: Some("a".into()),
        on_right_click: Some("b".into()),
        on_middle_click: Some("c".into()),
        on_scroll_up: Some("d".into()),
        on_scroll_down: Some("e".into()),
    };
    assert_eq!(
        (e.on_left_click(), e.on_right_click(), e.on_middle_click(), e.on_scroll_up(), e.on_scroll_down()),
        (Some("a"), Some("b"), Some("c"), Some("d"), Some("e"))
    );
}

#[test]
fn cli_fields() {
    let c = Cli { config: Some("/custom/c.toml".into()), theme: Some("/custom/t.toml".into()) };
    assert_eq!(c.config.as_deref(), Some("/custom/c.toml"));
    assert_eq!(c.theme.as_deref(), Some("/custom/t.toml"));
}
