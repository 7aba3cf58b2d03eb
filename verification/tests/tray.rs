use abar::model::{BarLayout, DisplayMode, Island, Segment, SegmentEvents};
use abar::modules::tray::{MinimalTrayItem, Region, TrayItemStatus, TraySlot, apply_tray_segments, tray_segment, tray_segments};

fn item(app_id: &str, status: TrayItemStatus) -> MinimalTrayItem {
    MinimalTrayItem {
        app_id: app_id.to_string(),
        title: None,
        status,
        icon_handle: None,
        category: None,
        item_is_menu: false,
        tooltip_title: None,
        tooltip_description: None,
        overlay_icon_handle: None,
    }
}

fn events() -> SegmentEvents {
    SegmentEvents {
        on_left_click: Some("tray-menu.sh".into()),
        on_right_click: None,
        on_middle_click: None,
        on_scroll_up: None,
        on_scroll_down: None,
    }
}

#[test]
fn tray_segment_feeds_app_id() {
    let mut it = item("nm-applet", TrayItemStatus::Active);
    it.title = Some("Network".into());
    let seg = tray_segment(&it, Some("network-wireless".into()), None, &events(), true);
    assert_eq!(seg.module_id, "tray:nm-applet");
    assert_eq!(seg.label, "Network");
    assert_eq!(seg.display_mode, DisplayMode::IconOnly);
    assert_eq!(seg.events.on_left_click.as_deref(), Some("tray-menu.sh nm-applet"));
    let plain = tray_segment(&it, None, Some("badge".into()), &events(), false);
    assert_eq!(plain.display_mode, DisplayMode::TextOnly);
    assert!(plain.overlay_icon_name.is_none());
    assert_eq!(plain.events.on_left_click.as_deref(), Some("tray-menu.sh"));
}

#[test]
fn tray_segments_skip_passive_items() {
    let items = vec![item("a", TrayItemStatus::Active), item("b", TrayItemStatus::Passive), item("c", TrayItemStatus::NeedsAttention)];
    let segs = tray_segments(&items, &vec![None, None, Some("c-icon".into())], &vec![None, None, None], &events(), false);
    let ids: Vec<&str> = segs.iter().map(|s| s.module_id.as_str()).collect();
    assert_eq!(ids, vec!["tray:a", "tray:c"]);
    assert_eq!(segs[1].icon_name.as_deref(), Some("c-icon"));
}

#[test]
fn apply_tray_segments_replaces_tray_span() {
    let mut layout = BarLayout {
        left: vec![Island { segments: vec![Segment::new("ws", "w")] }],
        center: vec![],
        right: vec![Island { segments: vec![Segment::new("kb", "k"), Segment::new("tray", "tray"), Segment::new("clock", "c")] }],
    };
    let new = vec![Segment::new("tray:x", "x"), Segment::new("tray:y", "y")];
    let mut slot = None;
    assert!(apply_tray_segments(&mut layout, new, &mut slot));
    assert_eq!(slot, Some(TraySlot { region: Region::Right, island: 0, start: 1 }));
    let ids: Vec<&str> = layout.right[0].segments.iter().map(|s| s.module_id.as_str()).collect();
    assert_eq!(ids, vec!["kb", "tray:x", "tray:y", "clock"]);
    assert!(apply_tray_segments(&mut layout, vec![Segment::new("tray:z", "z")], &mut slot));
    let ids: Vec<&str> = layout.right[0].segments.iter().map(|s| s.module_id.as_str()).collect();
    assert_eq!(ids, vec!["kb", "tray:z", "clock"]);
}

#[test]
fn apply_tray_segments_without_slot_is_noop() {
    let mut layout = BarLayout { left: vec![Island { segments: vec![Segment::new("ws", "w")] }], ..BarLayout::default() };
    let before = layout.clone();
    let mut slot = None;
    assert!(!apply_tray_segments(&mut layout, vec![Segment::new("tray:x", "x")], &mut slot));
    assert_eq!(layout, before);
    assert_eq!(slot, None);
}

#[test]
fn emptied_tray_comes_back_in_its_place() {
    let mut layout = BarLayout {
        left: vec![],
        center: vec![Island { segments: vec![Segment::new("a", "a"), Segment::new("tray", "tray"), Segment::new("b", "b")] }],
        right: vec![],
    };
    let mut slot = None;
    assert!(apply_tray_segments(&mut layout, vec![], &mut slot));
    let ids: Vec<&str> = layout.center[0].segments.iter().map(|s| s.module_id.as_str()).collect();
    assert_eq!(ids, vec!["a", "b"]);
    assert!(apply_tray_segments(&mut layout, vec![Segment::new("tray:n", "n")], &mut slot));
    let ids: Vec<&str> = layout.center[0].segments.iter().map(|s| s.module_id.as_str()).collect();
    assert_eq!(ids, vec!["a", "tray:n", "b"]);
}

#[test]
fn stale_tray_slot_is_ignored() {
    let mut layout = BarLayout { left: vec![Island { segments: vec![Segment::new("a", "a")] }], ..BarLayout::default() };
    let mut slot = Some(TraySlot { region: Region::Left, island: 3, start: 0 });
    let before = layout.clone();
    assert!(!apply_tray_segments(&mut layout, vec![Segment::new("tray:n", "n")], &mut slot));
    assert_eq!(layout, before);
}

#[test]
fn tray_run_comes_back_between_its_neighbours() {
    let mut layout = BarLayout {
        left: vec![Island { segments: vec![Segment::new("x", "x")] }],
        center: vec![
            Island { segments: vec![Segment::new("y", "y")] },
            Island {
                segments: vec![
                    Segment::new("a", "a"),
                    Segment::new("tray:p", "p"),
                    Segment::new("tray:q", "q"),
                    Segment::new("b", "b"),
                ],
            },
        ],
        right: vec![Island { segments: vec![Segment::new("c", "c")] }],
    };
    let before = layout.clone();
    let mut slot = None;
    assert!(apply_tray_segments(&mut layout, vec![], &mut slot));
    assert_eq!(slot, Some(TraySlot { region: Region::Center, island: 1, start: 1 }));
    assert!(apply_tray_segments(&mut layout, vec![Segment::new("tray:n", "n"), Segment::new("tray:m", "m")], &mut slot));
    let ids: Vec<&str> = layout.center[1].segments.iter().map(|s| s.module_id.as_str()).collect();
    assert_eq!(ids, vec!["a", "tray:n", "tray:m", "b"]);
    assert_eq!(layout.left, before.left);
    assert_eq!(layout.center[0], before.center[0]);
    assert_eq!(layout.right, before.right);
}

#[test]
fn tray_keeps_its_place_across_two_visible_updates() {
    let mut layout = BarLayout {
        left: vec![Island { segments: vec![Segment::new("x", "x")] }],
        center: vec![Island { segments: vec![Segment::new("a", "a"), Segment::new("tray", "tray"), Segment::new("b", "b")] }],
        right: vec![],
    };
    let before = layout.clone();
    let mut slot = None;
    let first = tray_segments(
        &vec![item("one", TrayItemStatus::Active), item("two", TrayItemStatus::Active)],
        &vec![None, None],
        &vec![None, None],
        &events(),
        false,
    );
    assert!(apply_tray_segments(&mut layout, first, &mut slot));
    let ids: Vec<&str> = layout.center[0].segments.iter().map(|s| s.module_id.as_str()).collect();
    assert_eq!(ids, vec!["a", "tray:one", "tray:two", "b"]);
    assert!(apply_tray_segments(&mut layout, vec![Segment::new("tray:n", "n")], &mut slot));
    let ids: Vec<&str> = layout.center[0].segments.iter().map(|s| s.module_id.as_str()).collect();
    assert_eq!(ids, vec!["a", "tray:n", "b"]);
    assert_eq!(layout.left, before.left);
    assert_eq!(layout.right, before.right);
}
