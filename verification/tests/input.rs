use abar::input::{
    BTN_LEFT, BTN_MIDDLE, BTN_RIGHT, Dispatch, PointerAction, PointerEffect, PointerInput, PointerState, SegmentPos,
    Shade, button_action, dispatch_action, dispatch_allowed, pointer_step, shade_of,
};
use abar::model::{Segment, SegmentEvents};

fn state() -> PointerState {
    PointerState {
        had_axis: false,
        on_submenu: false,
        submenu_open: false,
        hovered: Some(SegmentPos { island: 1, segment: 0 }),
        pressed: None,
    }
}

#[test]
fn command_for_each_action() {
    let e = SegmentEvents {
        on_left_click: Some("l".into()),
        on_right_click: None,
        on_middle_click: Some("m".into()),
        on_scroll_up: Some("u".into()),
        on_scroll_down: None,
    };
    assert_eq!(e.command_for(PointerAction::LeftClick), Some("l"));
    assert_eq!(e.command_for(PointerAction::RightClick), None);
    assert_eq!(e.command_for(PointerAction::MiddleClick), Some("m"));
    assert_eq!(e.command_for(PointerAction::ScrollUp), Some("u"));
    assert_eq!(e.command_for(PointerAction::ScrollDown), None);
}

#[test]
fn buttons_map_to_clicks() {
    assert_eq!(button_action(BTN_LEFT), Some(PointerAction::LeftClick));
    assert_eq!(button_action(BTN_RIGHT), Some(PointerAction::RightClick));
    assert_eq!(button_action(BTN_MIDDLE), Some(PointerAction::MiddleClick));
    assert_eq!(button_action(0x113), None);
}

#[test]
fn press_then_release() {
    let mut s = state();
    assert_eq!(pointer_step(&mut s, PointerInput::Press { button: BTN_LEFT }), PointerEffect::Press(Some(PointerAction::LeftClick)));
    assert_eq!(s.pressed, Some(SegmentPos { island: 1, segment: 0 }));
    assert_eq!(pointer_step(&mut s, PointerInput::Release), PointerEffect::Release);
    assert_eq!(s.pressed, None);
    assert_eq!(pointer_step(&mut s, PointerInput::Release), PointerEffect::Ignore);
}

#[test]
fn continuous_scroll_hides_discrete_until_frame() {
    let mut s = state();
    assert_eq!(pointer_step(&mut s, PointerInput::Axis { vertical: true, direction: -1 }), PointerEffect::Scroll(PointerAction::ScrollUp));
    assert_eq!(pointer_step(&mut s, PointerInput::AxisDiscrete { vertical: true, steps: -1 }), PointerEffect::Ignore);
    assert_eq!(pointer_step(&mut s, PointerInput::Frame), PointerEffect::Ignore);
    assert_eq!(pointer_step(&mut s, PointerInput::AxisDiscrete { vertical: true, steps: 2 }), PointerEffect::Scroll(PointerAction::ScrollDown));
    assert_eq!(pointer_step(&mut s, PointerInput::Axis { vertical: false, direction: 1 }), PointerEffect::Ignore);
    assert_eq!(pointer_step(&mut s, PointerInput::Axis { vertical: true, direction: 0 }), PointerEffect::Ignore);
}

#[test]
fn submenu_clicks() {
    let mut s = state();
    s.submenu_open = true;
    assert_eq!(pointer_step(&mut s, PointerInput::Press { button: BTN_RIGHT }), PointerEffect::CloseSubmenu);
    s.on_submenu = true;
    assert_eq!(pointer_step(&mut s, PointerInput::Press { button: BTN_LEFT }), PointerEffect::RunSubmenuItem);
    assert_eq!(pointer_step(&mut s, PointerInput::Press { button: BTN_RIGHT }), PointerEffect::Ignore);
}

#[test]
fn dispatch_cycles_clock_zones_on_scroll() {
    let clock = Segment::new("clock", "12:00");
    assert_eq!(dispatch_action(PointerAction::ScrollUp, Some(&clock), false, 3, 0), Dispatch::ClockZone(2));
    assert_eq!(dispatch_action(PointerAction::ScrollDown, Some(&clock), false, 3, 2), Dispatch::ClockZone(0));
    assert_eq!(dispatch_action(PointerAction::ScrollDown, Some(&clock), false, 1, 0), Dispatch::Nothing);
}

#[test]
fn dispatch_runs_segment_command() {
    let mut seg = Segment::new("audio", "a");
    seg.events.on_left_click = Some("pavucontrol".into());
    assert_eq!(dispatch_action(PointerAction::LeftClick, Some(&seg), false, 0, 0), Dispatch::Spawn("pavucontrol".into()));
    assert_eq!(dispatch_action(PointerAction::RightClick, Some(&seg), true, 0, 0), Dispatch::Nothing);
    assert_eq!(dispatch_action(PointerAction::LeftClick, None, true, 0, 0), Dispatch::Nothing);
    assert_eq!(dispatch_action(PointerAction::LeftClick, Some(&seg), true, 0, 0), Dispatch::ToggleSubmenu);
}

#[test]
fn shade_prefers_pressed() {
    let a = SegmentPos { island: 0, segment: 1 };
    let b = SegmentPos { island: 1, segment: 0 };
    assert_eq!(shade_of(a, Some(a), Some(a)), Shade::Pressed);
    assert_eq!(shade_of(a, Some(a), Some(b)), Shade::Hovered);
    assert_eq!(shade_of(a, None, None), Shade::Normal);
}

#[test]
fn scroll_is_dispatched_without_enter() {
    assert!(dispatch_allowed(PointerAction::ScrollUp, false, true));
    assert!(dispatch_allowed(PointerAction::ScrollDown, false, true));
    assert!(!dispatch_allowed(PointerAction::LeftClick, false, true));
    assert!(dispatch_allowed(PointerAction::LeftClick, true, true));
    assert!(!dispatch_allowed(PointerAction::ScrollUp, true, false));
}
