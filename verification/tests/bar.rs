use abar::bar::{apply_update, layout_has_module, set_segment_label};
use abar::model::{BarLayout, Island, Segment};
use abar::modules::{ModuleUpdate, ScriptLine};

fn layout() -> BarLayout {
    BarLayout {
        left: vec![Island { segments: vec![Segment::new("a", "A")] }],
        center: vec![Island { segments: vec![Segment::new("clock", "c1"), Segment::new("b", "B")] }],
        right: vec![Island { segments: vec![Segment::new("clock", "c2")] }],
    }
}

#[test]
fn set_segment_label_changes_every_match() {
    let mut l = layout();
    set_segment_label(&mut l, "clock", "12:00");
    assert_eq!(l.center[0].segments[0].label, "12:00");
    assert_eq!(l.right[0].segments[0].label, "12:00");
    assert_eq!(l.center[0].segments[1].label, "B");
    assert_eq!(l.left[0].segments[0].label, "A");
}

#[test]
fn apply_update_changes_first_match_only() {
    let mut l = layout();
    let found = apply_update(&mut l, &ModuleUpdate::markup("clock", "<b>x</b>"));
    assert!(found);
    assert_eq!(l.center[0].segments[0].label, "<b>x</b>");
    assert!(l.center[0].segments[0].use_markup);
    assert_eq!(l.right[0].segments[0].label, "c2");
    assert!(!l.right[0].segments[0].use_markup);
}

#[test]
fn apply_update_unknown_module_is_noop() {
    let mut l = layout();
    let before = l.clone();
    assert!(!apply_update(&mut l, &ModuleUpdate::text("nope", "x")));
    assert_eq!(l, before);
}

#[test]
fn module_update_constructors() {
    let t = ModuleUpdate::text("m", "hello");
    assert_eq!((t.module_id.as_str(), t.text.as_str(), t.use_markup, t.icon.is_none()), ("m", "hello", false, true));
    let m = ModuleUpdate::markup("m", "<i>x</i>");
    assert!(m.use_markup);
    let s = ModuleUpdate::from_script("m", ScriptLine { text: "t".into(), markup: true, icon: Some("i".into()) });
    assert_eq!(s.text, "t");
    assert!(s.use_markup);
    assert_eq!(s.icon.as_deref(), Some("i"));
}

#[test]
fn layout_has_module_looks_in_every_region() {
    let l = layout();
    assert!(layout_has_module(&l, "a"));
    assert!(layout_has_module(&l, "b"));
    assert!(layout_has_module(&l, "clock"));
    assert!(!layout_has_module(&l, "tray"));
    assert!(!layout_has_module(&BarLayout { left: vec![], center: vec![], right: vec![] }, "a"));
}
