//! The bar's logical model: segments grouped into islands in three regions.
use vstd::prelude::*;

verus! {

/// The view of an optional owned string.
pub open spec fn opt_view(o: Option<String>) -> Option<Seq<char>> {
    match o {
        Some(s) => Some(s@),
        None => None,
    }
}

/// The view of an optional borrowed string.
pub open spec fn opt_str_view(o: Option<&str>) -> Option<Seq<char>> {
    match o {
        Some(s) => Some(s@),
        None => None,
    }
}

/// A copy of an optional string.
pub fn clone_opt_string(o: &Option<String>) -> (r: Option<String>)
    ensures
        r == *o,
{
    match o {
        Some(s) => Some(s.clone()),
        None => None,
    }
}

/// A borrowed view of an optional string.
pub fn opt_as_str(o: &Option<String>) -> (r: Option<&str>)
    ensures
        opt_str_view(r) == opt_view(*o),
{
    match o {
        Some(s) => Some(s.as_str()),
        None => None,
    }
}

/// Optional shell commands for pointer actions on a module segment.
#[derive(Debug, Clone, Default, PartialEq, Eq)]
pub struct SegmentEvents {
    pub on_left_click: Option<String>,
    pub on_right_click: Option<String>,
    pub on_middle_click: Option<String>,
    pub on_scroll_up: Option<String>,
    pub on_scroll_down: Option<String>,
}

impl SegmentEvents {
    /// No command for any action.
    pub open spec fn is_empty_spec(&self) -> bool {
        &&& self.on_left_click is None
        &&& self.on_right_click is None
        &&& self.on_middle_click is None
        &&& self.on_scroll_up is None
        &&& self.on_scroll_down is None
    }

    /// Events with no command for any action.
    pub fn none() -> (r: SegmentEvents)
        ensures
            r.is_empty_spec(),
    {
        SegmentEvents {
            on_left_click: None,
            on_right_click: None,
            on_middle_click: None,
            on_scroll_up: None,
            on_scroll_down: None,
        }
    }

    /// A copy of these events.
    pub fn copy(&self) -> (r: SegmentEvents)
        ensures
            r == *self,
    {
        SegmentEvents {
            on_left_click: clone_opt_string(&self.on_left_click),
            on_right_click: clone_opt_string(&self.on_right_click),
            on_middle_click: clone_opt_string(&self.on_middle_click),
            on_scroll_up: clone_opt_string(&self.on_scroll_up),
            on_scroll_down: clone_opt_string(&self.on_scroll_down),
        }
    }

    pub fn on_left_click(&self) -> (r: Option<&str>)
        ensures
            opt_str_view(r) == opt_view(self.on_left_click),
    {
        opt_as_str(&self.on_left_click)
    }

    pub fn on_right_click(&self) -> (r: Option<&str>)
        ensures
            opt_str_view(r) == opt_view(self.on_right_click),
    {
        opt_as_str(&self.on_right_click)
    }

    pub fn on_middle_click(&self) -> (r: Option<&str>)
        ensures
            opt_str_view(r) == opt_view(self.on_middle_click),
    {
        opt_as_str(&self.on_middle_click)
    }

    pub fn on_scroll_up(&self) -> (r: Option<&str>)
        ensures
            opt_str_view(r) == opt_view(self.on_scroll_up),
    {
        opt_as_str(&self.on_scroll_up)
    }

    pub fn on_scroll_down(&self) -> (r: Option<&str>)
        ensures
            opt_str_view(r) == opt_view(self.on_scroll_down),
    {
        opt_as_str(&self.on_scroll_down)
    }
}

/// Whether a segment paints its icon or its text label.
#[derive(Debug, Clone, Copy, PartialEq, Eq, Structural)]
pub enum DisplayMode {
    TextOnly,
    IconOnly,
}

/// One module segment inside a grouped island.
#[derive(Debug, Clone, PartialEq, Eq)]
pub struct Segment {
    pub module_id: String,
    pub label: String,
    /// FreeDesktop icon name; required when `display_mode` is `IconOnly`.
    pub icon_name: Option<String>,
    pub display_mode: DisplayMode,
    pub events: SegmentEvents,
    /// Whether `label` holds Pango markup.
    pub use_markup: bool,
    /// Icon name of a badge drawn over the main icon.
    pub overlay_icon_name: Option<String>,
}

impl Segment {
    /// Construct a text-only segment with no icon.
    pub fn new(module_id: &str, label: &str) -> (r: Segment)
        ensures
            r.module_id@ == module_id@,
            r.label@ == label@,
            r.icon_name is None,
            r.display_mode == DisplayMode::TextOnly,
            r.events.is_empty_spec(),
            !r.use_markup,
            r.overlay_icon_name is None,
    {
        Segment {
            module_id: module_id.to_owned(),
            label: label.to_owned(),
            icon_name: None,
            display_mode: DisplayMode::TextOnly,
            events: SegmentEvents::none(),
            use_markup: false,
            overlay_icon_name: None,
        }
    }

    /// Construct an icon-only segment for a custom module; its label is the module id.
    pub fn icon_only(module_id: &str, icon_name: &str) -> (r: Segment)
        ensures
            r.module_id@ == module_id@,
            r.label@ == module_id@,
            opt_view(r.icon_name) == Some(icon_name@),
            r.display_mode == DisplayMode::IconOnly,
            r.events.is_empty_spec(),
            !r.use_markup,
            r.overlay_icon_name is None,
    {
        Segment {
            label: module_id.to_owned(),
            module_id: module_id.to_owned(),
            icon_name: Some(icon_name.to_owned()),
            display_mode: DisplayMode::IconOnly,
            events: SegmentEvents::none(),
            use_markup: false,
            overlay_icon_name: None,
        }
    }
}

impl Segment {
    /// A copy of this segment.
    pub fn clone_segment(&self) -> (r: Segment)
        ensures
            r == *self,
    {
        Segment {
            module_id: self.module_id.clone(),
            label: self.label.clone(),
            icon_name: clone_opt_string(&self.icon_name),
            display_mode: self.display_mode,
            events: self.events.copy(),
            use_markup: self.use_markup,
            overlay_icon_name: clone_opt_string(&self.overlay_icon_name),
        }
    }
}

/// Rounded background region with one or more segments (left to right).
#[derive(Debug, Clone, PartialEq, Eq)]
pub struct Island {
    pub segments: Vec<Segment>,
}

/// Three logical bar regions; each entry is one island.
#[derive(Debug, Clone, PartialEq, Eq, Default)]
pub struct BarLayout {
    pub left: Vec<Island>,
    pub center: Vec<Island>,
    pub right: Vec<Island>,
}

/// The module ids of `s`, in order.
pub open spec fn segment_ids(s: Seq<Segment>) -> Seq<Seq<char>> {
    s.map_values(|g: Segment| g.module_id@)
}

/// The module ids of the islands `s`, island after island.
pub open spec fn islands_ids(s: Seq<Island>) -> Seq<Seq<char>>
    decreases s.len(),
{
    if s.len() == 0 {
        Seq::empty()
    } else {
        islands_ids(s.drop_last()) + segment_ids(s.last().segments@)
    }
}

/// The module ids of a bar, left region first, then center, then right.
pub open spec fn bar_ids(b: BarLayout) -> Seq<Seq<char>> {
    islands_ids(b.left@) + islands_ids(b.center@) + islands_ids(b.right@)
}

/// Colors in **BGRA** byte order for `WL_SHM_FORMAT_ARGB8888` buffers.
#[derive(Debug, Clone, Copy, PartialEq, Eq)]
pub struct BarColors {
    pub background: [u8; 4],
    pub foreground: [u8; 4],
}

/// ARGB8888 SHM buffer in **BGRA** byte order.
#[derive(Debug, Clone, PartialEq, Eq)]
pub struct Frame {
    pub width: u32,
    pub height: u32,
    pub stride: i32,
    pub data: Vec<u8>,
}

} // verus!
