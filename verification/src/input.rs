//! Pointer input: which action a button or a scroll stands for, which command a segment
//! runs for it, and the pointer's state from one Wayland pointer event to the next.
use vstd::prelude::*;

use crate::model::{Segment, SegmentEvents, opt_str_view, opt_view};
use crate::modules::clock::{next_tz, next_tz_index};
use crate::text::eq_str;

verus! {

/// Pointer interaction mapped from Wayland button / scroll events.
#[derive(Debug, Clone, Copy, PartialEq, Eq, Structural)]
pub enum PointerAction {
    LeftClick,
    RightClick,
    MiddleClick,
    ScrollUp,
    ScrollDown,
}

/// The Linux event code of the left mouse button.
pub const BTN_LEFT: u32 = 0x110;
/// The Linux event code of the right mouse button.
pub const BTN_RIGHT: u32 = 0x111;
/// The Linux event code of the middle mouse button.
pub const BTN_MIDDLE: u32 = 0x112;

/// The command configured for `action`.
pub open spec fn command_spec(e: SegmentEvents, action: PointerAction) -> Option<Seq<char>> {
    match action {
        PointerAction::LeftClick => opt_view(e.on_left_click),
        PointerAction::RightClick => opt_view(e.on_right_click),
        PointerAction::MiddleClick => opt_view(e.on_middle_click),
        PointerAction::ScrollUp => opt_view(e.on_scroll_up),
        PointerAction::ScrollDown => opt_view(e.on_scroll_down),
    }
}

impl SegmentEvents {
    /// The shell command configured for `action`, if any.
    pub fn command_for(&self, action: PointerAction) -> (r: Option<&str>)
        ensures
            opt_str_view(r) == command_spec(*self, action),
    {
        match action {
            PointerAction::LeftClick => self.on_left_click(),
            PointerAction::RightClick => self.on_right_click(),
            PointerAction::MiddleClick => self.on_middle_click(),
            PointerAction::ScrollUp => self.on_scroll_up(),
            PointerAction::ScrollDown => self.on_scroll_down(),
        }
    }
}

/// The action of a mouse button: left, right and middle clicks; other buttons do nothing.
pub open spec fn button_action_spec(button: u32) -> Option<PointerAction> {
    if button == BTN_LEFT {
        Some(PointerAction::LeftClick)
    } else if button == BTN_RIGHT {
        Some(PointerAction::RightClick)
    } else if button == BTN_MIDDLE {
        Some(PointerAction::MiddleClick)
    } else {
        None
    }
}

/// The action of a mouse button.
pub fn button_action(button: u32) -> (r: Option<PointerAction>)
    ensures
        r == button_action_spec(button),
{
    if button == BTN_LEFT {
        Some(PointerAction::LeftClick)
    } else if button == BTN_RIGHT {
        Some(PointerAction::RightClick)
    } else if button == BTN_MIDDLE {
        Some(PointerAction::MiddleClick)
    } else {
        None
    }
}

/// One Wayland pointer event, with a scroll amount reduced to its sign.
#[derive(Debug, Clone, Copy, PartialEq, Eq, Structural)]
pub enum PointerInput {
    /// A button went down.
    Press { button: u32 },
    /// A button went up.
    Release,
    /// A continuous scroll; `direction` is the sign of the amount (-1, 0 or 1).
    Axis { vertical: bool, direction: i8 },
    /// A discrete scroll of `steps` wheel clicks.
    AxisDiscrete { vertical: bool, steps: i32 },
    /// The end of a group of events.
    Frame,
}

/// A segment's place on the bar: the index of its island and its index in the island.
#[derive(Debug, Clone, Copy, PartialEq, Eq, Structural)]
pub struct SegmentPos {
    pub island: usize,
    pub segment: usize,
}

/// What the pointer is over and what it did within the current frame.
#[derive(Debug, Clone, Copy, PartialEq, Eq, Structural)]
pub struct PointerState {
    /// A continuous scroll was handled in this frame.
    pub had_axis: bool,
    /// The pointer is over the open submenu.
    pub on_submenu: bool,
    /// A submenu is open.
    pub submenu_open: bool,
    /// The segment under the pointer.
    pub hovered: Option<SegmentPos>,
    /// The segment being pressed.
    pub pressed: Option<SegmentPos>,
}

/// What the bar does in answer to a pointer event.
#[derive(Debug, Clone, Copy, PartialEq, Eq, Structural)]
pub enum PointerEffect {
    /// Nothing.
    Ignore,
    /// Run the hovered submenu item's action (if any) and close the submenu.
    RunSubmenuItem,
    /// Close the submenu.
    CloseSubmenu,
    /// Repaint the pressed segment, then dispatch the button's action, if it has one.
    Press(Option<PointerAction>),
    /// Repaint the released segment.
    Release,
    /// Dispatch a scroll action at the pointer.
    Scroll(PointerAction),
}

/// The scroll action of a direction: up for negative amounts, down for positive ones.
pub open spec fn scroll_of(negative: bool) -> PointerAction {
    if negative {
        PointerAction::ScrollUp
    } else {
        PointerAction::ScrollDown
    }
}

/// The pointer state and the effect after `input`.
pub open spec fn pointer_next(s: PointerState, input: PointerInput) -> (PointerState, PointerEffect) {
    match input {
        PointerInput::Press { button } => if s.on_submenu {
            if button == BTN_LEFT {
                (s, PointerEffect::RunSubmenuItem)
            } else {
                (s, PointerEffect::Ignore)
            }
        } else if s.submenu_open {
            (s, PointerEffect::CloseSubmenu)
        } else {
            (PointerState { pressed: s.hovered, ..s }, PointerEffect::Press(button_action_spec(button)))
        },
        PointerInput::Release => if s.pressed is Some {
            (PointerState { pressed: None, ..s }, PointerEffect::Release)
        } else {
            (s, PointerEffect::Ignore)
        },
        PointerInput::Axis { vertical, direction } => if !vertical || direction == 0 {
            (s, PointerEffect::Ignore)
        } else {
            (PointerState { had_axis: true, ..s }, PointerEffect::Scroll(scroll_of(direction < 0)))
        },
        PointerInput::AxisDiscrete { vertical, steps } => if s.had_axis || !vertical || steps == 0 {
            (s, PointerEffect::Ignore)
        } else {
            (s, PointerEffect::Scroll(scroll_of(steps < 0)))
        },
        PointerInput::Frame => (PointerState { had_axis: false, ..s }, PointerEffect::Ignore),
    }
}

/// Advance the pointer state by one event and say what the bar should do.
pub fn pointer_step(state: &mut PointerState, input: PointerInput) -> (effect: PointerEffect)
    ensures
        (*final(state), effect) == pointer_next(*old(state), input),
{
    match input {
        PointerInput::Press { button } => {
            if state.on_submenu {
                if button == BTN_LEFT {
                    PointerEffect::RunSubmenuItem
                } else {
                    PointerEffect::Ignore
                }
            } else if state.submenu_open {
                PointerEffect::CloseSubmenu
            } else {
                state.pressed = state.hovered;
                PointerEffect::Press(button_action(button))
            }
        },
        PointerInput::Release => {
            if state.pressed.is_some() {
                state.pressed = None;
                PointerEffect::Release
            } else {
                PointerEffect::Ignore
            }
        },
        PointerInput::Axis { vertical, direction } => {
            if !vertical || direction == 0 {
                PointerEffect::Ignore
            } else {
                state.had_axis = true;
                PointerEffect::Scroll(if direction < 0 {
                    PointerAction::ScrollUp
                } else {
                    PointerAction::ScrollDown
                })
            }
        },
        PointerInput::AxisDiscrete { vertical, steps } => {
            if state.had_axis || !vertical || steps == 0 {
                PointerEffect::Ignore
            } else {
                PointerEffect::Scroll(if steps < 0 {
                    PointerAction::ScrollUp
                } else {
                    PointerAction::ScrollDown
                })
            }
        },
        PointerInput::Frame => {
            state.had_axis = false;
            PointerEffect::Ignore
        },
    }
}

/// A wheel click that the compositor reports both as a continuous and as a discrete scroll
/// within one frame scrolls once: the discrete report is ignored.
pub proof fn lemma_scroll_counted_once(s: PointerState, direction: i8, steps: i32)
    requires
        direction != 0,
    ensures
        ({
            let (s1, e1) = pointer_next(s, PointerInput::Axis { vertical: true, direction });
            let (s2, e2) = pointer_next(s1, PointerInput::AxisDiscrete { vertical: true, steps });
            e1 == PointerEffect::Scroll(scroll_of(direction < 0)) && e2 == PointerEffect::Ignore
        }),
{
}

/// After the end of a frame, a discrete scroll counts again.
pub proof fn lemma_frame_rearms_discrete(s: PointerState, steps: i32)
    requires
        steps != 0,
    ensures
        ({
            let (s1, _) = pointer_next(s, PointerInput::Frame);
            pointer_next(s1, PointerInput::AxisDiscrete { vertical: true, steps }).1 == PointerEffect::Scroll(
                scroll_of(steps < 0),
            )
        }),
{
}

/// A horizontal scroll, continuous or discrete, does nothing and leaves the state as it was.
pub proof fn lemma_horizontal_scroll_ignored(s: PointerState, direction: i8, steps: i32)
    ensures
        pointer_next(s, PointerInput::Axis { vertical: false, direction }) == (s, PointerEffect::Ignore),
        pointer_next(s, PointerInput::AxisDiscrete { vertical: false, steps }) == (s, PointerEffect::Ignore),
{
}

/// Only a vertical scroll with a nonzero amount scrolls, up for a negative amount and down
/// for a positive one.
pub proof fn lemma_scroll_only_from_vertical(s: PointerState, input: PointerInput)
    ensures
        pointer_next(s, input).1 matches PointerEffect::Scroll(a) ==> match input {
            PointerInput::Axis { vertical, direction } => vertical && direction != 0 && (a
                == PointerAction::ScrollUp) == (direction < 0),
            PointerInput::AxisDiscrete { vertical, steps } => vertical && steps != 0 && !s.had_axis && (a
                == PointerAction::ScrollUp) == (steps < 0),
            _ => false,
        },
{
}

/// A press followed by a release leaves nothing pressed.
pub proof fn lemma_press_release(s: PointerState, button: u32)
    ensures
        pointer_next(pointer_next(s, PointerInput::Press { button }).0, PointerInput::Release).0.pressed is None,
{
}


/// Whether a pointer action is handed on to [`dispatch_action`]: only once the bar has been
/// laid out (`painted`), and, for a click, only while the pointer is on the bar's surface
/// (`on_surface`, set by the compositor's `Enter`). A scroll is handled without a prior
/// `Enter`, since some compositors send none before the first scroll.
pub fn dispatch_allowed(action: PointerAction, on_surface: bool, painted: bool) -> (r: bool)
    ensures
        r == (painted && (on_surface || action == PointerAction::ScrollUp
            || action == PointerAction::ScrollDown)),
{
    let scroll = match action {
        PointerAction::ScrollUp => true,
        PointerAction::ScrollDown => true,
        _ => false,
    };
    painted && (on_surface || scroll)
}

/// What a pointer action on the bar does.
#[derive(Debug, Clone, PartialEq, Eq)]
pub enum Dispatch {
    /// Nothing: no segment under the pointer, or no command for the action.
    Nothing,
    /// Show the clock in the time zone of this index.
    ClockZone(usize),
    /// Open the segment's submenu, or close the one that is open.
    ToggleSubmenu,
    /// Run this shell command.
    Spawn(String),
}

/// Decide what `action` does on the segment `hit` under the pointer (`has_submenu` when that
/// segment's module has a submenu), with `zones` clock time zones of which the one at index
/// `current` is shown: a scroll over the clock moves to the previous or next zone when there
/// are several; a left click on a segment with a submenu opens or closes it; otherwise the
/// segment's command runs.
pub fn dispatch_action(
    action: PointerAction,
    hit: Option<&Segment>,
    has_submenu: bool,
    zones: usize,
    current: usize,
) -> (r: Dispatch)
    requires
        zones > 1 ==> current < zones,
    ensures
        match hit {
            None => r == Dispatch::Nothing,
            Some(seg) => if (action == PointerAction::ScrollUp || action == PointerAction::ScrollDown) && zones > 1
                && seg.module_id@ == "clock"@ {
                r == Dispatch::ClockZone(next_tz(current, zones, action == PointerAction::ScrollUp) as usize)
            } else if action == PointerAction::LeftClick && has_submenu {
                r == Dispatch::ToggleSubmenu
            } else {
                match command_spec(seg.events, action) {
                    None => r == Dispatch::Nothing,
                    Some(c) => r matches Dispatch::Spawn(s) && s@ == c,
                }
            },
        },
{
    let seg = match hit {
        Some(s) => s,
        None => {
            return Dispatch::Nothing;
        },
    };
    let scroll = match action {
        PointerAction::ScrollUp => true,
        PointerAction::ScrollDown => true,
        _ => false,
    };
    if scroll && zones > 1 && eq_str(seg.module_id.as_str(), "clock") {
        let up = match action {
            PointerAction::ScrollUp => true,
            _ => false,
        };
        return Dispatch::ClockZone(next_tz_index(current, zones, up));
    }
    let left = match action {
        PointerAction::LeftClick => true,
        _ => false,
    };
    if left && has_submenu {
        return Dispatch::ToggleSubmenu;
    }
    match seg.events.command_for(action) {
        Some(c) => Dispatch::Spawn(c.to_owned()),
        None => Dispatch::Nothing,
    }
}


/// How a segment's background is shaded.
#[derive(Debug, Clone, Copy, PartialEq, Eq, Structural)]
pub enum Shade {
    Normal,
    Hovered,
    Pressed,
}

/// The shade of the segment at `key`: pressed before hovered.
pub fn shade_of(key: SegmentPos, hovered: Option<SegmentPos>, pressed: Option<SegmentPos>) -> (r: Shade)
    ensures
        r == (if pressed == Some(key) {
            Shade::Pressed
        } else if hovered == Some(key) {
            Shade::Hovered
        } else {
            Shade::Normal
        }),
{
    let is_pressed = match pressed {
        Some(p) => p.island == key.island && p.segment == key.segment,
        None => false,
    };
    if is_pressed {
        return Shade::Pressed;
    }
    let is_hovered = match hovered {
        Some(h) => h.island == key.island && h.segment == key.segment,
        None => false,
    };
    if is_hovered {
        Shade::Hovered
    } else {
        Shade::Normal
    }
}

} // verus!
