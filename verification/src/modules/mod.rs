//! Module payloads and per-module runtime configuration.
use vstd::prelude::*;

pub mod clock;
pub mod keyboard;
pub mod mpris;
pub mod tray;
pub mod window;
pub mod workspaces;

use crate::model::clone_opt_string;

verus! {

/// Newline-delimited JSON record emitted by an exec script to update a module.
#[derive(Debug, Clone)]
pub struct ScriptLine {
    pub text: String,
    /// When true, `text` is treated as Pango markup.
    pub markup: bool,
    /// Optional FreeDesktop icon name or absolute path.
    pub icon: Option<String>,
}

/// Message sent from background tasks to the run loop to update one segment.
#[derive(Debug, Clone)]
pub struct ModuleUpdate {
    /// Identifies which segment to update (matches `Segment::module_id`).
    pub module_id: String,
    /// Text to display (may contain Pango markup when `use_markup` is true).
    pub text: String,
    /// Whether `text` contains Pango markup.
    pub use_markup: bool,
    /// Optional icon override; `None` leaves the segment icon unchanged.
    pub icon: Option<String>,
}

impl ModuleUpdate {
    /// Create a plain-text update (no markup, no icon).
    pub fn text(module_id: &str, text: &str) -> (r: ModuleUpdate)
        ensures
            r.module_id@ == module_id@,
            r.text@ == text@,
            !r.use_markup,
            r.icon is None,
    {
        ModuleUpdate {
            module_id: module_id.to_owned(),
            text: text.to_owned(),
            use_markup: false,
            icon: None,
        }
    }

    /// Create a markup-enabled update (no icon).
    pub fn markup(module_id: &str, text: &str) -> (r: ModuleUpdate)
        ensures
            r.module_id@ == module_id@,
            r.text@ == text@,
            r.use_markup,
            r.icon is None,
    {
        ModuleUpdate {
            module_id: module_id.to_owned(),
            text: text.to_owned(),
            use_markup: true,
            icon: None,
        }
    }

    /// Build from a deserialized exec-script line.
    pub fn from_script(module_id: &str, line: ScriptLine) -> (r: ModuleUpdate)
        ensures
            r.module_id@ == module_id@,
            r.text == line.text,
            r.use_markup == line.markup,
            r.icon == line.icon,
    {
        ModuleUpdate {
            module_id: module_id.to_owned(),
            text: line.text,
            use_markup: line.markup,
            icon: line.icon,
        }
    }
}

/// Per-module runtime configuration passed into the run loop.
#[derive(Debug)]
pub struct ModuleConfigs {
    pub clock: Option<clock::ClockConfig>,
    pub keyboard: Option<keyboard::KeyboardConfig>,
    pub workspaces: Option<workspaces::WorkspacesConfig>,
    pub window: Option<window::WindowConfig>,
    pub mpris: Option<mpris::MprisConfig>,
}

impl ModuleConfigs {
    /// No module configured.
    pub fn none() -> (r: ModuleConfigs)
        ensures
            r.clock is None,
            r.keyboard is None,
            r.workspaces is None,
            r.window is None,
            r.mpris is None,
    {
        ModuleConfigs { clock: None, keyboard: None, workspaces: None, window: None, mpris: None }
    }
}

/// A copy of a script line.
pub fn copy_script_line(l: &ScriptLine) -> (r: ScriptLine)
    ensures
        r == *l,
{
    ScriptLine { text: l.text.clone(), markup: l.markup, icon: clone_opt_string(&l.icon) }
}

} // verus!
