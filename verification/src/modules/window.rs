//! The window-title module.
use vstd::prelude::*;

use crate::modules::{ModuleUpdate, ScriptLine};
use crate::text::{chars_of, push_chars, slice_chars, string_of};

verus! {

/// Runtime configuration for the window module.
#[derive(Debug, Clone)]
pub struct WindowConfig {
    /// Maximum number of Unicode scalar values to display before appending "…"; zero means
    /// no limit.
    pub max_length: usize,
}

impl WindowConfig {
    /// The default limit of 50 characters.
    pub fn default_config() -> (r: WindowConfig)
        ensures
            r.max_length == 50,
    {
        WindowConfig { max_length: 50 }
    }
}

impl Default for WindowConfig {
    fn default() -> (r: WindowConfig)
        ensures
            r.max_length == 50,
    {
        WindowConfig::default_config()
    }
}

/// `title` cut to `max_length` characters with `…` appended when it is longer; unchanged
/// when `max_length` is zero.
pub open spec fn truncated(title: Seq<char>, max_length: usize) -> Seq<char> {
    if max_length == 0 || title.len() <= max_length {
        title
    } else {
        title.take(max_length as int).push('\u{2026}')
    }
}

/// Truncate a window title to at most `max_length` Unicode scalar values, appending "…" if
/// cut. When `max_length` is zero the title is returned unchanged.
pub fn truncate_title(title: &str, max_length: usize) -> (r: String)
    ensures
        r@ == truncated(title@, max_length),
{
    let v = chars_of(title);
    if max_length == 0 || v.len() <= max_length {
        return string_of(&v);
    }
    let mut r = String::new();
    push_chars(&mut r, &slice_chars(&v, 0, max_length));
    crate::text::push_char(&mut r, '\u{2026}');
    r
}

/// The update for a script line of a title-like module: the text cut to `max_length`
/// characters when a limit is set.
pub fn truncated_update(module_id: &str, line: ScriptLine, max_length: usize) -> (r: ModuleUpdate)
    ensures
        r.module_id@ == module_id@,
        r.text@ == truncated(line.text@, max_length),
        r.use_markup == line.markup,
        r.icon == line.icon,
{
    let mut update = ModuleUpdate::from_script(module_id, line);
    if max_length > 0 {
        update.text = truncate_title(update.text.as_str(), max_length);
    }
    update
}

/// A truncated title never exceeds the limit by more than the ellipsis, and keeps the start
/// of the title.
pub proof fn lemma_truncated_bounds(title: Seq<char>, max_length: usize)
    requires
        max_length > 0,
    ensures
        truncated(title, max_length).len() <= max_length + 1,
        title.len() <= max_length ==> truncated(title, max_length) == title,
        title.len() > max_length ==> truncated(title, max_length).take(max_length as int) == title.take(
            max_length as int,
        ),
{
    if title.len() > max_length {
        assert(truncated(title, max_length).take(max_length as int) =~= title.take(max_length as int));
    }
}

} // verus!
