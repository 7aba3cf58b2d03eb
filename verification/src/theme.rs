//! The theme file: bar colors and workspace colors, and where the file is found.
use vstd::prelude::*;

use crate::fs::{FsView, join, join_path};
use crate::model::opt_view;
use crate::text::chars_of;

verus! {

/// The whole theme file.
#[derive(Debug, Clone)]
pub struct Theme {
    pub base: Option<Base>,
    pub workspaces: Option<Workspaces>,
}

/// The `[base]` table: bar colors as `#RRGGBBAA`.
#[derive(Debug, Clone)]
pub struct Base {
    pub background_color: Option<String>,
    pub foreground_color: Option<String>,
}

/// The `[workspaces]` table.
#[derive(Debug, Clone)]
pub struct Workspaces {
    pub visibility_mode: Option<String>,
    pub active_color: Option<String>,
    pub inactive_color: Option<String>,
}

impl Default for Base {
    fn default() -> (r: Base)
        ensures
            opt_view(r.background_color) == Some("#000000FF"@),
            opt_view(r.foreground_color) == Some("#FFFFFFFF"@),
    {
        Base {
            background_color: Some("#000000FF".to_owned()),
            foreground_color: Some("#FFFFFFFF".to_owned()),
        }
    }
}

impl Default for Workspaces {
    fn default() -> (r: Workspaces)
        ensures
            opt_view(r.visibility_mode) == Some(Seq::<char>::empty()),
            opt_view(r.active_color) == Some("#00000000"@),
            opt_view(r.inactive_color) == Some("#00000000"@),
    {
        Workspaces {
            visibility_mode: Some(String::new()),
            active_color: Some("#00000000".to_owned()),
            inactive_color: Some("#00000000".to_owned()),
        }
    }
}

impl Default for Theme {
    fn default() -> (r: Theme)
        ensures
            r.base is Some,
            opt_view(r.base->0.background_color) == Some("#000000FF"@),
            opt_view(r.base->0.foreground_color) == Some("#FFFFFFFF"@),
            r.workspaces is Some,
            opt_view(r.workspaces->0.visibility_mode) == Some(Seq::<char>::empty()),
            opt_view(r.workspaces->0.active_color) == Some("#00000000"@),
            opt_view(r.workspaces->0.inactive_color) == Some("#00000000"@),
    {
        Theme { base: Some(Base::default()), workspaces: Some(Workspaces::default()) }
    }
}

/// The directory that contains `p`, as `std::path::Path::parent` gives it; `None` for a
/// path that ends in a root or is empty.
pub uninterp spec fn path_parent(p: Seq<char>) -> Option<Seq<char>>;

/// `std::path::Path::parent`, a function of the path's text alone; the result is returned
/// as an owned string.
#[verifier::external_body]
fn parent_of(p: &str) -> (r: Option<String>)
    ensures
        opt_view(r) == path_parent(p@),
{
    match std::path::Path::new(p).parent() {
        Some(q) => Some(q.to_string_lossy().into_owned()),
        None => None,
    }
}

/// A path that starts at the root.
pub open spec fn is_absolute(p: Seq<char>) -> bool {
    p.len() > 0 && p[0] == '/'
}

/// The directory next to which a relative theme is looked for: the configuration file's
/// directory, or `.` when that path has none.
pub open spec fn theme_base_dir(config_path: Seq<char>) -> Seq<char> {
    match path_parent(config_path) {
        Some(d) => d,
        None => "."@,
    }
}

/// The theme file: an absolute `theme` as is; else `theme` next to the configuration file
/// when it exists there; else `theme` in the `themes` directory next to it.
pub open spec fn theme_path(fs: FsView, config_path: Seq<char>, theme: Seq<char>) -> Seq<char> {
    let base = theme_base_dir(config_path);
    let direct = join_path(base, theme);
    if is_absolute(theme) {
        theme
    } else if fs.exists_spec(direct) {
        direct
    } else {
        join_path(join_path(base, "themes"@), theme)
    }
}

/// Resolve the theme file named in `[base].theme` against the configuration file's path.
pub fn resolve_path(fs: &FsView, config_path: &str, theme: &str) -> (r: String)
    ensures
        r@ == theme_path(*fs, config_path@, theme@),
{
    let t = chars_of(theme);
    if t.len() > 0 && t[0] == '/' {
        return theme.to_owned();
    }
    let base: String = match parent_of(config_path) {
        Some(d) => d,
        None => ".".to_owned(),
    };
    let direct = join(base.as_str(), theme);
    if fs.path_exists(&chars_of(direct.as_str())) {
        return direct;
    }
    let themes = join(base.as_str(), "themes");
    join(themes.as_str(), theme)
}

} // verus!
