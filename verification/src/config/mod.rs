//! The bar's configuration: its tables, where its file lives, and how its layout becomes
//! the bar's islands.
use vstd::prelude::*;

pub mod events;
pub mod layout;
pub mod modules;

use crate::config::layout::Layout;
use crate::config::modules::{Clock, Keyboard, Modules, Window, Workspaces};
use crate::fs::{join, join_path};
use crate::icon::IconLookupMode;

verus! {

/// The whole configuration file.
#[derive(Debug, Clone)]
pub struct Config {
    pub base: Option<Base>,
    pub layout: Option<Layout>,
    pub modules: Option<Modules>,
    pub keyboard: Option<Keyboard>,
    pub clock: Option<Clock>,
    pub workspaces: Option<Workspaces>,
    pub window: Option<Window>,
    pub icons: Option<Icons>,
}

/// The `[icons]` table: `prefer = "exact"` (the default) looks for the full icon name in
/// every theme before shortening it; `prefer = "theme"` shortens it within each theme first.
#[derive(Debug, Clone)]
pub struct Icons {
    pub prefer: Option<String>,
}

/// The icon lookup mode that the configuration selects.
pub open spec fn lookup_mode_of(config: Config) -> IconLookupMode {
    match config.icons {
        Some(i) => match i.prefer {
            Some(p) => if p@ == "theme"@ {
                IconLookupMode::PreferTheme
            } else {
                IconLookupMode::Exact
            },
            None => IconLookupMode::Exact,
        },
        None => IconLookupMode::Exact,
    }
}

impl Config {
    /// The icon lookup mode: [`IconLookupMode::PreferTheme`] for `prefer = "theme"`,
    /// else [`IconLookupMode::Exact`].
    pub fn lookup_mode(&self) -> (r: IconLookupMode)
        ensures
            r == lookup_mode_of(*self),
    {
        match &self.icons {
            Some(i) => match &i.prefer {
                Some(p) => if crate::text::eq_str(p.as_str(), "theme") {
                    IconLookupMode::PreferTheme
                } else {
                    IconLookupMode::Exact
                },
                None => IconLookupMode::Exact,
            },
            None => IconLookupMode::Exact,
        }
    }
}

/// The `[base]` table: the font family and the theme file.
#[derive(Debug, Clone)]
pub struct Base {
    pub font_name: Option<String>,
    pub theme: Option<String>,
}

impl Default for Base {
    fn default() -> (r: Base)
        ensures
            r.font_name is Some && r.font_name->0@ == "NotoSans Nerd Font"@,
            r.theme is Some && r.theme->0@ == "theme.toml"@,
    {
        Base { font_name: Some("NotoSans Nerd Font".to_owned()), theme: Some("theme.toml".to_owned()) }
    }
}

impl Default for Config {
    fn default() -> (r: Config)
        ensures
            r.base is Some,
            r.base->0.font_name is Some && r.base->0.font_name->0@ == "NotoSans Nerd Font"@,
            r.base->0.theme is Some && r.base->0.theme->0@ == "theme.toml"@,
            r.layout is Some,
            r.layout->0.left is None && r.layout->0.center is None && r.layout->0.right is None,
            r.modules is Some && r.modules->0.custom is None,
            r.keyboard is None && r.clock is None && r.workspaces is None && r.window is None,
            r.icons is None,
    {
        Config {
            base: Some(Base::default()),
            layout: Some(Layout { left: None, center: None, right: None }),
            modules: Some(Modules { custom: None }),
            keyboard: None,
            clock: None,
            workspaces: None,
            window: None,
            icons: None,
        }
    }
}

/// The directory that holds this bar's files: `$XDG_CONFIG_HOME/abar` when that variable is
/// set and not empty, else `$HOME/.config/abar`, else the relative `.config/abar`.
pub open spec fn config_dir_spec(xdg_config_home: Option<Seq<char>>, home: Option<Seq<char>>) -> Seq<char> {
    let from_home = match home {
        Some(h) => join_path(h, ".config"@),
        None => ".config"@,
    };
    let base = match xdg_config_home {
        Some(x) => if x.len() > 0 { x } else { from_home },
        None => from_home,
    };
    join_path(base, "abar"@)
}

/// The configuration directory from the values of `XDG_CONFIG_HOME` and `HOME`.
pub fn config_dir_from_env(xdg_config_home: Option<&str>, home: Option<&str>) -> (r: String)
    ensures
        r@ == config_dir_spec(
            match xdg_config_home { Some(x) => Some(x@), None => None },
            match home { Some(h) => Some(h@), None => None },
        ),
{
    let from_home: String = match home {
        Some(h) => join(h, ".config"),
        None => ".config".to_owned(),
    };
    let base: String = match xdg_config_home {
        Some(x) => if x.is_empty() { from_home } else { x.to_owned() },
        None => from_home,
    };
    join(base.as_str(), "abar")
}

/// The configuration file `config.toml` inside [`config_dir_from_env`].
pub fn default_config_path(xdg_config_home: Option<&str>, home: Option<&str>) -> (r: String)
    ensures
        r@ == join_path(
            config_dir_spec(
                match xdg_config_home { Some(x) => Some(x@), None => None },
                match home { Some(h) => Some(h@), None => None },
            ),
            "config.toml"@,
        ),
{
    let dir = config_dir_from_env(xdg_config_home, home);
    join(dir.as_str(), "config.toml")
}

} // verus!
