//! Module tables of the configuration.
use vstd::prelude::*;

use crate::config::events::Events;

verus! {

/// One entry of a custom module's submenu.
#[derive(Debug, Clone)]
pub struct SubmenuItem {
    pub content: String,
    pub action: String,
}

/// A custom module: an icon with pointer-event commands.
#[derive(Debug, Clone)]
pub struct Custom {
    pub name: String,
    pub icon: String,
    pub submenu: Vec<SubmenuItem>,
    pub events: Option<Events>,
}

/// The `[modules]` table.
#[derive(Debug, Default, Clone)]
pub struct Modules {
    pub custom: Option<Vec<Custom>>,
}

/// The first custom module of `s` named `name`.
pub open spec fn find_custom(s: Seq<Custom>, name: Seq<char>) -> Option<Custom>
    decreases s.len(),
{
    if s.len() == 0 {
        None
    } else if s[0].name@ == name {
        Some(s[0])
    } else {
        find_custom(s.drop_first(), name)
    }
}

/// The first custom module named `name`.
pub open spec fn custom_named(m: Modules, name: Seq<char>) -> Option<Custom> {
    match m.custom {
        Some(v) => find_custom(v@, name),
        None => None,
    }
}

impl Modules {
    /// The first custom module named `name`.
    pub fn custom_by_name(&self, name: &str) -> (r: Option<&Custom>)
        ensures
            match r {
                Some(c) => custom_named(*self, name@) == Some(*c),
                None => custom_named(*self, name@) is None,
            },
    {
        let v = match &self.custom {
            Some(v) => v,
            None => {
                return None;
            },
        };
        let ghost s = v@;
        assert(s.skip(0) =~= s);
        for i in 0..v.len()
            invariant
                s == v@,
                self.custom == Some(*v),
                find_custom(s, name@) == find_custom(s.skip(i as int), name@),
        {
            assert(s.skip(i as int)[0] == s[i as int]);
            assert(s.skip(i as int).drop_first() =~= s.skip(i + 1));
            if crate::text::eq_str(v[i].name.as_str(), name) {
                return Some(&v[i]);
            }
        }
        assert(s.skip(v.len() as int) =~= Seq::<Custom>::empty());
        None
    }
}

/// The `[keyboard]` table.
#[derive(Debug, Default, Clone)]
pub struct Keyboard {
    pub command: Option<String>,
    pub events: Option<Events>,
}

/// The `[clock]` table.
#[derive(Debug, Default, Clone)]
pub struct Clock {
    pub formats: Option<Vec<String>>,
    pub timezones: Option<Vec<String>>,
    pub events: Option<Events>,
}

/// The `[workspaces]` table.
#[derive(Debug, Default, Clone)]
pub struct Workspaces {
    pub command: Option<String>,
    pub events: Option<Events>,
}

/// The `[window]` table.
#[derive(Debug, Default, Clone)]
pub struct Window {
    pub max_length: Option<usize>,
    pub command: Option<String>,
    pub events: Option<Events>,
}

/// The `[mpris]` table.
#[derive(Debug, Default, Clone)]
pub struct Mpris {
    pub max_length: Option<usize>,
    pub command: Option<String>,
    pub events: Option<Events>,
}

/// The `[tray]` table.
#[derive(Debug, Default, Clone)]
pub struct Tray {
    pub command: Option<String>,
    /// When `true`, each tray item's `app_id` is appended to every configured `on_*` handler.
    pub feed_id: bool,
    pub events: Option<Events>,
}

} // verus!
