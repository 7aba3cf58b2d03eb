//! Pointer-event commands configured per module.
use vstd::prelude::*;

use crate::bar::{SegmentEdit, edit_layout, layout_related, lemma_related_keeps_ids};
use crate::config::Config;
use crate::config::modules::custom_named;
use crate::model::{BarLayout, Segment, SegmentEvents, bar_ids, clone_opt_string};

verus! {

/// Commands for pointer actions as written in the configuration.
#[derive(Debug, Default, Clone)]
pub struct Events {
    pub on_left_click: Option<String>,
    pub on_right_click: Option<String>,
    pub on_middle_click: Option<String>,
    pub on_scroll_up: Option<String>,
    pub on_scroll_down: Option<String>,
}

/// The segment events that an optional configured table gives.
pub open spec fn events_of(e: Option<Events>) -> SegmentEvents {
    match e {
        None => SegmentEvents {
            on_left_click: None,
            on_right_click: None,
            on_middle_click: None,
            on_scroll_up: None,
            on_scroll_down: None,
        },
        Some(e) => SegmentEvents {
            on_left_click: e.on_left_click,
            on_right_click: e.on_right_click,
            on_middle_click: e.on_middle_click,
            on_scroll_up: e.on_scroll_up,
            on_scroll_down: e.on_scroll_down,
        },
    }
}

/// The events table that applies to `module_id`: that of a custom module of that name,
/// else the table of the built-in `clock`, `keyboard` or `workspaces` module.
pub open spec fn module_events(config: Config, module_id: Seq<char>) -> Option<Events> {
    let custom = match config.modules {
        Some(m) => custom_named(m, module_id),
        None => None,
    };
    match custom {
        Some(c) => c.events,
        None => if module_id == "clock"@ {
            match config.clock {
                Some(c) => c.events,
                None => None,
            }
        } else if module_id == "keyboard"@ {
            match config.keyboard {
                Some(k) => k.events,
                None => None,
            }
        } else if module_id == "workspaces"@ {
            match config.workspaces {
                Some(w) => w.events,
                None => None,
            }
        } else {
            None
        },
    }
}

/// Segment events from an optional configured table.
pub fn events_from_config(events: Option<&Events>) -> (r: SegmentEvents)
    ensures
        r == events_of(match events {
            Some(e) => Some(*e),
            None => None,
        }),
{
    match events {
        None => SegmentEvents::none(),
        Some(e) => SegmentEvents {
            on_left_click: clone_opt_string(&e.on_left_click),
            on_right_click: clone_opt_string(&e.on_right_click),
            on_middle_click: clone_opt_string(&e.on_middle_click),
            on_scroll_up: clone_opt_string(&e.on_scroll_up),
            on_scroll_down: clone_opt_string(&e.on_scroll_down),
        },
    }
}

fn opt_ref<T>(o: &Option<T>) -> (r: Option<&T>)
    ensures
        match r {
            Some(x) => *o == Some(*x),
            None => *o is None,
        },
{
    match o {
        Some(x) => Some(x),
        None => None,
    }
}

/// The segment events configured for `module_id`.
pub fn events_for_module(config: &Config, module_id: &str) -> (r: SegmentEvents)
    ensures
        r == events_of(module_events(*config, module_id@)),
{
    let custom = match &config.modules {
        Some(m) => m.custom_by_name(module_id),
        None => None,
    };
    if let Some(c) = custom {
        return events_from_config(opt_ref(&c.events));
    }
    if crate::text::eq_str(module_id, "clock") {
        match &config.clock {
            Some(c) => events_from_config(opt_ref(&c.events)),
            None => SegmentEvents::none(),
        }
    } else if crate::text::eq_str(module_id, "keyboard") {
        match &config.keyboard {
            Some(k) => events_from_config(opt_ref(&k.events)),
            None => SegmentEvents::none(),
        }
    } else if crate::text::eq_str(module_id, "workspaces") {
        match &config.workspaces {
            Some(w) => events_from_config(opt_ref(&w.events)),
            None => SegmentEvents::none(),
        }
    } else {
        SegmentEvents::none()
    }
}


/// No custom module of the configuration is named `id`.
pub open spec fn no_custom_named(config: Config, id: Seq<char>) -> bool {
    config.modules matches Some(m) ==> custom_named(m, id) is None
}

/// Where a module's events come from: a custom module's own table when one has the
/// module's name; otherwise, for `clock`, `keyboard` and `workspaces`, the table of that
/// built-in module's section (no command when the section or its table is missing); and no
/// command for any other module.
pub proof fn lemma_module_events_source(config: Config, id: Seq<char>)
    ensures
        (config.modules matches Some(m) && custom_named(m, id) is Some) ==> events_of(module_events(config, id))
            == events_of(custom_named(config.modules->0, id)->0.events),
        no_custom_named(config, "clock"@) && config.clock is Some ==> events_of(module_events(config, "clock"@))
            == events_of(config.clock->0.events),
        no_custom_named(config, "keyboard"@) && config.keyboard is Some ==> events_of(
            module_events(config, "keyboard"@),
        ) == events_of(config.keyboard->0.events),
        no_custom_named(config, "workspaces"@) && config.workspaces is Some ==> events_of(
            module_events(config, "workspaces"@),
        ) == events_of(config.workspaces->0.events),
        no_custom_named(config, id) && id != "clock"@ && id != "keyboard"@ && id != "workspaces"@ ==> events_of(
            module_events(config, id),
        ) == events_of(None),
{
    reveal_strlit("clock");
    reveal_strlit("keyboard");
    reveal_strlit("workspaces");
    assert("keyboard"@ != "clock"@) by {
        assert("keyboard"@.len() != "clock"@.len());
    }
    assert("workspaces"@ != "clock"@) by {
        assert("workspaces"@.len() != "clock"@.len());
    }
    assert("workspaces"@ != "keyboard"@) by {
        assert("workspaces"@.len() != "keyboard"@.len());
    }
}

/// `new` is `old` with its events replaced by `events`.
pub open spec fn with_events(old: Segment, new: Segment, events: SegmentEvents) -> bool {
    &&& new.events == events
    &&& new.module_id == old.module_id
    &&& new.label == old.label
    &&& new.icon_name == old.icon_name
    &&& new.display_mode == old.display_mode
    &&& new.use_markup == old.use_markup
    &&& new.overlay_icon_name == old.overlay_icon_name
}

/// A segment takes the events configured for its module.
pub open spec fn configured_events(config: Config) -> spec_fn(Segment, Segment) -> bool {
    |a: Segment, b: Segment| with_events(a, b, events_of(module_events(config, a.module_id@)))
}

struct EventsEdit<'a> {
    config: &'a Config,
}

impl<'a> SegmentEdit for EventsEdit<'a> {
    closed spec fn rel(&self) -> spec_fn(Segment, Segment) -> bool {
        configured_events(*self.config)
    }

    fn edit(&self, s: &mut Segment) {
        s.events = events_for_module(self.config, s.module_id.as_str());
    }
}

/// Give every segment the events configured for its module; the bar keeps its modules.
pub fn apply_module_events(layout: &mut BarLayout, config: &Config)
    ensures
        layout_related(*old(layout), *final(layout), configured_events(*config)),
        bar_ids(*final(layout)) == bar_ids(*old(layout)),
{
    let e = EventsEdit { config };
    edit_layout(layout, &e);
    proof {
        lemma_related_keeps_ids(*old(layout), *layout, e.rel());
    }
}

} // verus!
