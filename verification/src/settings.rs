//! Settings resolved from the configuration and the theme: bar colors, font, the laid-out
//! bar with its events, icon fallbacks and initial labels, and the module configurations.
use vstd::prelude::*;

use chrono_tz::Tz;

use crate::bar::{SegmentEdit, edit_layout, layout_related, islands_related, lemma_related_keeps_ids, lemma_related_refl, relabeled, set_segment_label};
use crate::color::{ParseHexRgbaError, bgra_of, is_hex_rgba, parse_hex_rgba_to_bgra, rgba_of};
use crate::cli::Cli;
use crate::config::{Config, lookup_mode_of};
use crate::config::events::{configured_events, apply_module_events, events_of, module_events};
use crate::config::layout::{LayoutEntry, builtin_label_spec, custom_in, deref_modules, made_by, names_in_order, region_built, island_built, entry_names};
use crate::config::modules::{Clock, Modules};
use crate::fs::FsView;
use crate::icon::{IconLookupMode, icon_cands, resolve_icon};
use crate::model::{BarColors, BarLayout, DisplayMode, Island, Segment, bar_ids, clone_opt_string, opt_view};
use crate::modules::ModuleConfigs;
use crate::modules::clock::{ClockConfig, parse_tz, tz_named};
use crate::modules::keyboard::KeyboardConfig;
use crate::modules::workspaces::{VisibilityMode, WorkspacesConfig, alpha_trimmed, has_alpha_form, seven_byte_prefix, trim_alpha};
use crate::search::first_existing;
use crate::text::{eq_str, str_views};
use crate::theme::{Theme, Workspaces as ThemeWorkspaces};

verus! {

// ---------------------------------------------------------------------------
// Errors
// ---------------------------------------------------------------------------

/// Why settings could not be resolved.
#[derive(Debug, Clone, PartialEq, Eq)]
pub enum Error {
    /// `[base].font` is missing or empty.
    MissingFont,
    /// `[base].theme` is missing or empty.
    MissingTheme,
    /// A `[layout]` region that must be empty is not.
    LayoutMustBeEmpty(String),
    /// A theme color is not `#RRGGBBAA`.
    InvalidHexRgba(ParseHexRgbaError),
}

/// The message of an error.
pub open spec fn error_message(e: Error) -> Seq<char> {
    match e {
        Error::MissingFont => "`[base].font` is required and must be non-empty"@,
        Error::MissingTheme => "`[base].theme` is required and must be non-empty"@,
        Error::LayoutMustBeEmpty(r) => "`[layout]."@ + r@ + "` must be an empty array (no slots yet)"@,
        Error::InvalidHexRgba(_) => "expected #RRGGBBAA (8 hex digits after #)"@,
    }
}

impl Error {
    /// The message of this error.
    pub fn message(&self) -> (r: String)
        ensures
            r@ == error_message(*self),
    {
        match self {
            Error::MissingFont => "`[base].font` is required and must be non-empty".to_owned(),
            Error::MissingTheme => "`[base].theme` is required and must be non-empty".to_owned(),
            Error::LayoutMustBeEmpty(r) => {
                let mut s = "`[layout].".to_owned();
                crate::text::push_str(&mut s, r.as_str());
                crate::text::push_str(&mut s, "` must be an empty array (no slots yet)");
                s
            },
            Error::InvalidHexRgba(_) => "expected #RRGGBBAA (8 hex digits after #)".to_owned(),
        }
    }
}

// ---------------------------------------------------------------------------
// Segment edits
// ---------------------------------------------------------------------------

/// The theme sets a workspace color, which turns on markup for the workspaces module.
pub open spec fn ws_has_colors(w: Option<ThemeWorkspaces>) -> bool {
    match w {
        Some(w) => w.active_color is Some || w.inactive_color is Some,
        None => false,
    }
}

/// `new` is `old` with markup turned on.
pub open spec fn with_markup(old: Segment, new: Segment) -> bool {
    &&& new.use_markup
    &&& new.module_id == old.module_id
    &&& new.label == old.label
    &&& new.icon_name == old.icon_name
    &&& new.display_mode == old.display_mode
    &&& new.events == old.events
    &&& new.overlay_icon_name == old.overlay_icon_name
}

/// A workspaces segment takes markup; any other is unchanged.
pub open spec fn markup_enabled() -> spec_fn(Segment, Segment) -> bool {
    |a: Segment, b: Segment| if a.module_id@ == "workspaces"@ {
        with_markup(a, b)
    } else {
        b == a
    }
}

struct MarkupEdit;

impl SegmentEdit for MarkupEdit {
    closed spec fn rel(&self) -> spec_fn(Segment, Segment) -> bool {
        markup_enabled()
    }

    fn edit(&self, s: &mut Segment) {
        if eq_str(s.module_id.as_str(), "workspaces") {
            s.use_markup = true;
        }
    }
}

/// Turn on Pango markup for the workspaces segments when the theme sets a workspace color;
/// otherwise leave the layout unchanged.
pub fn apply_markup_for_workspaces(layout: &mut BarLayout, theme_ws: Option<&ThemeWorkspaces>)
    ensures
        ws_has_colors(match theme_ws { Some(w) => Some(*w), None => None }) ==> layout_related(
            *old(layout),
            *final(layout),
            markup_enabled(),
        ),
        !ws_has_colors(match theme_ws { Some(w) => Some(*w), None => None }) ==> *final(layout) == *old(layout),
        bar_ids(*final(layout)) == bar_ids(*old(layout)),
{
    let has_colors = match theme_ws {
        Some(w) => w.active_color.is_some() || w.inactive_color.is_some(),
        None => false,
    };
    if !has_colors {
        return;
    }
    let e = MarkupEdit;
    edit_layout(layout, &e);
    proof {
        lemma_related_keeps_ids(*old(layout), *layout, e.rel());
    }
}

/// `name` resolves to an icon file of `fs` in the lookup mode `mode`.
pub open spec fn icon_found(
    fs: FsView,
    name: Seq<char>,
    size: u32,
    dirs: Seq<Seq<char>>,
    theme: Seq<char>,
    mode: IconLookupMode,
) -> bool {
    first_existing(fs, icon_cands(fs, name, size, dirs, theme, mode)) is Some
}

/// `new` is `old` shown as text.
pub open spec fn as_text(old: Segment, new: Segment) -> bool {
    &&& new.display_mode == DisplayMode::TextOnly
    &&& new.module_id == old.module_id
    &&& new.label == old.label
    &&& new.icon_name == old.icon_name
    &&& new.events == old.events
    &&& new.use_markup == old.use_markup
    &&& new.overlay_icon_name == old.overlay_icon_name
}

/// An icon-only segment whose icon does not resolve is shown as text; any other segment is
/// unchanged.
pub open spec fn icon_fallback(
    fs: FsView,
    size: u32,
    dirs: Seq<Seq<char>>,
    theme: Seq<char>,
    mode: IconLookupMode,
) -> spec_fn(Segment, Segment) -> bool {
    |a: Segment, b: Segment| if a.display_mode == DisplayMode::IconOnly && a.icon_name is Some && !icon_found(
        fs,
        a.icon_name->0@,
        size,
        dirs,
        theme,
        mode,
    ) {
        as_text(a, b)
    } else {
        b == a
    }
}

struct FallbackEdit<'a> {
    fs: &'a FsView,
    size: u32,
    search_dirs: &'a Vec<String>,
    theme_name: &'a str,
    mode: IconLookupMode,
}

impl<'a> SegmentEdit for FallbackEdit<'a> {
    closed spec fn rel(&self) -> spec_fn(Segment, Segment) -> bool {
        icon_fallback(*self.fs, self.size, str_views(self.search_dirs@), self.theme_name@, self.mode)
    }

    fn edit(&self, s: &mut Segment) {
        if s.display_mode != DisplayMode::IconOnly {
            return;
        }
        let found = match &s.icon_name {
            Some(n) => resolve_icon(
                self.fs,
                n.as_str(),
                self.size,
                self.search_dirs,
                self.theme_name,
                self.mode,
            ).is_some(),
            None => true,
        };
        if !found {
            s.display_mode = DisplayMode::TextOnly;
        }
    }
}

/// Show as text every icon-only segment whose icon cannot be resolved in `search_dirs`
/// under `theme_name` at `size` pixels in the lookup mode `mode`.
pub fn apply_icon_fallbacks_with_dirs(
    layout: &mut BarLayout,
    fs: &FsView,
    size: u32,
    search_dirs: &Vec<String>,
    theme_name: &str,
    mode: IconLookupMode,
)
    ensures
        layout_related(
            *old(layout),
            *final(layout),
            icon_fallback(*fs, size, str_views(search_dirs@), theme_name@, mode),
        ),
        bar_ids(*final(layout)) == bar_ids(*old(layout)),
{
    let e = FallbackEdit { fs, size, search_dirs, theme_name, mode };
    edit_layout(layout, &e);
    proof {
        lemma_related_keeps_ids(*old(layout), *layout, e.rel());
    }
}

// ---------------------------------------------------------------------------
// Module configurations
// ---------------------------------------------------------------------------

/// The clock formats: the configured ones, or `%H:%M` alone.
pub open spec fn formats_or_default(f: Option<Vec<String>>) -> Seq<Seq<char>> {
    match f {
        Some(v) => str_views(v@),
        None => seq!["%H:%M"@],
    }
}

/// The time zones of the names that `chrono_tz` knows, in order; unknown names are skipped.
pub open spec fn known_zones(names: Seq<Seq<char>>) -> Seq<Tz>
    decreases names.len(),
{
    if names.len() == 0 {
        Seq::empty()
    } else {
        let r = known_zones(names.drop_last());
        match tz_named(names.last()) {
            Some(z) => r.push(z),
            None => r,
        }
    }
}

/// The time zones of the configured names.
pub open spec fn zones_of(t: Option<Vec<String>>) -> Seq<Tz> {
    match t {
        Some(v) => known_zones(str_views(v@)),
        None => Seq::empty(),
    }
}

/// The clock configuration of a `[clock]` table.
pub fn clock_config(c: &Clock) -> (r: ClockConfig)
    ensures
        str_views(r.formats@) == formats_or_default(c.formats),
        r.timezones@ == zones_of(c.timezones),
{
    let formats: Vec<String> = match &c.formats {
        Some(f) => f.clone(),
        None => {
            let mut v: Vec<String> = Vec::new();
            v.push("%H:%M".to_owned());
            v
        },
    };
    proof {
        if c.formats is None {
            assert(str_views(formats@) =~= seq!["%H:%M"@]);
        }
    }
    let mut timezones: Vec<Tz> = Vec::new();
    match &c.timezones {
        Some(names) => {
            for i in 0..names.len()
                invariant
                    timezones@ == known_zones(str_views(names@).take(i as int)),
            {
                assert(str_views(names@).take(i + 1).drop_last() =~= str_views(names@).take(i as int));
                assert(str_views(names@).take(i + 1).last() == names@[i as int]@);
                match parse_tz(names[i].as_str()) {
                    Some(z) => timezones.push(z),
                    None => {},
                }
            }
            assert(str_views(names@).take(names.len() as int) =~= str_views(names@));
        },
        None => {},
    }
    ClockConfig { formats, timezones }
}

/// `trim_alpha` can cut `c`: no eight-byte `#RRGGBBAA`-shaped color whose seventh byte falls
/// inside a character.
pub open spec fn trimmable(c: Option<String>) -> bool {
    match c {
        Some(s) => has_alpha_form(s@) ==> seven_byte_prefix(s@) is Some,
        None => true,
    }
}

/// The theme's workspace colors can be trimmed to `#RRGGBB`.
pub open spec fn theme_colors_trimmable(theme: Theme) -> bool {
    match theme.workspaces {
        Some(w) => trimmable(w.active_color) && trimmable(w.inactive_color),
        None => true,
    }
}

fn trimmable_color(c: &Option<String>) -> (r: bool)
    ensures
        r == trimmable(*c),
{
    match c {
        Some(s) => crate::modules::workspaces::alpha_trim_ok(s.as_str()),
        None => true,
    }
}

/// Whether the theme's workspace colors can be trimmed to `#RRGGBB` (see [`trim_alpha`]).
pub fn workspace_colors_trimmable(theme: &Theme) -> (r: bool)
    ensures
        r == theme_colors_trimmable(*theme),
{
    match &theme.workspaces {
        Some(w) => trimmable_color(&w.active_color) && trimmable_color(&w.inactive_color),
        None => true,
    }
}

/// A workspace color trimmed to `#RRGGBB`.
pub open spec fn trimmed_color(c: Option<String>) -> Option<Seq<char>> {
    match c {
        Some(s) => Some(alpha_trimmed(s@)),
        None => None,
    }
}

/// The visibility mode that the theme selects.
pub open spec fn visibility_of(w: ThemeWorkspaces) -> VisibilityMode {
    match w.visibility_mode {
        Some(m) => if m@ == "monitor_specific"@ {
            VisibilityMode::MonitorSpecific
        } else {
            VisibilityMode::AllMonitors
        },
        None => VisibilityMode::AllMonitors,
    }
}

/// The workspaces configuration matches the theme's `[workspaces]` table `w`.
pub open spec fn workspaces_from(c: WorkspacesConfig, w: ThemeWorkspaces) -> bool {
    &&& c.visibility_mode == visibility_of(w)
    &&& opt_view(c.active_color) == trimmed_color(w.active_color)
    &&& opt_view(c.inactive_color) == trimmed_color(w.inactive_color)
}

fn trim_color(c: &Option<String>) -> (r: Option<String>)
    requires
        trimmable(*c),
    ensures
        opt_view(r) == trimmed_color(*c),
{
    match c {
        Some(s) => Some(trim_alpha(s.as_str())),
        None => None,
    }
}

/// The workspaces configuration of the theme's `[workspaces]` table.
pub fn workspaces_config(w: &ThemeWorkspaces) -> (r: WorkspacesConfig)
    requires
        trimmable(w.active_color) && trimmable(w.inactive_color),
    ensures
        workspaces_from(r, *w),
{
    let visibility_mode = match &w.visibility_mode {
        Some(m) => VisibilityMode::parse(m.as_str()),
        None => VisibilityMode::AllMonitors,
    };
    WorkspacesConfig {
        visibility_mode,
        active_color: trim_color(&w.active_color),
        inactive_color: trim_color(&w.inactive_color),
    }
}

/// The module configurations that the configuration and the theme give.
pub open spec fn configs_from(m: ModuleConfigs, config: Config, theme: Theme) -> bool {
    &&& match config.clock {
        None => m.clock is None,
        Some(c) => m.clock is Some && str_views(m.clock->0.formats@) == formats_or_default(c.formats)
            && m.clock->0.timezones@ == zones_of(c.timezones),
    }
    &&& match config.keyboard {
        None => m.keyboard is None,
        Some(k) => m.keyboard is Some && m.keyboard->0.command == k.command,
    }
    &&& m.workspaces is Some
    &&& match theme.workspaces {
        Some(w) => workspaces_from(m.workspaces->0, w),
        None => {
            &&& m.workspaces->0.visibility_mode == VisibilityMode::AllMonitors
            &&& opt_view(m.workspaces->0.active_color) == Some("#000000"@)
            &&& opt_view(m.workspaces->0.inactive_color) == Some("#000000"@)
        },
    }
    &&& m.window is None
    &&& m.mpris is None
}

/// Build the module configurations and set the workspaces segments' placeholder label
/// `...`, shown until the first workspace update.
pub fn build_module_configs(config: &Config, theme: &Theme, layout: &mut BarLayout) -> (r: ModuleConfigs)
    requires
        theme_colors_trimmable(*theme),
    ensures
        configs_from(r, *config, *theme),
        layout_related(*old(layout), *final(layout), |a: Segment, b: Segment| relabeled(a, b, "workspaces"@, "..."@)),
        bar_ids(*final(layout)) == bar_ids(*old(layout)),
{
    let clock = match &config.clock {
        Some(c) => Some(clock_config(c)),
        None => None,
    };
    let keyboard = match &config.keyboard {
        Some(k) => Some(KeyboardConfig { command: clone_opt_string(&k.command) }),
        None => None,
    };
    let ws = match &theme.workspaces {
        Some(w) => workspaces_config(w),
        None => {
            let d = ThemeWorkspaces::default();
            proof {
                reveal_strlit("#00000000");
                reveal_strlit("#000000");
                crate::modules::workspaces::lemma_trim_ascii_color("#00000000"@);
                assert("#00000000"@.take(7) =~= "#000000"@);
                reveal_strlit("monitor_specific");
                assert("monitor_specific"@.len() == 16);
                assert(d.visibility_mode->0@.len() == 0);
                assert(visibility_of(d) == VisibilityMode::AllMonitors);
            }
            let c = workspaces_config(&d);
            assert(c.visibility_mode == VisibilityMode::AllMonitors);
            assert(opt_view(c.active_color) == Some("#000000"@));
            assert(opt_view(c.inactive_color) == Some("#000000"@));
            c
        },
    };
    set_segment_label(layout, "workspaces", "...");
    ModuleConfigs { clock, keyboard, workspaces: Some(ws), window: None, mpris: None }
}


// ---------------------------------------------------------------------------
// Resolution
// ---------------------------------------------------------------------------

/// Everything the bar needs to start, resolved from the configuration and the theme.
#[derive(Debug)]
pub struct Settings {
    pub colors: BarColors,
    pub font_name: String,
    pub layout: BarLayout,
    pub modules: ModuleConfigs,
}

impl Settings {
    /// The font family.
    pub fn font_name(&self) -> (r: &str)
        ensures
            r@ == self.font_name@,
    {
        self.font_name.as_str()
    }
}

/// The bar background color: the theme's, else `#000000FF`.
pub open spec fn background_of(theme: Theme) -> Seq<char> {
    match theme.base {
        Some(b) => match b.background_color {
            Some(c) => c@,
            None => "#000000FF"@,
        },
        None => "#000000FF"@,
    }
}

/// The bar foreground color: the theme's, else `#FFFFFFFF`.
pub open spec fn foreground_of(theme: Theme) -> Seq<char> {
    match theme.base {
        Some(b) => match b.foreground_color {
            Some(c) => c@,
            None => "#FFFFFFFF"@,
        },
        None => "#FFFFFFFF"@,
    }
}

/// The font family: the configured one, else `NotoSans Nerd Font`.
pub open spec fn font_of(config: Config) -> Seq<char> {
    match config.base {
        Some(b) => match b.font_name {
            Some(f) => f@,
            None => "NotoSans Nerd Font"@,
        },
        None => "NotoSans Nerd Font"@,
    }
}

/// The entries of one region of the configured layout.
pub open spec fn region_entries(config: Config, which: int) -> Option<Vec<LayoutEntry>> {
    match config.layout {
        Some(l) => if which == 0 {
            l.left
        } else if which == 1 {
            l.center
        } else {
            l.right
        },
        None => None,
    }
}

/// Every module name of the configured layout, in order.
pub open spec fn configured_names(config: Config) -> Seq<Seq<char>> {
    match config.layout {
        Some(l) => names_in_order(l),
        None => Seq::empty(),
    }
}

/// `t` is the segment of the resolved bar for the module `name`: events from its table; an
/// icon for a custom module, shown as text when it does not resolve; the built-in label
/// otherwise; markup for the workspaces module when the theme colors it; and the
/// workspaces placeholder label `...`.
pub open spec fn settled(
    t: Segment,
    name: Seq<char>,
    config: Config,
    theme: Theme,
    fs: FsView,
    size: u32,
    dirs: Seq<Seq<char>>,
    icon_theme: Seq<char>,
) -> bool {
    let custom = custom_in(config.modules, name);
    &&& t.module_id@ == name
    &&& t.events == events_of(module_events(config, name))
    &&& t.overlay_icon_name is None
    &&& t.use_markup == (name == "workspaces"@ && ws_has_colors(theme.workspaces))
    &&& t.label@ == (if name == "workspaces"@ {
        "..."@
    } else if custom is Some {
        name
    } else {
        builtin_label_spec(name)
    })
    &&& match custom {
        Some(c) => {
            &&& opt_view(t.icon_name) == Some(c.icon@)
            &&& t.display_mode == (if icon_found(fs, c.icon@, size, dirs, icon_theme, lookup_mode_of(config)) {
                DisplayMode::IconOnly
            } else {
                DisplayMode::TextOnly
            })
        },
        None => t.icon_name is None && t.display_mode == DisplayMode::TextOnly,
    }
}

/// [`settled`] as a relation of segments and module names.
pub open spec fn settled_by(
    config: Config,
    theme: Theme,
    fs: FsView,
    size: u32,
    dirs: Seq<Seq<char>>,
    icon_theme: Seq<char>,
) -> spec_fn(Segment, Seq<char>) -> bool {
    |t: Segment, name: Seq<char>| settled(t, name, config, theme, fs, size, dirs, icon_theme)
}

proof fn lemma_region_pipeline(
    r0: Seq<Island>,
    r1: Seq<Island>,
    r2: Seq<Island>,
    r3: Seq<Island>,
    r4: Seq<Island>,
    entries: Option<Vec<LayoutEntry>>,
    p: spec_fn(Segment, Seq<char>) -> bool,
    e1: spec_fn(Segment, Segment) -> bool,
    e2: spec_fn(Segment, Segment) -> bool,
    e3: spec_fn(Segment, Segment) -> bool,
    e4: spec_fn(Segment, Segment) -> bool,
    q: spec_fn(Segment, Seq<char>) -> bool,
)
    requires
        region_built(r0, entries, p),
        islands_related(r0, r1, e1),
        islands_related(r1, r2, e2),
        islands_related(r2, r3, e3),
        islands_related(r3, r4, e4),
        forall|s0: Segment, s1: Segment, s2: Segment, s3: Segment, s4: Segment, n: Seq<char>|
            #![trigger p(s0, n), e1(s0, s1), e2(s1, s2), e3(s2, s3), e4(s3, s4)]
            p(s0, n) && e1(s0, s1) && e2(s1, s2) && e3(s2, s3) && e4(s3, s4) ==> q(s4, n),
    ensures
        region_built(r4, entries, q),
{
    match entries {
        None => {},
        Some(es) => {
            assert forall|i: int| 0 <= i < es@.len() implies island_built(#[trigger] r4[i], entry_names(es@[i]), q) by {
                let names = entry_names(es@[i]);
                assert(island_built(r0[i], names, p));
                assert(crate::bar::segs_related(r0[i].segments@, r1[i].segments@, e1));
                assert(crate::bar::segs_related(r1[i].segments@, r2[i].segments@, e2));
                assert(crate::bar::segs_related(r2[i].segments@, r3[i].segments@, e3));
                assert(crate::bar::segs_related(r3[i].segments@, r4[i].segments@, e4));
                assert forall|j: int| 0 <= j < names.len() implies #[trigger] q(r4[i].segments@[j], names[j]) by {
                    assert(p(r0[i].segments@[j], names[j]));
                    assert(e1(r0[i].segments@[j], r1[i].segments@[j]));
                    assert(e2(r1[i].segments@[j], r2[i].segments@[j]));
                    assert(e3(r2[i].segments@[j], r3[i].segments@[j]));
                    assert(e4(r3[i].segments@[j], r4[i].segments@[j]));
                }
            }
        },
    }
}

/// Resolve the settings. The layout's custom-module icons are looked up in `fs` under
/// `search_dirs` and `icon_theme` at `icon_size` pixels, in the mode that `[icons]` selects. Fails when a bar color is not
/// `#RRGGBBAA`; the clock segment keeps its placeholder label, which depends on the time.
pub fn resolve(
    _cli: &Cli,
    config: &Config,
    theme: &Theme,
    fs: &FsView,
    icon_size: u32,
    search_dirs: &Vec<String>,
    icon_theme: &str,
) -> (r: Result<Settings, Error>)
    requires
        theme_colors_trimmable(*theme),
    ensures
        match r {
            Ok(s) => {
                &&& is_hex_rgba(background_of(*theme))
                &&& is_hex_rgba(foreground_of(*theme))
                &&& s.colors.background@ == bgra_of(rgba_of(background_of(*theme)))
                &&& s.colors.foreground@ == bgra_of(rgba_of(foreground_of(*theme)))
                &&& s.font_name@ == font_of(*config)
                &&& region_built(s.layout.left@, region_entries(*config, 0),
                    settled_by(*config, *theme, *fs, icon_size, str_views(search_dirs@), icon_theme@))
                &&& region_built(s.layout.center@, region_entries(*config, 1),
                    settled_by(*config, *theme, *fs, icon_size, str_views(search_dirs@), icon_theme@))
                &&& region_built(s.layout.right@, region_entries(*config, 2),
                    settled_by(*config, *theme, *fs, icon_size, str_views(search_dirs@), icon_theme@))
                &&& bar_ids(s.layout) == configured_names(*config)
                &&& configs_from(s.modules, *config, *theme)
            },
            Err(e) => {
                &&& e == Error::InvalidHexRgba(ParseHexRgbaError::InvalidFormat)
                &&& !(is_hex_rgba(background_of(*theme)) && is_hex_rgba(foreground_of(*theme)))
            },
        },
{
    let modules_ref: Option<&Modules> = match &config.modules {
        Some(m) => Some(m),
        None => None,
    };
    let mut layout = match &config.layout {
        Some(l) => l.to_bar_layout(modules_ref),
        None => BarLayout { left: Vec::new(), center: Vec::new(), right: Vec::new() },
    };
    let ghost l0 = layout;
    apply_module_events(&mut layout, config);
    let ghost l1 = layout;
    let background: String = match &theme.base {
        Some(b) => match &b.background_color {
            Some(c) => c.clone(),
            None => "#000000FF".to_owned(),
        },
        None => "#000000FF".to_owned(),
    };
    let foreground: String = match &theme.base {
        Some(b) => match &b.foreground_color {
            Some(c) => c.clone(),
            None => "#FFFFFFFF".to_owned(),
        },
        None => "#FFFFFFFF".to_owned(),
    };
    let font_name: String = match &config.base {
        Some(b) => match &b.font_name {
            Some(f) => f.clone(),
            None => "NotoSans Nerd Font".to_owned(),
        },
        None => "NotoSans Nerd Font".to_owned(),
    };
    let mode = config.lookup_mode();
    apply_icon_fallbacks_with_dirs(&mut layout, fs, icon_size, search_dirs, icon_theme, mode);
    let ghost l2 = layout;
    let ws_ref: Option<&ThemeWorkspaces> = match &theme.workspaces {
        Some(w) => Some(w),
        None => None,
    };
    apply_markup_for_workspaces(&mut layout, ws_ref);
    let ghost l3 = layout;
    let modules = build_module_configs(config, theme, &mut layout);
    let ghost l4 = layout;
    let background_px = match parse_hex_rgba_to_bgra(background.as_str()) {
        Ok(p) => p,
        Err(e) => {
            return Err(Error::InvalidHexRgba(e));
        },
    };
    let foreground_px = match parse_hex_rgba_to_bgra(foreground.as_str()) {
        Ok(p) => p,
        Err(e) => {
            return Err(Error::InvalidHexRgba(e));
        },
    };
    proof {
        let colored = ws_has_colors(theme.workspaces);
        let id_rel = |a: Segment, b: Segment| b == a;
        let e3 = if colored {
            markup_enabled()
        } else {
            id_rel
        };
        if !colored {
            lemma_related_refl(l2, id_rel);
        }
        let p = made_by(config.modules);
        let e1 = configured_events(*config);
        let e2 = icon_fallback(*fs, icon_size, str_views(search_dirs@), icon_theme@, lookup_mode_of(*config));
        let e4 = |a: Segment, b: Segment| relabeled(a, b, "workspaces"@, "..."@);
        let q = settled_by(*config, *theme, *fs, icon_size, str_views(search_dirs@), icon_theme@);
        assert(deref_modules(modules_ref) == config.modules);
        assert forall|s0: Segment, s1: Segment, s2: Segment, s3: Segment, s4: Segment, n: Seq<char>|
            #![trigger p(s0, n), e1(s0, s1), e2(s1, s2), e3(s2, s3), e4(s3, s4)]
            p(s0, n) && e1(s0, s1) && e2(s1, s2) && e3(s2, s3) && e4(s3, s4) implies q(s4, n) by {
        }
        lemma_region_pipeline(l0.left@, l1.left@, l2.left@, l3.left@, l4.left@, region_entries(*config, 0), p, e1, e2, e3, e4, q);
        lemma_region_pipeline(l0.center@, l1.center@, l2.center@, l3.center@, l4.center@, region_entries(*config, 1), p, e1, e2, e3, e4, q);
        lemma_region_pipeline(l0.right@, l1.right@, l2.right@, l3.right@, l4.right@, region_entries(*config, 2), p, e1, e2, e3, e4, q);
        if config.layout is None {
            assert(bar_ids(l0) =~= Seq::<Seq<char>>::empty());
        }
    }
    Ok(Settings {
        colors: BarColors { background: background_px, foreground: foreground_px },
        font_name,
        layout,
        modules,
    })
}

} // verus!
