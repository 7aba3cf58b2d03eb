//! The `[layout]` table and the bar layout it describes.
use vstd::prelude::*;

use crate::config::modules::{Custom, Modules, custom_named};
use crate::model::{BarLayout, DisplayMode, Island, Segment, islands_ids, bar_ids, opt_view, segment_ids};
use crate::text::{eq_str, str_views};

verus! {

/// One entry of a region: a single module, or a group of modules sharing one island.
#[derive(Debug, Clone, PartialEq, Eq)]
pub enum LayoutEntry {
    Module(String),
    Group(Vec<String>),
}

/// The three regions of the bar, each a list of entries.
#[derive(Debug, Default, Clone)]
pub struct Layout {
    pub left: Option<Vec<LayoutEntry>>,
    pub center: Option<Vec<LayoutEntry>>,
    pub right: Option<Vec<LayoutEntry>>,
}

/// A one-element slice holding `s`.
#[verifier::external_body]
fn single_slice<T>(s: &T) -> (r: &[T])
    ensures
        r@ == seq![*s],
{
    std::slice::from_ref(s)
}

/// The module names of an entry.
pub open spec fn entry_names(e: LayoutEntry) -> Seq<Seq<char>> {
    match e {
        LayoutEntry::Module(n) => seq![n@],
        LayoutEntry::Group(v) => str_views(v@),
    }
}

/// The module names of a list of entries, entry after entry.
pub open spec fn entries_names(es: Seq<LayoutEntry>) -> Seq<Seq<char>>
    decreases es.len(),
{
    if es.len() == 0 {
        Seq::empty()
    } else {
        entries_names(es.drop_last()) + entry_names(es.last())
    }
}

/// The module names of an optional region.
pub open spec fn region_names(r: Option<Vec<LayoutEntry>>) -> Seq<Seq<char>> {
    match r {
        Some(v) => entries_names(v@),
        None => Seq::empty(),
    }
}

/// Every module name of a layout: left region, then center, then right.
pub open spec fn names_in_order(l: Layout) -> Seq<Seq<char>> {
    region_names(l.left) + region_names(l.center) + region_names(l.right)
}

/// The views of a sequence of borrowed strings.
pub open spec fn strs_view(s: Seq<&str>) -> Seq<Seq<char>> {
    s.map_values(|x: &str| x@)
}

impl LayoutEntry {
    /// The module names of this entry.
    pub fn module_names(&self) -> (r: &[String])
        ensures
            str_views(r@) == entry_names(*self),
    {
        match self {
            LayoutEntry::Module(name) => {
                let r = single_slice(name);
                assert(str_views(r@) =~= seq![name@]);
                r
            },
            LayoutEntry::Group(names) => names.as_slice(),
        }
    }
}

/// Appends the module names of an optional region to `names`.
fn push_region_names<'a>(names: &mut Vec<&'a str>, entries: &'a Option<Vec<LayoutEntry>>)
    ensures
        strs_view(final(names)@) == strs_view(old(names)@) + region_names(*entries),
{
    let ghost start = strs_view(names@);
    let es = match entries {
        Some(es) => es,
        None => {
            assert(strs_view(names@) =~= start + Seq::<Seq<char>>::empty());
            return;
        },
    };
    for i in 0..es.len()
        invariant
            strs_view(names@) == start + entries_names(es@.take(i as int)),
            *entries == Some(*es),
    {
        let ghost before = strs_view(names@);
        let ns = es[i].module_names();
        for j in 0..ns.len()
            invariant
                strs_view(names@) == before + str_views(ns@).take(j as int),
        {
            let ghost prev = names@;
            let nj = ns[j].as_str();
            names.push(nj);
            assert(names@ == prev.push(nj));
            assert(strs_view(names@) =~= strs_view(prev).push(nj@));
            assert(str_views(ns@).take(j + 1) =~= str_views(ns@).take(j as int).push(ns@[j as int]@));
            assert(strs_view(names@) =~= before + str_views(ns@).take(j + 1));
        }
        assert(str_views(ns@).take(ns@.len() as int) =~= str_views(ns@));
        assert(es@.take(i + 1).drop_last() =~= es@.take(i as int));
        assert(strs_view(names@) =~= start + entries_names(es@.take(i + 1)));
    }
    assert(es@.take(es.len() as int) =~= es@);
}

/// The label of a built-in module's placeholder segment.
pub open spec fn builtin_label_spec(name: Seq<char>) -> Seq<char> {
    if name == "keyboard"@ {
        "kb"@
    } else if name == "workspaces"@ {
        "ws"@
    } else {
        name
    }
}

fn builtin_label(module: &str) -> (r: String)
    ensures
        r@ == builtin_label_spec(module@),
{
    if eq_str(module, "keyboard") {
        "kb".to_owned()
    } else if eq_str(module, "workspaces") {
        "ws".to_owned()
    } else {
        module.to_owned()
    }
}

/// The custom module named `name`, when there is a `[modules]` table.
pub open spec fn custom_in(modules: Option<Modules>, name: Seq<char>) -> Option<Custom> {
    match modules {
        Some(m) => custom_named(m, name),
        None => None,
    }
}

/// The plain value of an optional borrowed table.
pub open spec fn deref_modules(m: Option<&Modules>) -> Option<Modules> {
    match m {
        Some(m) => Some(*m),
        None => None,
    }
}

/// `seg` is the segment made for the module `name`: an icon-only segment for a custom
/// module, else a text placeholder with the built-in label; no events, no markup.
pub open spec fn seg_made(seg: Segment, name: Seq<char>, modules: Option<Modules>) -> bool {
    &&& seg.module_id@ == name
    &&& seg.events.is_empty_spec()
    &&& !seg.use_markup
    &&& seg.overlay_icon_name is None
    &&& match custom_in(modules, name) {
        Some(c) => {
            &&& seg.label@ == name
            &&& opt_view(seg.icon_name) == Some(c.icon@)
            &&& seg.display_mode == DisplayMode::IconOnly
        },
        None => {
            &&& seg.label@ == builtin_label_spec(name)
            &&& seg.icon_name is None
            &&& seg.display_mode == DisplayMode::TextOnly
        },
    }
}

/// The segments that `to_bar_layout` makes: `made_by(m)(seg, name)` holds when `seg` is the
/// segment made for `name` with the `[modules]` table `m`.
pub open spec fn made_by(modules: Option<Modules>) -> spec_fn(Segment, Seq<char>) -> bool {
    |seg: Segment, name: Seq<char>| seg_made(seg, name, modules)
}

/// `island` holds one segment for each of `names`, in order, each related to its name by `p`.
pub open spec fn island_built(island: Island, names: Seq<Seq<char>>, p: spec_fn(Segment, Seq<char>) -> bool) -> bool {
    &&& island.segments@.len() == names.len()
    &&& forall|j: int| 0 <= j < names.len() ==> #[trigger] p(island.segments@[j], names[j])
}

/// `islands` holds one island for each entry of the optional region, in order, with one
/// segment per module name related to it by `p`.
pub open spec fn region_built(islands: Seq<Island>, entries: Option<Vec<LayoutEntry>>, p: spec_fn(Segment, Seq<char>) -> bool) -> bool {
    match entries {
        None => islands.len() == 0,
        Some(es) => {
            &&& islands.len() == es@.len()
            &&& forall|i: int| 0 <= i < es@.len() ==> island_built(#[trigger] islands[i], entry_names(es@[i]), p)
        },
    }
}

fn make_segment(name: &str, modules: Option<&Modules>) -> (r: Segment)
    ensures
        seg_made(r, name@, deref_modules(modules)),
{
    let custom = match modules {
        Some(m) => m.custom_by_name(name),
        None => None,
    };
    match custom {
        Some(c) => Segment::icon_only(name, c.icon.as_str()),
        None => {
            let label = builtin_label(name);
            let mut seg = Segment::new(name, label.as_str());
            seg.display_mode = DisplayMode::TextOnly;
            seg
        },
    }
}

fn entry_to_island(entry: &LayoutEntry, modules: Option<&Modules>) -> (r: Island)
    ensures
        island_built(r, entry_names(*entry), made_by(deref_modules(modules))),
        segment_ids(r.segments@) == entry_names(*entry),
{
    let names = entry.module_names();
    let mut segments: Vec<Segment> = Vec::new();
    for j in 0..names.len()
        invariant
            str_views(names@) == entry_names(*entry),
            segments@.len() == j,
            forall|k: int| 0 <= k < j ==> seg_made(#[trigger] segments@[k], names@[k]@, deref_modules(modules)),
    {
        segments.push(make_segment(names[j].as_str(), modules));
    }
    assert(segment_ids(segments@) =~= entry_names(*entry));
    let r = Island { segments };
    assert forall|j: int| 0 <= j < entry_names(*entry).len() implies #[trigger] made_by(deref_modules(modules))(
        r.segments@[j],
        entry_names(*entry)[j],
    ) by {
        assert(names@[j]@ == entry_names(*entry)[j]);
    }
    r
}

fn entries_to_islands(entries: &Option<Vec<LayoutEntry>>, modules: Option<&Modules>) -> (r: Vec<Island>)
    ensures
        region_built(r@, *entries, made_by(deref_modules(modules))),
        islands_ids(r@) == region_names(*entries),
{
    let es = match entries {
        Some(es) => es,
        None => {
            return Vec::new();
        },
    };
    let mut out: Vec<Island> = Vec::new();
    for i in 0..es.len()
        invariant
            *entries == Some(*es),
            out@.len() == i,
            forall|k: int| 0 <= k < i ==> island_built(#[trigger] out@[k], entry_names(es@[k]), made_by(deref_modules(modules))),
            islands_ids(out@) == entries_names(es@.take(i as int)),
    {
        let island = entry_to_island(&es[i], modules);
        let ghost prev = out@;
        out.push(island);
        assert(out@.drop_last() =~= prev);
        assert(es@.take(i + 1).drop_last() =~= es@.take(i as int));
    }
    assert(es@.take(es.len() as int) =~= es@);
    out
}

impl Layout {
    /// Every module name, left region first, then center, then right.
    pub fn module_names_in_order(&self) -> (r: Vec<&str>)
        ensures
            strs_view(r@) == names_in_order(*self),
    {
        let mut names: Vec<&str> = Vec::new();
        assert(strs_view(names@) =~= Seq::<Seq<char>>::empty());
        push_region_names(&mut names, &self.left);
        push_region_names(&mut names, &self.center);
        push_region_names(&mut names, &self.right);
        assert(strs_view(names@) =~= names_in_order(*self));
        names
    }

    /// The bar layout: one island per entry, one segment per module name. The module ids
    /// of the bar, region after region, are [`Layout::module_names_in_order`].
    pub fn to_bar_layout(&self, modules: Option<&Modules>) -> (r: BarLayout)
        ensures
            region_built(r.left@, self.left, made_by(deref_modules(modules))),
            region_built(r.center@, self.center, made_by(deref_modules(modules))),
            region_built(r.right@, self.right, made_by(deref_modules(modules))),
            bar_ids(r) == names_in_order(*self),
    {
        BarLayout {
            left: entries_to_islands(&self.left, modules),
            center: entries_to_islands(&self.center, modules),
            right: entries_to_islands(&self.right, modules),
        }
    }
}

} // verus!
