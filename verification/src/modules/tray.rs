//! The system-tray module: tray items and the segments that show them.
use vstd::prelude::*;

use crate::model::{BarLayout, DisplayMode, Island, Segment, SegmentEvents, clone_opt_string, opt_view};
use crate::text::{chars_of, push_char, push_str, starts_with, starts_with_chars};

verus! {

/// SNI item visibility status. `Passive` items are not rendered.
#[derive(Debug, Clone, Copy, PartialEq, Eq, Structural)]
pub enum TrayItemStatus {
    Active,
    Passive,
    NeedsAttention,
}

/// One tray item as reported by the tray exec script.
#[derive(Debug, Clone, PartialEq, Eq)]
pub struct MinimalTrayItem {
    pub app_id: String,
    pub title: Option<String>,
    pub status: TrayItemStatus,
    pub icon_handle: Option<String>,
    /// SNI category (e.g. `"ApplicationStatus"`, `"Communications"`).
    pub category: Option<String>,
    /// `true` when the item is a pure menu.
    pub item_is_menu: bool,
    pub tooltip_title: Option<String>,
    pub tooltip_description: Option<String>,
    /// Overlay icon theme name (badge drawn on top of the normal icon).
    pub overlay_icon_handle: Option<String>,
}

/// Runtime configuration for the tray module.
#[derive(Debug, Clone, Default)]
pub struct TrayConfig {
    /// Optional exec command (`sh -c <command>`) whose stdout drives this module.
    pub command: Option<String>,
    /// When `true`, each item's `app_id` is appended to every configured `on_*` handler.
    pub feed_id: bool,
    /// Pointer-action handlers applied to every tray item segment.
    pub events: SegmentEvents,
}

/// Whether a tray item is shown on the bar.
pub fn is_shown(item: &MinimalTrayItem) -> (r: bool)
    ensures
        r == (item.status != TrayItemStatus::Passive),
{
    item.status != TrayItemStatus::Passive
}

/// The icon name to try for an item: its icon handle, else its title.
pub open spec fn icon_candidate(item: MinimalTrayItem) -> Option<Seq<char>> {
    match item.icon_handle {
        Some(h) => Some(h@),
        None => opt_view(item.title),
    }
}

/// The icon name to try for an item: its icon handle, else its title.
pub fn tray_icon_candidate(item: &MinimalTrayItem) -> (r: Option<String>)
    ensures
        opt_view(r) == icon_candidate(*item),
{
    match &item.icon_handle {
        Some(h) => Some(h.clone()),
        None => match &item.title {
            Some(t) => Some(t.clone()),
            None => None,
        },
    }
}

/// The text shown for an item without an icon: tooltip title, else title, else app id.
pub open spec fn fallback_label(item: MinimalTrayItem) -> Seq<char> {
    match item.tooltip_title {
        Some(t) => t@,
        None => match item.title {
            Some(t) => t@,
            None => item.app_id@,
        },
    }
}

/// A configured command with ` <app_id>` appended.
pub open spec fn fed(cmd: Option<String>, id: Seq<char>) -> Option<Seq<char>> {
    match cmd {
        Some(c) => Some(c@ + seq![' '] + id),
        None => None,
    }
}

/// The events of a tray item's segment: the configured ones, each with ` <app_id>` appended
/// when `feed_id` is set.
pub open spec fn item_events_ok(e: SegmentEvents, cfg: SegmentEvents, id: Seq<char>, feed_id: bool) -> bool {
    if feed_id {
        &&& opt_view(e.on_left_click) == fed(cfg.on_left_click, id)
        &&& opt_view(e.on_right_click) == fed(cfg.on_right_click, id)
        &&& opt_view(e.on_middle_click) == fed(cfg.on_middle_click, id)
        &&& opt_view(e.on_scroll_up) == fed(cfg.on_scroll_up, id)
        &&& opt_view(e.on_scroll_down) == fed(cfg.on_scroll_down, id)
    } else {
        e == cfg
    }
}

fn feed(cmd: &Option<String>, id: &str) -> (r: Option<String>)
    ensures
        opt_view(r) == fed(*cmd, id@),
{
    match cmd {
        Some(c) => {
            let mut s = c.clone();
            push_char(&mut s, ' ');
            push_str(&mut s, id);
            Some(s)
        },
        None => None,
    }
}

/// The segment module id of a tray item: `tray:<app_id>`.
pub open spec fn tray_id(app_id: Seq<char>) -> Seq<char> {
    "tray:"@ + app_id
}

/// `r` is the segment of the tray item `item`: id `tray:<app_id>`, the fallback label, an
/// icon when `icon_name` is known (with `overlay_name` as its badge), text otherwise, and the
/// configured events.
pub open spec fn tray_seg_made(
    r: Segment,
    item: MinimalTrayItem,
    icon_name: Option<String>,
    overlay_name: Option<String>,
    events: SegmentEvents,
    feed_id: bool,
) -> bool {
    &&& r.module_id@ == tray_id(item.app_id@)
    &&& r.label@ == fallback_label(item)
    &&& r.use_markup == false
    &&& match icon_name {
        Some(n) => r.display_mode == DisplayMode::IconOnly && r.icon_name == Some(n)
            && r.overlay_icon_name == overlay_name,
        None => r.display_mode == DisplayMode::TextOnly && r.icon_name is None
            && r.overlay_icon_name is None,
    }
    &&& item_events_ok(r.events, events, item.app_id@, feed_id)
}

/// The label of a tray item's segment is its tooltip title when it has one, whatever its
/// title; else its title when it has one; else its app id.
pub proof fn lemma_tray_label_prefers_tooltip(
    r: Segment,
    item: MinimalTrayItem,
    icon_name: Option<String>,
    overlay_name: Option<String>,
    events: SegmentEvents,
    feed_id: bool,
)
    requires
        tray_seg_made(r, item, icon_name, overlay_name, events, feed_id),
    ensures
        item.tooltip_title is Some ==> r.label@ == item.tooltip_title->0@,
        item.tooltip_title is None && item.title is Some ==> r.label@ == item.title->0@,
        item.tooltip_title is None && item.title is None ==> r.label@ == item.app_id@,
{
}

/// A tray item's segment belongs to the module `tray:<app_id>`; it shows the item's icon
/// (with the overlay badge) when an icon name is given and text otherwise; and each of its
/// commands is the configured one, followed by a space and the app id when `feed_id` is
/// set.
pub proof fn lemma_tray_segment_shape(
    r: Segment,
    item: MinimalTrayItem,
    icon_name: Option<String>,
    overlay_name: Option<String>,
    events: SegmentEvents,
    feed_id: bool,
)
    requires
        tray_seg_made(r, item, icon_name, overlay_name, events, feed_id),
    ensures
        r.module_id@ == "tray:"@ + item.app_id@,
        icon_name is Some ==> r.display_mode == DisplayMode::IconOnly && r.icon_name == icon_name
            && r.overlay_icon_name == overlay_name,
        icon_name is None ==> r.display_mode == DisplayMode::TextOnly && r.icon_name is None,
        !feed_id ==> r.events == events,
        feed_id && events.on_left_click is Some ==> r.events.on_left_click is Some
            && r.events.on_left_click->0@ == events.on_left_click->0@ + seq![' '] + item.app_id@,
        feed_id && events.on_right_click is Some ==> r.events.on_right_click is Some
            && r.events.on_right_click->0@ == events.on_right_click->0@ + seq![' '] + item.app_id@,
        feed_id && events.on_middle_click is Some ==> r.events.on_middle_click is Some
            && r.events.on_middle_click->0@ == events.on_middle_click->0@ + seq![' '] + item.app_id@,
        feed_id && events.on_scroll_up is Some ==> r.events.on_scroll_up is Some
            && r.events.on_scroll_up->0@ == events.on_scroll_up->0@ + seq![' '] + item.app_id@,
        feed_id && events.on_scroll_down is Some ==> r.events.on_scroll_down is Some
            && r.events.on_scroll_down->0@ == events.on_scroll_down->0@ + seq![' '] + item.app_id@,
        feed_id ==> (r.events.on_left_click is None <==> events.on_left_click is None),
        feed_id ==> (r.events.on_right_click is None <==> events.on_right_click is None),
        feed_id ==> (r.events.on_middle_click is None <==> events.on_middle_click is None),
        feed_id ==> (r.events.on_scroll_up is None <==> events.on_scroll_up is None),
        feed_id ==> (r.events.on_scroll_down is None <==> events.on_scroll_down is None),
{
}

/// The segment for one visible tray item. `icon_name` is the item's icon when it could be
/// loaded, `overlay_name` its overlay badge when that could be loaded.
pub fn tray_segment(
    item: &MinimalTrayItem,
    icon_name: Option<String>,
    overlay_name: Option<String>,
    events: &SegmentEvents,
    feed_id: bool,
) -> (r: Segment)
    ensures
        tray_seg_made(r, *item, icon_name, overlay_name, *events, feed_id),
{
    let mut id = String::new();
    push_str(&mut id, "tray:");
    push_str(&mut id, item.app_id.as_str());
    let label = match &item.tooltip_title {
        Some(t) => t.clone(),
        None => match &item.title {
            Some(t) => t.clone(),
            None => item.app_id.clone(),
        },
    };
    let ev = if feed_id {
        let a = item.app_id.as_str();
        SegmentEvents {
            on_left_click: feed(&events.on_left_click, a),
            on_right_click: feed(&events.on_right_click, a),
            on_middle_click: feed(&events.on_middle_click, a),
            on_scroll_up: feed(&events.on_scroll_up, a),
            on_scroll_down: feed(&events.on_scroll_down, a),
        }
    } else {
        events.copy()
    };
    match icon_name {
        Some(n) => Segment {
            module_id: id,
            label,
            icon_name: Some(n),
            display_mode: DisplayMode::IconOnly,
            events: ev,
            use_markup: false,
            overlay_icon_name: overlay_name,
        },
        None => Segment {
            module_id: id,
            label,
            icon_name: None,
            display_mode: DisplayMode::TextOnly,
            events: ev,
            use_markup: false,
            overlay_icon_name: None,
        },
    }
}

/// A segment that belongs to the tray: the `tray` placeholder or a `tray:*` item.
pub open spec fn is_tray_id(id: Seq<char>) -> bool {
    id == "tray"@ || starts_with(id, "tray:"@)
}

fn is_tray_segment(s: &Segment) -> (r: bool)
    ensures
        r == is_tray_id(s.module_id@),
{
    let v = chars_of(s.module_id.as_str());
    crate::text::eq_chars(&v, &chars_of("tray")) || starts_with_chars(&v, &chars_of("tray:"))
}

/// The number of tray segments in `s`.
pub open spec fn tray_count(s: Seq<Segment>) -> nat
    decreases s.len(),
{
    if s.len() == 0 {
        0
    } else {
        tray_count(s.drop_last()) + if is_tray_id(s.last().module_id@) {
            1nat
        } else {
            0nat
        }
    }
}

/// The index of the first tray segment of `s`.
pub open spec fn first_tray(s: Seq<Segment>) -> Option<nat>
    decreases s.len(),
{
    if s.len() == 0 {
        None
    } else if is_tray_id(s[0].module_id@) {
        Some(0)
    } else {
        match first_tray(s.drop_first()) {
            Some(i) => Some(i + 1),
            None => None,
        }
    }
}

/// The index of the first island of `r` that holds a tray segment.
pub open spec fn first_tray_island(r: Seq<Island>) -> Option<nat>
    decreases r.len(),
{
    if r.len() == 0 {
        None
    } else if first_tray(r[0].segments@) is Some {
        Some(0)
    } else {
        match first_tray_island(r.drop_first()) {
            Some(i) => Some(i + 1),
            None => None,
        }
    }
}

/// The segments of an island after the tray span is replaced: `tray_count` segments from
/// the first tray segment on give way to `new`.
pub open spec fn spliced(s: Seq<Segment>, new: Seq<Segment>) -> Seq<Segment> {
    let start = first_tray(s)->0;
    s.take(start as int) + new + s.skip((start + tray_count(s)) as int)
}

/// A region after the tray of its first tray island is replaced.
pub open spec fn region_spliced(old: Seq<Island>, new_r: Seq<Island>, new: Seq<Segment>) -> bool {
    match first_tray_island(old) {
        None => new_r == old,
        Some(i) => {
            &&& new_r.len() == old.len()
            &&& forall|j: int| 0 <= j < old.len() && j != i ==> new_r[j] == old[j]
            &&& new_r[i as int].segments@ == spliced(old[i as int].segments@, new)
        },
    }
}

proof fn lemma_first_tray_exact(s: Seq<Segment>, k: int)
    requires
        0 <= k <= s.len(),
        forall|j: int| 0 <= j < k ==> !is_tray_id(#[trigger] s[j].module_id@),
    ensures
        k < s.len() && is_tray_id(s[k].module_id@) ==> first_tray(s) == Some(k as nat),
        k == s.len() ==> first_tray(s) is None,
    decreases k,
{
    if k > 0 {
        assert forall|j: int| 0 <= j < k - 1 implies !is_tray_id(#[trigger] s.drop_first()[j].module_id@) by {
            assert(s.drop_first()[j] == s[j + 1]);
        }
        if k < s.len() {
            assert(s.drop_first()[k - 1] == s[k]);
        }
        lemma_first_tray_exact(s.drop_first(), k - 1);
    }
}

proof fn lemma_tray_count_bound(s: Seq<Segment>, k: int)
    requires
        0 <= k <= s.len(),
        forall|j: int| 0 <= j < k ==> !is_tray_id(#[trigger] s[j].module_id@),
    ensures
        tray_count(s) <= s.len() - k,
    decreases s.len(),
{
    if s.len() > k {
        lemma_tray_count_bound(s.drop_last(), k);
    } else if s.len() > 0 {
        lemma_tray_count_bound(s.drop_last(), k - 1);
        assert(!is_tray_id(s[s.len() - 1].module_id@));
    }
}

fn splice_segments(segs: Vec<Segment>, new: Vec<Segment>) -> (r: Vec<Segment>)
    requires
        first_tray(segs@) is Some,
    ensures
        r@ == spliced(segs@, new@),
{
    let mut start: usize = 0;
    while start < segs.len() && !is_tray_segment(&segs[start])
        invariant
            start <= segs.len(),
            forall|j: int| 0 <= j < start ==> !is_tray_id(#[trigger] segs@[j].module_id@),
        decreases segs.len() - start,
    {
        start += 1;
    }
    proof {
        lemma_first_tray_exact(segs@, start as int);
    }
    let mut count: usize = 0;
    for i in 0..segs.len()
        invariant
            count <= i,
            count == tray_count(segs@.take(i as int)),
    {
        assert(segs@.take(i + 1).drop_last() =~= segs@.take(i as int));
        if is_tray_segment(&segs[i]) {
            count += 1;
        }
    }
    assert(segs@.take(segs.len() as int) =~= segs@);
    proof {
        lemma_tray_count_bound(segs@, start as int);
    }
    let ghost old = segs@;
    let mut rest = segs;
    let mut out: Vec<Segment> = Vec::new();
    let mut tail: Vec<Segment> = Vec::new();
    // Move the segments past the tray span out from the back.
    while rest.len() > start + count
        invariant
            start + count <= old.len(),
            rest@ == old.take(rest@.len() as int),
            rest@.len() <= old.len(),
            rest@.len() >= start + count,
            tail@.reverse() == old.subrange(rest@.len() as int, old.len() as int),
        decreases rest.len(),
    {
        let ghost br = rest@;
        let ghost bt = tail@;
        let s = rest.pop().unwrap();
        tail.push(s);
        assert(br.drop_last() =~= old.take(br.len() - 1));
        assert(s == old[br.len() - 1]);
        assert(rest@ =~= old.take(rest@.len() as int));
        assert(tail@.reverse() =~= seq![s] + bt.reverse());
        assert(tail@.reverse() =~= old.subrange(rest@.len() as int, old.len() as int));
    }
    // Drop the tray span.
    while rest.len() > start
        invariant
            rest@ == old.take(rest@.len() as int),
            rest@.len() <= old.len(),
            rest@.len() >= start,
        decreases rest.len(),
    {
        let ghost br = rest@;
        rest.pop();
        assert(br.drop_last() =~= old.take(br.len() - 1));
        assert(rest@ =~= old.take(rest@.len() as int));
    }
    out = rest;
    let ghost head = out@;
    for i in 0..new.len()
        invariant
            out@ == head + new@.take(i as int),
    {
        let ghost bo = out@;
        let s = new[i].clone_segment();
        out.push(s);
        assert(new@.take(i + 1) =~= new@.take(i as int).push(new@[i as int]));
    }
    assert(new@.take(new.len() as int) =~= new@);
    let ghost mid = out@;
    while tail.len() > 0
        invariant
            out@ == mid + old.subrange(start + count, old.len() - tail@.len()),
            tail@.reverse() == old.subrange(old.len() - tail@.len(), old.len() as int),
            tail@.len() <= old.len() - start - count,
        decreases tail.len(),
    {
        let ghost bt = tail@;
        let s = tail.pop().unwrap();
        assert(bt.reverse()[0] == s);
        out.push(s);
        assert(tail@.reverse() =~= bt.reverse().drop_first());
        assert(out@ =~= mid + old.subrange(start + count, old.len() - tail@.len()));
    }
    assert(out@ =~= spliced(old, new@));
    out
}


/// `r` holds one segment per shown item of `items`, in order, each made from the item's
/// icon and overlay names.
pub open spec fn tray_built(
    r: Seq<Segment>,
    items: Seq<MinimalTrayItem>,
    icons: Seq<Option<String>>,
    overlays: Seq<Option<String>>,
    events: SegmentEvents,
    feed_id: bool,
) -> bool
    decreases items.len(),
{
    if items.len() == 0 {
        r.len() == 0
    } else {
        let n = items.len() - 1;
        if items[n].status != TrayItemStatus::Passive {
            &&& r.len() > 0
            &&& tray_seg_made(r.last(), items[n], icons[n], overlays[n], events, feed_id)
            &&& tray_built(r.drop_last(), items.drop_last(), icons.drop_last(), overlays.drop_last(), events, feed_id)
        } else {
            tray_built(r, items.drop_last(), icons.drop_last(), overlays.drop_last(), events, feed_id)
        }
    }
}

/// One segment per shown tray item, in order; `icons[i]` and `overlays[i]` are the icon and
/// overlay names that could be loaded for item `i`.
pub fn tray_segments(
    items: &Vec<MinimalTrayItem>,
    icons: &Vec<Option<String>>,
    overlays: &Vec<Option<String>>,
    events: &SegmentEvents,
    feed_id: bool,
) -> (r: Vec<Segment>)
    requires
        icons.len() == items.len(),
        overlays.len() == items.len(),
    ensures
        tray_built(r@, items@, icons@, overlays@, *events, feed_id),
{
    let mut out: Vec<Segment> = Vec::new();
    for i in 0..items.len()
        invariant
            icons.len() == items.len(),
            overlays.len() == items.len(),
            tray_built(out@, items@.take(i as int), icons@.take(i as int), overlays@.take(i as int), *events, feed_id),
    {
        assert(items@.take(i + 1).drop_last() =~= items@.take(i as int));
        assert(icons@.take(i + 1).drop_last() =~= icons@.take(i as int));
        assert(overlays@.take(i + 1).drop_last() =~= overlays@.take(i as int));
        let ghost prev = out@;
        if is_shown(&items[i]) {
            let seg = tray_segment(&items[i], clone_opt_string(&icons[i]), clone_opt_string(&overlays[i]), events, feed_id);
            out.push(seg);
            assert(out@.drop_last() =~= prev);
        }
    }
    assert(items@.take(items.len() as int) =~= items@);
    assert(icons@.take(items.len() as int) =~= icons@);
    assert(overlays@.take(items.len() as int) =~= overlays@);
    out
}

fn has_tray(segs: &Vec<Segment>) -> (r: bool)
    ensures
        r == (first_tray(segs@) is Some),
{
    for j in 0..segs.len()
        invariant
            forall|k: int| 0 <= k < j ==> !is_tray_id(#[trigger] segs@[k].module_id@),
    {
        if is_tray_segment(&segs[j]) {
            proof {
                lemma_first_tray_exact(segs@, j as int);
            }
            return true;
        }
    }
    proof {
        lemma_first_tray_exact(segs@, segs.len() as int);
    }
    false
}

proof fn lemma_first_tray_island_exact(r: Seq<Island>, k: int)
    requires
        0 <= k <= r.len(),
        forall|j: int| 0 <= j < k ==> first_tray((#[trigger] r[j]).segments@) is None,
    ensures
        k < r.len() && first_tray(r[k].segments@) is Some ==> first_tray_island(r) == Some(k as nat),
        k == r.len() ==> first_tray_island(r) is None,
    decreases k,
{
    if k > 0 {
        assert forall|j: int| 0 <= j < k - 1 implies first_tray((#[trigger] r.drop_first()[j]).segments@) is None by {
            assert(r.drop_first()[j] == r[j + 1]);
        }
        lemma_first_tray_island_exact(r.drop_first(), k - 1);
    }
}

fn tray_island_index(islands: &Vec<Island>) -> (r: Option<usize>)
    ensures
        match r {
            Some(i) => first_tray_island(islands@) == Some(i as nat) && i < islands@.len(),
            None => first_tray_island(islands@) is None,
        },
{
    for i in 0..islands.len()
        invariant
            forall|k: int| 0 <= k < i ==> first_tray((#[trigger] islands@[k]).segments@) is None,
    {
        if has_tray(&islands[i].segments) {
            proof {
                lemma_first_tray_island_exact(islands@, i as int);
            }
            return Some(i);
        }
    }
    proof {
        lemma_first_tray_island_exact(islands@, islands.len() as int);
    }
    None
}

fn splice_at(islands: &mut Vec<Island>, i: usize, new: Vec<Segment>)
    requires
        first_tray_island(old(islands)@) == Some(i as nat),
        i < old(islands)@.len(),
    ensures
        region_spliced(old(islands)@, final(islands)@, new@),
{
    let ghost orig = islands@;
    let ghost s = new@;
    let island = islands.remove(i);
    assert(island == orig[i as int]);
    assert(first_tray(island.segments@) is Some) by {
        reveal_with_fuel(first_tray_island, 1);
        lemma_first_tray_island_some(orig);
    }
    let segs = splice_segments(island.segments, new);
    islands.insert(i, Island { segments: segs });
    assert forall|j: int| 0 <= j < orig.len() && j != i implies islands@[j] == orig[j] by {
    }
}

proof fn lemma_first_tray_island_some(r: Seq<Island>)
    requires
        first_tray_island(r) is Some,
    ensures
        first_tray_island(r)->0 < r.len(),
        first_tray(r[first_tray_island(r)->0 as int].segments@) is Some,
    decreases r.len(),
{
    if r.len() > 0 && first_tray(r[0].segments@) is None {
        lemma_first_tray_island_some(r.drop_first());
        assert(r[first_tray_island(r)->0 as int] == r.drop_first()[first_tray_island(r.drop_first())->0 as int]);
    }
}

/// The layout `new` is `old` with the tray span of the first island that holds tray
/// segments (left region first) replaced by `segs`.
pub open spec fn layout_tray_spliced(old: BarLayout, new: BarLayout, segs: Seq<Segment>) -> bool {
    if first_tray_island(old.left@) is Some {
        &&& region_spliced(old.left@, new.left@, segs)
        &&& new.center@ == old.center@
        &&& new.right@ == old.right@
    } else if first_tray_island(old.center@) is Some {
        &&& new.left@ == old.left@
        &&& region_spliced(old.center@, new.center@, segs)
        &&& new.right@ == old.right@
    } else {
        &&& new.left@ == old.left@
        &&& new.center@ == old.center@
        &&& region_spliced(old.right@, new.right@, segs)
    }
}

/// The layout has a tray segment.
pub open spec fn has_tray_slot(b: BarLayout) -> bool {
    ||| first_tray_island(b.left@) is Some
    ||| first_tray_island(b.center@) is Some
    ||| first_tray_island(b.right@) is Some
}

/// A region of the bar.
#[derive(Debug, Clone, Copy, PartialEq, Eq, Structural)]
pub enum Region {
    Left,
    Center,
    Right,
}

/// Where the tray's segments start: the region, the island in it and the segment in it.
#[derive(Debug, Clone, Copy, PartialEq, Eq, Structural)]
pub struct TraySlot {
    pub region: Region,
    pub island: usize,
    pub start: usize,
}

/// The islands of one region.
pub open spec fn region_of(b: BarLayout, r: Region) -> Seq<Island> {
    match r {
        Region::Left => b.left@,
        Region::Center => b.center@,
        Region::Right => b.right@,
    }
}

/// The first region, left to right, with a tray segment.
pub open spec fn tray_region(b: BarLayout) -> Option<Region> {
    if first_tray_island(b.left@) is Some {
        Some(Region::Left)
    } else if first_tray_island(b.center@) is Some {
        Some(Region::Center)
    } else if first_tray_island(b.right@) is Some {
        Some(Region::Right)
    } else {
        None
    }
}

/// Where the layout's tray segments start.
pub open spec fn tray_slot_of(b: BarLayout) -> Option<TraySlot> {
    match tray_region(b) {
        None => None,
        Some(r) => {
            let i = first_tray_island(region_of(b, r))->0;
            Some(TraySlot { region: r, island: i as usize, start: first_tray(region_of(b, r)[i as int].segments@)->0 as usize })
        },
    }
}

/// `p` points into the layout: an island of its region, and a place within that island.
pub open spec fn slot_fits(b: BarLayout, p: TraySlot) -> bool {
    &&& p.island < region_of(b, p.region).len()
    &&& p.start <= region_of(b, p.region)[p.island as int].segments@.len()
}

/// `new` is `old` with `segs` inserted at the place `p`.
pub open spec fn inserted_at(old: BarLayout, new: BarLayout, segs: Seq<Segment>, p: TraySlot) -> bool {
    let o = region_of(old, p.region);
    let n = region_of(new, p.region);
    &&& n.len() == o.len()
    &&& forall|j: int| 0 <= j < o.len() && j != p.island ==> n[j] == o[j]
    &&& n[p.island as int].segments@ == o[p.island as int].segments@.take(p.start as int) + segs + o[
        p.island as int].segments@.skip(p.start as int)
    &&& forall|r: Region| r != p.region ==> region_of(new, r) == region_of(old, r)
}

/// The layout after a tray update: the tray span replaced by `segs` where there is one;
/// else, when the tray's last place `slot` is still in the layout, `segs` inserted there
/// (so that a tray emptied by its script comes back where it was); else unchanged.
pub open spec fn tray_updated(old: BarLayout, new: BarLayout, segs: Seq<Segment>, slot: Option<TraySlot>) -> bool {
    if has_tray_slot(old) {
        layout_tray_spliced(old, new, segs)
    } else {
        match slot {
            Some(p) => if slot_fits(old, p) {
                inserted_at(old, new, segs, p)
            } else {
                new == old
            },
            None => new == old,
        }
    }
}

fn tray_start(segs: &Vec<Segment>) -> (r: Option<usize>)
    ensures
        match r {
            Some(k) => first_tray(segs@) == Some(k as nat),
            None => first_tray(segs@) is None,
        },
{
    for j in 0..segs.len()
        invariant
            forall|k: int| 0 <= k < j ==> !is_tray_id(#[trigger] segs@[k].module_id@),
    {
        if is_tray_segment(&segs[j]) {
            proof {
                lemma_first_tray_exact(segs@, j as int);
            }
            return Some(j);
        }
    }
    proof {
        lemma_first_tray_exact(segs@, segs.len() as int);
    }
    None
}

fn copy_segments(v: &Vec<Segment>, from: usize, to: usize, out: &mut Vec<Segment>)
    requires
        from <= to <= v@.len(),
    ensures
        final(out)@ == old(out)@ + v@.subrange(from as int, to as int),
{
    let ghost start = out@;
    for j in from..to
        invariant
            from <= j <= to,
            to <= v@.len(),
            out@ == start + v@.subrange(from as int, j as int),
    {
        out.push(v[j].clone_segment());
        assert(v@.subrange(from as int, j + 1) =~= v@.subrange(from as int, j as int).push(v@[j as int]));
    }
}

fn insert_at(islands: &mut Vec<Island>, i: usize, start: usize, new: Vec<Segment>)
    requires
        i < old(islands)@.len(),
        start <= old(islands)@[i as int].segments@.len(),
    ensures
        final(islands)@.len() == old(islands)@.len(),
        forall|j: int| 0 <= j < old(islands)@.len() && j != i ==> final(islands)@[j] == old(islands)@[j],
        final(islands)@[i as int].segments@ == old(islands)@[i as int].segments@.take(start as int) + new@
            + old(islands)@[i as int].segments@.skip(start as int),
{
    let ghost orig = islands@;
    let island = islands.remove(i);
    let n = island.segments.len();
    let mut segs: Vec<Segment> = Vec::new();
    copy_segments(&island.segments, 0, start, &mut segs);
    copy_segments(&new, 0, new.len(), &mut segs);
    copy_segments(&island.segments, start, n, &mut segs);
    assert(island.segments@.subrange(0, start as int) =~= island.segments@.take(start as int));
    assert(new@.subrange(0, new@.len() as int) =~= new@);
    assert(island.segments@.subrange(start as int, n as int) =~= island.segments@.skip(start as int));
    islands.insert(i, Island { segments: segs });
    assert forall|j: int| 0 <= j < orig.len() && j != i implies islands@[j] == orig[j] by {
    }
}

/// Replace the tray segments of the first island that holds any (the `tray` placeholder or
/// earlier `tray:*` items) by `segs`, and record in `slot` where they start. When the layout
/// has no tray segment, insert `segs` at the recorded place, if it is still in the layout.
/// `false`, with the layout unchanged, when neither is possible.
pub fn apply_tray_segments(layout: &mut BarLayout, segs: Vec<Segment>, slot: &mut Option<TraySlot>) -> (found: bool)
    ensures
        tray_updated(*old(layout), *final(layout), segs@, *old(slot)),
        has_tray_slot(*old(layout)) ==> *final(slot) == tray_slot_of(*old(layout)),
        !has_tray_slot(*old(layout)) ==> *final(slot) == *old(slot),
        found == (has_tray_slot(*old(layout)) || (*old(slot) matches Some(p) && slot_fits(*old(layout), p))),
{
    if let Some(i) = tray_island_index(&layout.left) {
        proof {
            lemma_first_tray_island_some(layout.left@);
        }
        let start = tray_start(&layout.left[i].segments).unwrap();
        *slot = Some(TraySlot { region: Region::Left, island: i, start });
        splice_at(&mut layout.left, i, segs);
        return true;
    }
    if let Some(i) = tray_island_index(&layout.center) {
        proof {
            lemma_first_tray_island_some(layout.center@);
        }
        let start = tray_start(&layout.center[i].segments).unwrap();
        *slot = Some(TraySlot { region: Region::Center, island: i, start });
        splice_at(&mut layout.center, i, segs);
        return true;
    }
    if let Some(i) = tray_island_index(&layout.right) {
        proof {
            lemma_first_tray_island_some(layout.right@);
        }
        let start = tray_start(&layout.right[i].segments).unwrap();
        *slot = Some(TraySlot { region: Region::Right, island: i, start });
        splice_at(&mut layout.right, i, segs);
        return true;
    }
    let p = match *slot {
        Some(p) => p,
        None => {
            return false;
        },
    };
    let islands = match p.region {
        Region::Left => &mut layout.left,
        Region::Center => &mut layout.center,
        Region::Right => &mut layout.right,
    };
    if p.island < islands.len() && p.start <= islands[p.island].segments.len() {
        insert_at(islands, p.island, p.start, segs);
        true
    } else {
        false
    }
}

proof fn lemma_first_tray_found(s: Seq<Segment>)
    requires
        first_tray(s) is Some,
    ensures
        first_tray(s)->0 < s.len(),
        is_tray_id(s[first_tray(s)->0 as int].module_id@),
        forall|k: int| 0 <= k < first_tray(s)->0 ==> !is_tray_id(#[trigger] s[k].module_id@),
    decreases s.len(),
{
    if !is_tray_id(s[0].module_id@) {
        lemma_first_tray_found(s.drop_first());
        assert forall|k: int| 0 <= k < first_tray(s)->0 implies !is_tray_id(#[trigger] s[k].module_id@) by {
            if k > 0 {
                assert(s[k] == s.drop_first()[k - 1]);
            }
        }
    }
}

proof fn lemma_tray_count_concat(a: Seq<Segment>, b: Seq<Segment>)
    ensures
        tray_count(a + b) == tray_count(a) + tray_count(b),
    decreases b.len(),
{
    if b.len() == 0 {
        assert(a + b =~= a);
    } else {
        assert((a + b).drop_last() =~= a + b.drop_last());
        assert((a + b).last() == b.last());
        lemma_tray_count_concat(a, b.drop_last());
    }
}

proof fn lemma_tray_count_uniform(s: Seq<Segment>, tray: bool)
    requires
        forall|k: int| 0 <= k < s.len() ==> is_tray_id(#[trigger] s[k].module_id@) == tray,
    ensures
        tray_count(s) == if tray { s.len() } else { 0 },
    decreases s.len(),
{
    if s.len() > 0 {
        assert forall|k: int| 0 <= k < s.drop_last().len() implies is_tray_id(#[trigger] s.drop_last()[k].module_id@)
            == tray by {
            assert(s.drop_last()[k] == s[k]);
        }
        lemma_tray_count_uniform(s.drop_last(), tray);
        assert(s.last() == s[s.len() - 1]);
    }
}

/// Every segment that [`tray_segments`] builds is a tray segment.
pub proof fn lemma_tray_built_ids(
    r: Seq<Segment>,
    items: Seq<MinimalTrayItem>,
    icons: Seq<Option<String>>,
    overlays: Seq<Option<String>>,
    events: SegmentEvents,
    feed_id: bool,
)
    requires
        tray_built(r, items, icons, overlays, events, feed_id),
    ensures
        forall|k: int| 0 <= k < r.len() ==> is_tray_id(#[trigger] r[k].module_id@),
    decreases items.len(),
{
    if items.len() > 0 {
        let n = items.len() - 1;
        if items[n].status != TrayItemStatus::Passive {
            lemma_tray_built_ids(r.drop_last(), items.drop_last(), icons.drop_last(), overlays.drop_last(), events, feed_id);
            let id = r.last().module_id@;
            assert(id == "tray:"@ + items[n].app_id@);
            assert(id.subrange(0, "tray:"@.len() as int) =~= "tray:"@);
            assert forall|k: int| 0 <= k < r.len() implies is_tray_id(#[trigger] r[k].module_id@) by {
                if k < r.len() - 1 {
                    assert(r[k] == r.drop_last()[k]);
                } else {
                    assert(r[k] == r.last());
                }
            }
        } else {
            lemma_tray_built_ids(r, items.drop_last(), icons.drop_last(), overlays.drop_last(), events, feed_id);
        }
    }
}

/// The layout after the first of the two updates of the law below.
proof fn lemma_first_tray_update(b0: BarLayout, b1: BarLayout, segs1: Seq<Segment>, slot0: Option<TraySlot>, p: TraySlot)
    requires
        tray_slot_of(b0) == Some(p),
        tray_updated(b0, b1, segs1, slot0),
    ensures
        ({
            let r0 = region_of(b0, p.region);
            let r1 = region_of(b1, p.region);
            let o = r0[p.island as int].segments@;
            &&& p.island < r0.len()
            &&& first_tray(o) == Some(p.start as nat)
            &&& p.start < o.len()
            &&& p.start + tray_count(o) <= o.len()
            &&& forall|k: int| 0 <= k < p.start ==> !is_tray_id(#[trigger] o[k].module_id@)
            &&& r1.len() == r0.len()
            &&& forall|j: int| 0 <= j < r0.len() && j != p.island ==> r1[j] == r0[j]
            &&& r1[p.island as int].segments@ == o.take(p.start as int) + segs1 + o.skip(p.start + tray_count(o))
            &&& forall|r: Region| r != p.region ==> region_of(b1, r) == region_of(b0, r)
        }),
{
    let r0 = region_of(b0, p.region);
    let o = r0[p.island as int].segments@;
    let start = p.start as int;
    assert(tray_region(b0) == Some(p.region));
    lemma_first_tray_island_some(r0);
    assert(r0.len() <= usize::MAX) by {
        assert(b0.left.len() == b0.left@.len());
        assert(b0.center.len() == b0.center@.len());
        assert(b0.right.len() == b0.right@.len());
    }
    assert(first_tray_island(r0) == Some(p.island as nat));
    assert(o.len() <= usize::MAX) by {
        assert(r0[p.island as int].segments.len() == o.len());
    }
    lemma_first_tray_found(o);
    assert(first_tray(o) == Some(p.start as nat));
    lemma_tray_count_bound(o, start);
    assert(has_tray_slot(b0));
    assert(layout_tray_spliced(b0, b1, segs1));
    let r1 = region_of(b1, p.region);
    assert(region_spliced(r0, r1, segs1));
    assert forall|j: int| 0 <= j < r0.len() && j != p.island implies r1[j] == r0[j] by {}
    assert forall|r: Region| r != p.region implies region_of(b1, r) == region_of(b0, r) by {
        match p.region {
            Region::Left => {},
            Region::Center => {
                assert(first_tray_island(b0.left@) is None);
            },
            Region::Right => {
                assert(first_tray_island(b0.left@) is None);
                assert(first_tray_island(b0.center@) is None);
            },
        }
    }
}

/// A tray keeps its place across updates: when the layout's tray segments form one run in
/// one island, an update with the tray segments `segs1` (those that [`tray_segments`] builds,
/// none at all when no item is visible) followed by an update with `segs2` leaves that
/// island with `segs2` where the run was, and every other island as it was. The first update
/// records the run's start in the tray slot, which the second is handed.
pub proof fn lemma_tray_returns_to_its_place(
    b0: BarLayout,
    b1: BarLayout,
    b2: BarLayout,
    segs1: Seq<Segment>,
    segs2: Seq<Segment>,
    slot0: Option<TraySlot>,
    slot1: Option<TraySlot>,
    p: TraySlot,
)
    requires
        tray_slot_of(b0) == Some(p),
        forall|r: Region, j: int|
            0 <= j < region_of(b0, r).len() && !(r == p.region && j == p.island) ==> first_tray(
                (#[trigger] region_of(b0, r)[j]).segments@,
            ) is None,
        forall|j: int|
            0 <= j < region_of(b0, p.region)[p.island as int].segments@.len() && is_tray_id(
                (#[trigger] region_of(b0, p.region)[p.island as int].segments@[j]).module_id@,
            ) ==> j < p.start + tray_count(region_of(b0, p.region)[p.island as int].segments@),
        forall|k: int| 0 <= k < segs1.len() ==> is_tray_id(#[trigger] segs1[k].module_id@),
        tray_updated(b0, b1, segs1, slot0),
        slot1 == tray_slot_of(b0),
        tray_updated(b1, b2, segs2, slot1),
    ensures
        ({
            let o = region_of(b0, p.region)[p.island as int].segments@;
            &&& region_of(b2, p.region).len() == region_of(b0, p.region).len()
            &&& forall|j: int|
                0 <= j < region_of(b0, p.region).len() && j != p.island ==> region_of(b2, p.region)[j]
                    == region_of(b0, p.region)[j]
            &&& region_of(b2, p.region)[p.island as int].segments@ == o.take(p.start as int) + segs2 + o.skip(
                p.start + tray_count(o),
            )
            &&& forall|r: Region| r != p.region ==> region_of(b2, r) == region_of(b0, r)
        }),
{
    lemma_first_tray_update(b0, b1, segs1, slot0, p);
    let r0 = region_of(b0, p.region);
    let r1 = region_of(b1, p.region);
    let o = r0[p.island as int].segments@;
    let i = p.island as int;
    let start = p.start as int;
    let n = tray_count(o);
    let m = r1[i].segments@;
    let tail = o.skip(start + n);
    // What follows the run holds no tray segment.
    assert forall|k: int| 0 <= k < tail.len() implies !is_tray_id(#[trigger] tail[k].module_id@) by {
        assert(tail[k] == o[k + start + n]);
    }
    // Every other island, in every region, holds no tray segment.
    assert forall|r: Region, j: int| 0 <= j < region_of(b1, r).len() && !(r == p.region && j == i) implies first_tray(
        (#[trigger] region_of(b1, r)[j]).segments@,
    ) is None by {
        if r == p.region {
            assert(r1[j] == r0[j]);
        } else {
            assert(region_of(b1, r) == region_of(b0, r));
        }
    }
    if segs1.len() == 0 {
        assert(m =~= o.take(start) + tail);
        assert forall|k: int| 0 <= k < m.len() implies !is_tray_id(#[trigger] m[k].module_id@) by {
            if k >= start {
                assert(m[k] == tail[k - start]);
            } else {
                assert(m[k] == o[k]);
            }
        }
        lemma_first_tray_exact(m, m.len() as int);
        assert forall|r: Region| first_tray_island(#[trigger] region_of(b1, r)) is None by {
            let rr = region_of(b1, r);
            assert forall|j: int| 0 <= j < rr.len() implies first_tray((#[trigger] rr[j]).segments@) is None by {}
            lemma_first_tray_island_exact(rr, rr.len() as int);
        }
        assert(first_tray_island(region_of(b1, Region::Left)) is None);
        assert(first_tray_island(region_of(b1, Region::Center)) is None);
        assert(first_tray_island(region_of(b1, Region::Right)) is None);
        assert(!has_tray_slot(b1));
        assert(slot_fits(b1, p));
        assert(inserted_at(b1, b2, segs2, p));
        assert(m.take(start) =~= o.take(start));
        assert(m.skip(start) =~= tail);
    } else {
        // The new run starts where the old one did and is as long as `segs1`.
        assert forall|k: int| 0 <= k < start implies !is_tray_id(#[trigger] m[k].module_id@) by {
            assert(m[k] == o[k]);
        }
        assert(m[start] == segs1[0]);
        lemma_first_tray_exact(m, start);
        lemma_tray_count_uniform(o.take(start), false);
        lemma_tray_count_uniform(segs1, true);
        lemma_tray_count_uniform(tail, false);
        lemma_tray_count_concat(o.take(start), segs1);
        lemma_tray_count_concat(o.take(start) + segs1, tail);
        assert(tray_count(m) == segs1.len());
        // It lies in island `i`, the first island with a tray segment, of the first region
        // with one.
        lemma_first_tray_island_exact(r1, i);
        assert(first_tray_island(r1) == Some(i as nat));
        match p.region {
            Region::Left => {},
            Region::Center => {
                assert(first_tray_island(b0.left@) is None);
                assert(b1.left@ == b0.left@);
            },
            Region::Right => {
                assert(first_tray_island(b0.left@) is None);
                assert(first_tray_island(b0.center@) is None);
                assert(b1.left@ == b0.left@);
                assert(b1.center@ == b0.center@);
            },
        }
        assert(has_tray_slot(b1));
        assert(layout_tray_spliced(b1, b2, segs2));
        let r2 = region_of(b2, p.region);
        assert(region_spliced(r1, r2, segs2));
        assert(r2[i].segments@ == spliced(m, segs2));
        assert(m.take(start) =~= o.take(start));
        assert(m.skip(start + segs1.len()) =~= tail);
        assert forall|j: int| 0 <= j < r0.len() && j != i implies r2[j] == r0[j] by {
            assert(r2[j] == r1[j]);
        }
        match p.region {
            Region::Left => {},
            Region::Center => {
                assert(b2.left@ == b1.left@);
                assert(b2.right@ == b1.right@);
            },
            Region::Right => {
                assert(b2.left@ == b1.left@);
                assert(b2.center@ == b1.center@);
            },
        }
    }
}

} // verus!
