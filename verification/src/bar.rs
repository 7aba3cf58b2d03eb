//! Edits of a bar layout that visit every segment, region after region.
use vstd::prelude::*;

use crate::model::{BarLayout, Island, Segment, bar_ids, islands_ids, segment_ids};
use crate::modules::ModuleUpdate;
use crate::text::eq_str;

verus! {

/// `new` is `old` with each segment replaced by one that `rel` relates to it.
pub open spec fn segs_related(old: Seq<Segment>, new: Seq<Segment>, rel: spec_fn(Segment, Segment) -> bool) -> bool {
    &&& new.len() == old.len()
    &&& forall|j: int| 0 <= j < old.len() ==> #[trigger] rel(old[j], new[j])
}

/// `new` has the islands of `old`, each with its segments related by `rel`.
pub open spec fn islands_related(old: Seq<Island>, new: Seq<Island>, rel: spec_fn(Segment, Segment) -> bool) -> bool {
    &&& new.len() == old.len()
    &&& forall|i: int| 0 <= i < old.len() ==> #[trigger] segs_related(old[i].segments@, new[i].segments@, rel)
}

/// `new` has the regions and islands of `old`, with every segment related by `rel`.
pub open spec fn layout_related(old: BarLayout, new: BarLayout, rel: spec_fn(Segment, Segment) -> bool) -> bool {
    &&& islands_related(old.left@, new.left@, rel)
    &&& islands_related(old.center@, new.center@, rel)
    &&& islands_related(old.right@, new.right@, rel)
}

/// An edit applied to one segment at a time.
pub(crate) trait SegmentEdit {
    /// How the edit relates a segment before and after.
    spec fn rel(&self) -> spec_fn(Segment, Segment) -> bool;

    /// Edit one segment.
    fn edit(&self, s: &mut Segment)
        ensures
            (self.rel())(*old(s), *final(s)),
    ;
}

fn edit_islands<E: SegmentEdit>(islands: &mut Vec<Island>, e: &E)
    ensures
        islands_related(old(islands)@, final(islands)@, e.rel()),
{
    let ghost orig = islands@;
    let n = islands.len();
    for i in 0..n
        invariant
            n == orig.len(),
            islands@.len() == n,
            forall|k: int| 0 <= k < i ==> #[trigger] segs_related(orig[k].segments@, islands@[k].segments@, e.rel()),
            forall|k: int| i <= k < n ==> #[trigger] islands@[k] == orig[k],
    {
        let m = islands[i].segments.len();
        let ghost before = islands@;
        for j in 0..m
            invariant
                n == orig.len(),
                i < n,
                islands@.len() == n,
                before[i as int] == orig[i as int],
                m == orig[i as int].segments@.len(),
                islands@[i as int].segments@.len() == m,
                forall|k: int| 0 <= k < n && k != i ==> #[trigger] islands@[k] == before[k],
                forall|k: int| 0 <= k < j ==> #[trigger] (e.rel())(orig[i as int].segments@[k], islands@[i as int].segments@[k]),
                forall|k: int| j <= k < m ==> #[trigger] islands@[i as int].segments@[k] == orig[i as int].segments@[k],
        {
            e.edit(&mut islands[i].segments[j]);
        }
    }
}

/// Apply `e` to every segment of `layout`.
pub(crate) fn edit_layout<E: SegmentEdit>(layout: &mut BarLayout, e: &E)
    ensures
        layout_related(*old(layout), *final(layout), e.rel()),
{
    edit_islands(&mut layout.left, e);
    edit_islands(&mut layout.center, e);
    edit_islands(&mut layout.right, e);
}

/// `new` is `old` with its label replaced by `label`.
pub open spec fn with_label(old: Segment, new: Segment, label: Seq<char>) -> bool {
    &&& new.label@ == label
    &&& new.module_id == old.module_id
    &&& new.icon_name == old.icon_name
    &&& new.display_mode == old.display_mode
    &&& new.events == old.events
    &&& new.use_markup == old.use_markup
    &&& new.overlay_icon_name == old.overlay_icon_name
}

/// A segment of module `module_id` takes `label`; any other is unchanged.
pub open spec fn relabeled(old: Segment, new: Segment, module_id: Seq<char>, label: Seq<char>) -> bool {
    if old.module_id@ == module_id {
        with_label(old, new, label)
    } else {
        new == old
    }
}

struct Relabel<'a> {
    module_id: &'a str,
    label: &'a str,
}

impl<'a> SegmentEdit for Relabel<'a> {
    closed spec fn rel(&self) -> spec_fn(Segment, Segment) -> bool {
        |a: Segment, b: Segment| relabeled(a, b, self.module_id@, self.label@)
    }

    fn edit(&self, s: &mut Segment) {
        if eq_str(s.module_id.as_str(), self.module_id) {
            s.label = self.label.to_owned();
        }
    }
}

/// Set the label of every segment of module `module_id`; the bar keeps its modules.
pub fn set_segment_label(layout: &mut BarLayout, module_id: &str, label: &str)
    ensures
        layout_related(*old(layout), *final(layout), |a: Segment, b: Segment| relabeled(a, b, module_id@, label@)),
        bar_ids(*final(layout)) == bar_ids(*old(layout)),
{
    let e = Relabel { module_id, label };
    edit_layout(layout, &e);
    proof {
        lemma_related_keeps_ids(*old(layout), *layout, e.rel());
    }
}


/// Every edit that keeps module ids keeps the bar's modules and their order.
pub proof fn lemma_related_keeps_ids(old: BarLayout, new: BarLayout, rel: spec_fn(Segment, Segment) -> bool)
    requires
        layout_related(old, new, rel),
        forall|a: Segment, b: Segment| #[trigger] rel(a, b) ==> b.module_id == a.module_id,
    ensures
        bar_ids(new) == bar_ids(old),
{
    lemma_islands_related_ids(old.left@, new.left@, rel);
    lemma_islands_related_ids(old.center@, new.center@, rel);
    lemma_islands_related_ids(old.right@, new.right@, rel);
}

proof fn lemma_islands_related_ids(old: Seq<Island>, new: Seq<Island>, rel: spec_fn(Segment, Segment) -> bool)
    requires
        islands_related(old, new, rel),
        forall|a: Segment, b: Segment| #[trigger] rel(a, b) ==> b.module_id == a.module_id,
    ensures
        islands_ids(new) == islands_ids(old),
    decreases old.len(),
{
    if old.len() > 0 {
        let n = (old.len() - 1) as int;
        assert(old.drop_last().len() == new.drop_last().len());
        assert forall|i: int| 0 <= i < old.drop_last().len() implies #[trigger] segs_related(
            old.drop_last()[i].segments@,
            new.drop_last()[i].segments@,
            rel,
        ) by {
            assert(segs_related(old[i].segments@, new[i].segments@, rel));
        }
        lemma_islands_related_ids(old.drop_last(), new.drop_last(), rel);
        assert(segs_related(old[n].segments@, new[n].segments@, rel));
        assert forall|j: int| 0 <= j < old[n].segments@.len() implies #[trigger] new[n].segments@[j].module_id
            == old[n].segments@[j].module_id by {
            assert(rel(old[n].segments@[j], new[n].segments@[j]));
        }
        assert(segment_ids(new.last().segments@) =~= segment_ids(old.last().segments@));
    }
}


/// A layout is related to itself by any relation that holds of every segment with itself.
pub proof fn lemma_related_refl(b: BarLayout, rel: spec_fn(Segment, Segment) -> bool)
    requires
        forall|a: Segment| #[trigger] rel(a, a),
    ensures
        layout_related(b, b, rel),
{
    assert forall|i: int| 0 <= i < b.left@.len() implies #[trigger] segs_related(b.left@[i].segments@, b.left@[i].segments@, rel) by {
        assert forall|j: int| 0 <= j < b.left@[i].segments@.len() implies #[trigger] rel(b.left@[i].segments@[j], b.left@[i].segments@[j]) by {
            assert(rel(b.left@[i].segments@[j], b.left@[i].segments@[j]));
        }
    }
    assert forall|i: int| 0 <= i < b.center@.len() implies #[trigger] segs_related(b.center@[i].segments@, b.center@[i].segments@, rel) by {
        assert forall|j: int| 0 <= j < b.center@[i].segments@.len() implies #[trigger] rel(b.center@[i].segments@[j], b.center@[i].segments@[j]) by {
            assert(rel(b.center@[i].segments@[j], b.center@[i].segments@[j]));
        }
    }
    assert forall|i: int| 0 <= i < b.right@.len() implies #[trigger] segs_related(b.right@[i].segments@, b.right@[i].segments@, rel) by {
        assert forall|j: int| 0 <= j < b.right@[i].segments@.len() implies #[trigger] rel(b.right@[i].segments@[j], b.right@[i].segments@[j]) by {
            assert(rel(b.right@[i].segments@[j], b.right@[i].segments@[j]));
        }
    }
}


// ---------------------------------------------------------------------------
// Module updates
// ---------------------------------------------------------------------------

/// The index of the first segment of `s` of module `id`.
pub open spec fn first_with(s: Seq<Segment>, id: Seq<char>) -> Option<nat>
    decreases s.len(),
{
    if s.len() == 0 {
        None
    } else if s[0].module_id@ == id {
        Some(0)
    } else {
        match first_with(s.drop_first(), id) {
            Some(i) => Some(i + 1),
            None => None,
        }
    }
}

/// The index of the first island of `r` with a segment of module `id`.
pub open spec fn first_island_with(r: Seq<Island>, id: Seq<char>) -> Option<nat>
    decreases r.len(),
{
    if r.len() == 0 {
        None
    } else if first_with(r[0].segments@, id) is Some {
        Some(0)
    } else {
        match first_island_with(r.drop_first(), id) {
            Some(i) => Some(i + 1),
            None => None,
        }
    }
}

/// `new` is `old` showing `text`, as markup when `markup` is set.
pub open spec fn with_text(old: Segment, new: Segment, text: Seq<char>, markup: bool) -> bool {
    &&& new.label@ == text
    &&& new.use_markup == markup
    &&& new.module_id == old.module_id
    &&& new.icon_name == old.icon_name
    &&& new.display_mode == old.display_mode
    &&& new.events == old.events
    &&& new.overlay_icon_name == old.overlay_icon_name
}

/// `new` is the region `old` with the first segment of module `id` showing `text`.
pub open spec fn region_updated(old: Seq<Island>, new: Seq<Island>, id: Seq<char>, text: Seq<char>, markup: bool) -> bool {
    match first_island_with(old, id) {
        None => new == old,
        Some(i) => {
            let k = first_with(old[i as int].segments@, id)->0 as int;
            &&& new.len() == old.len()
            &&& forall|j: int| 0 <= j < old.len() && j != i ==> new[j] == old[j]
            &&& new[i as int].segments@.len() == old[i as int].segments@.len()
            &&& forall|j: int| 0 <= j < old[i as int].segments@.len() && j != k ==> new[i as int].segments@[j]
                == old[i as int].segments@[j]
            &&& with_text(old[i as int].segments@[k], new[i as int].segments@[k], text, markup)
        },
    }
}

/// `new` is `old` with the first segment of the update's module, left region first, showing
/// the update's text.
pub open spec fn layout_updated(old: BarLayout, new: BarLayout, u: ModuleUpdate) -> bool {
    let id = u.module_id@;
    if first_island_with(old.left@, id) is Some {
        &&& region_updated(old.left@, new.left@, id, u.text@, u.use_markup)
        &&& new.center@ == old.center@
        &&& new.right@ == old.right@
    } else if first_island_with(old.center@, id) is Some {
        &&& new.left@ == old.left@
        &&& region_updated(old.center@, new.center@, id, u.text@, u.use_markup)
        &&& new.right@ == old.right@
    } else {
        &&& new.left@ == old.left@
        &&& new.center@ == old.center@
        &&& region_updated(old.right@, new.right@, id, u.text@, u.use_markup)
    }
}

/// The layout has a segment of module `id`.
pub open spec fn has_module(b: BarLayout, id: Seq<char>) -> bool {
    ||| first_island_with(b.left@, id) is Some
    ||| first_island_with(b.center@, id) is Some
    ||| first_island_with(b.right@, id) is Some
}

proof fn lemma_first_with_exact(s: Seq<Segment>, id: Seq<char>, k: int)
    requires
        0 <= k <= s.len(),
        forall|j: int| 0 <= j < k ==> (#[trigger] s[j]).module_id@ != id,
    ensures
        k < s.len() && s[k].module_id@ == id ==> first_with(s, id) == Some(k as nat),
        k == s.len() ==> first_with(s, id) is None,
    decreases k,
{
    if k > 0 {
        assert forall|j: int| 0 <= j < k - 1 implies (#[trigger] s.drop_first()[j]).module_id@ != id by {
            assert(s.drop_first()[j] == s[j + 1]);
        }
        lemma_first_with_exact(s.drop_first(), id, k - 1);
    }
}

proof fn lemma_first_island_exact(r: Seq<Island>, id: Seq<char>, k: int)
    requires
        0 <= k <= r.len(),
        forall|j: int| 0 <= j < k ==> first_with((#[trigger] r[j]).segments@, id) is None,
    ensures
        k < r.len() && first_with(r[k].segments@, id) is Some ==> first_island_with(r, id) == Some(k as nat),
        k == r.len() ==> first_island_with(r, id) is None,
    decreases k,
{
    if k > 0 {
        assert forall|j: int| 0 <= j < k - 1 implies first_with((#[trigger] r.drop_first()[j]).segments@, id) is None by {
            assert(r.drop_first()[j] == r[j + 1]);
        }
        lemma_first_island_exact(r.drop_first(), id, k - 1);
    }
}

fn region_has_module(islands: &Vec<Island>, id: &str) -> (r: bool)
    ensures
        r == (first_island_with(islands@, id@) is Some),
{
    let n = islands.len();
    for i in 0..n
        invariant
            n == islands@.len(),
            forall|k: int| 0 <= k < i ==> first_with((#[trigger] islands@[k]).segments@, id@) is None,
    {
        let m = islands[i].segments.len();
        for j in 0..m
            invariant
                n == islands@.len(),
                i < n,
                m == islands@[i as int].segments@.len(),
                forall|k: int| 0 <= k < i ==> first_with((#[trigger] islands@[k]).segments@, id@) is None,
                forall|k: int| 0 <= k < j ==> (#[trigger] islands@[i as int].segments@[k]).module_id@ != id@,
        {
            if eq_str(islands[i].segments[j].module_id.as_str(), id) {
                proof {
                    lemma_first_with_exact(islands@[i as int].segments@, id@, j as int);
                    lemma_first_island_exact(islands@, id@, i as int);
                }
                return true;
            }
        }
        proof {
            lemma_first_with_exact(islands@[i as int].segments@, id@, m as int);
        }
    }
    proof {
        lemma_first_island_exact(islands@, id@, n as int);
    }
    false
}

/// Whether some segment of the layout, in any region, belongs to module `id`.
pub fn layout_has_module(layout: &BarLayout, id: &str) -> (r: bool)
    ensures
        r == has_module(*layout, id@),
{
    region_has_module(&layout.left, id) || region_has_module(&layout.center, id) || region_has_module(
        &layout.right,
        id,
    )
}

fn set_text(seg: &mut Segment, text: &String, markup: bool)
    ensures
        with_text(*old(seg), *final(seg), text@, markup),
{
    seg.label = text.clone();
    seg.use_markup = markup;
}

fn update_region(islands: &mut Vec<Island>, u: &ModuleUpdate) -> (found: bool)
    ensures
        found == (first_island_with(old(islands)@, u.module_id@) is Some),
        region_updated(old(islands)@, final(islands)@, u.module_id@, u.text@, u.use_markup),
{
    let ghost orig = islands@;
    let ghost id = u.module_id@;
    let n = islands.len();
    for i in 0..n
        invariant
            n == orig.len(),
            orig == old(islands)@,
            islands@ == orig,
            id == u.module_id@,
            forall|k: int| 0 <= k < i ==> first_with((#[trigger] orig[k]).segments@, id) is None,
    {
        let m = islands[i].segments.len();
        for j in 0..m
            invariant
                n == orig.len(),
                i < n,
                orig == old(islands)@,
                islands@ == orig,
                id == u.module_id@,
                m == orig[i as int].segments@.len(),
                forall|k: int| 0 <= k < i ==> first_with((#[trigger] orig[k]).segments@, id) is None,
                forall|k: int| 0 <= k < j ==> (#[trigger] orig[i as int].segments@[k]).module_id@ != id,
        {
            if eq_str(islands[i].segments[j].module_id.as_str(), u.module_id.as_str()) {
                proof {
                    lemma_first_with_exact(orig[i as int].segments@, id, j as int);
                    lemma_first_island_exact(orig, id, i as int);
                }
                set_text(&mut islands[i].segments[j], &u.text, u.use_markup);
                assert(first_island_with(orig, id) == Some(i as nat));
                assert(first_with(orig[i as int].segments@, id) == Some(j as nat));
                return true;
            }
        }
        proof {
            lemma_first_with_exact(orig[i as int].segments@, id, m as int);
        }
    }
    proof {
        lemma_first_island_exact(orig, id, n as int);
    }
    false
}

/// Show an update's text on the first segment of its module, left region first; `false`
/// when no segment belongs to that module, and the layout is then unchanged.
pub fn apply_update(layout: &mut BarLayout, update: &ModuleUpdate) -> (found: bool)
    ensures
        found == has_module(*old(layout), update.module_id@),
        layout_updated(*old(layout), *final(layout), *update),
        bar_ids(*final(layout)) == bar_ids(*old(layout)),
{
    let ghost id = update.module_id@;
    if update_region(&mut layout.left, update) {
        proof {
            lemma_updated_keeps_ids(old(layout).left@, layout.left@, id, update.text@, update.use_markup);
        }
        return true;
    }
    if update_region(&mut layout.center, update) {
        proof {
            lemma_updated_keeps_ids(old(layout).center@, layout.center@, id, update.text@, update.use_markup);
        }
        return true;
    }
    let found = update_region(&mut layout.right, update);
    proof {
        lemma_updated_keeps_ids(old(layout).right@, layout.right@, id, update.text@, update.use_markup);
    }
    found
}

proof fn lemma_updated_keeps_ids(old: Seq<Island>, new: Seq<Island>, id: Seq<char>, text: Seq<char>, markup: bool)
    requires
        region_updated(old, new, id, text, markup),
    ensures
        islands_ids(new) == islands_ids(old),
{
    if let Some(i) = first_island_with(old, id) {
        let rel = |a: Segment, b: Segment| b.module_id == a.module_id;
        let k = first_with(old[i as int].segments@, id)->0 as int;
        assert forall|x: int| 0 <= x < old.len() implies #[trigger] segs_related(old[x].segments@, new[x].segments@, rel) by {
            if x == i {
                assert forall|j: int| 0 <= j < old[x].segments@.len() implies #[trigger] rel(old[x].segments@[j], new[x].segments@[j]) by {
                    if j == k {
                    } else {
                        assert(new[x].segments@[j] == old[x].segments@[j]);
                    }
                }
            } else {
                assert(new[x] == old[x]);
                assert forall|j: int| 0 <= j < old[x].segments@.len() implies #[trigger] rel(old[x].segments@[j], new[x].segments@[j]) by {
                }
            }
        }
        lemma_islands_related_ids(old, new, rel);
    }
}

} // verus!
