//! The keyboard-layout module.
use vstd::prelude::*;

use crate::sort::{keyed_sort, lemma_keyed_sort_map, lemma_keyed_sort_perm, lemma_keyed_sort_sorted, map_items, sort_keyed};
use crate::text::{
    chars_of, is_digit, lines_chars, lines_of, parse_u32, parse_u32_chars,
    slice_chars, starts_with, starts_with_chars, str_views, string_of, trim, trim_chars, views,
};

verus! {

/// JSON record emitted by the keyboard exec script.
pub struct KeyboardData {
    pub label: String,
}

/// Configuration for the keyboard module.
#[derive(Debug, Clone, Default)]
pub struct KeyboardConfig {
    /// Optional exec command (`sh -c <command>`) whose stdout drives this module.
    pub command: Option<String>,
}

/// The number of leading decimal digits of `s`.
pub open spec fn digit_run(s: Seq<char>) -> nat
    decreases s.len(),
{
    if s.len() > 0 && is_digit(s[0]) {
        1 + digit_run(s.drop_first())
    } else {
        0
    }
}

/// The index of the first `c` in `s`.
pub open spec fn first_index(s: Seq<char>, c: char) -> Option<nat>
    decreases s.len(),
{
    if s.len() == 0 {
        None
    } else if s[0] == c {
        Some(0)
    } else {
        match first_index(s.drop_first(), c) {
            Some(i) => Some(i + 1),
            None => None,
        }
    }
}

/// The group number and layout name of a `name[GroupN]="…";` line of an XKB keymap.
pub open spec fn layout_entry(line: Seq<char>) -> Option<(u64, Seq<char>)> {
    let t = trim(line);
    if !starts_with(t, "name[Group"@) || t.len() < 10 {
        None
    } else {
        let rest = t.subrange(10, t.len() as int);
        let k = digit_run(rest);
        match parse_u32(rest.take(k as int)) {
            None => None,
            Some(g) => {
                let after = rest.subrange(k as int, rest.len() as int);
                if !starts_with(after, "]=\""@) || after.len() < 3 {
                    None
                } else {
                    let body = after.subrange(3, after.len() as int);
                    match first_index(body, '"') {
                        None => None,
                        Some(q) => Some((g as u64, body.take(q as int))),
                    }
                }
            },
        }
    }
}

/// The layout entries of `lines`, in line order.
pub open spec fn layout_entries(lines: Seq<Seq<char>>) -> Seq<(u64, Seq<char>)>
    decreases lines.len(),
{
    if lines.len() == 0 {
        Seq::empty()
    } else {
        let r = layout_entries(lines.drop_last());
        match layout_entry(lines.last()) {
            Some(e) => r.push(e),
            None => r,
        }
    }
}

/// The layout names of an XKB keymap in group order (lines of equal group in line order).
pub open spec fn layout_names(keymap: Seq<char>) -> Seq<Seq<char>> {
    keyed_sort(layout_entries(lines_of(keymap))).map_values(|e: (u64, Seq<char>)| e.1)
}

proof fn lemma_digit_run(s: Seq<char>)
    ensures
        digit_run(s) <= s.len(),
        forall|j: int| 0 <= j < digit_run(s) ==> is_digit(#[trigger] s[j]),
        digit_run(s) < s.len() ==> !is_digit(s[digit_run(s) as int]),
    decreases s.len(),
{
    if s.len() > 0 && is_digit(s[0]) {
        lemma_digit_run(s.drop_first());
        assert forall|j: int| 0 <= j < digit_run(s) implies is_digit(#[trigger] s[j]) by {
            if j > 0 {
                assert(s[j] == s.drop_first()[j - 1]);
            }
        }
    }
}

proof fn lemma_digit_run_exact(s: Seq<char>, k: int)
    requires
        0 <= k <= s.len(),
        forall|j: int| 0 <= j < k ==> is_digit(#[trigger] s[j]),
        k == s.len() || !is_digit(s[k]),
    ensures
        digit_run(s) == k,
    decreases k,
{
    if k > 0 {
        assert forall|j: int| 0 <= j < k - 1 implies is_digit(#[trigger] s.drop_first()[j]) by {
            assert(s.drop_first()[j] == s[j + 1]);
        }
        if k - 1 < s.drop_first().len() {
            assert(s.drop_first()[k - 1] == s[k]);
        }
        lemma_digit_run_exact(s.drop_first(), k - 1);
    }
}

proof fn lemma_first_index_exact(s: Seq<char>, c: char, q: int)
    requires
        0 <= q <= s.len(),
        forall|j: int| 0 <= j < q ==> s[j] != c,
    ensures
        q < s.len() && s[q] == c ==> first_index(s, c) == Some(q as nat),
        q == s.len() ==> first_index(s, c) is None,
    decreases q,
{
    if q > 0 {
        assert forall|j: int| 0 <= j < q - 1 implies s.drop_first()[j] != c by {
            assert(s.drop_first()[j] == s[j + 1]);
        }
        if q < s.len() {
            assert(s.drop_first()[q - 1] == s[q]);
        }
        lemma_first_index_exact(s.drop_first(), c, q - 1);
    }
}

fn layout_entry_exec(line: &Vec<char>) -> (r: Option<(u64, Vec<char>)>)
    ensures
        match r {
            Some(e) => layout_entry(line@) == Some((e.0, e.1@)),
            None => layout_entry(line@) is None,
        },
{
    let t = trim_chars(line);
    let prefix = chars_of("name[Group");
    proof {
        reveal_strlit("name[Group");
        reveal_strlit("]=\"");
    }
    if !starts_with_chars(&t, &prefix) || t.len() < 10 {
        return None;
    }
    let rest = slice_chars(&t, 10, t.len());
    let mut k: usize = 0;
    while k < rest.len() && '0' <= rest[k] && rest[k] <= '9'
        invariant
            k <= rest.len(),
            forall|j: int| 0 <= j < k ==> is_digit(#[trigger] rest@[j]),
        decreases rest.len() - k,
    {
        k += 1;
    }
    proof {
        lemma_digit_run_exact(rest@, k as int);
    }
    let digits = slice_chars(&rest, 0, k);
    assert(digits@ =~= rest@.take(k as int));
    let g = match parse_u32_chars(&digits) {
        Some(g) => g,
        None => {
            return None;
        },
    };
    let after = slice_chars(&rest, k, rest.len());
    if !starts_with_chars(&after, &chars_of("]=\"")) || after.len() < 3 {
        return None;
    }
    let body = slice_chars(&after, 3, after.len());
    let mut q: usize = 0;
    while q < body.len() && body[q] != '"'
        invariant
            q <= body.len(),
            forall|j: int| 0 <= j < q ==> body@[j] != '"',
        decreases body.len() - q,
    {
        q += 1;
    }
    proof {
        lemma_first_index_exact(body@, '"', q as int);
    }
    if q == body.len() {
        return None;
    }
    let name = slice_chars(&body, 0, q);
    assert(name@ =~= body@.take(q as int));
    Some((g as u64, name))
}

/// The layout names that an XKB keymap declares (`name[GroupN]="…";`), in group order.
pub fn parse_layout_names(keymap: &str) -> (r: Vec<String>)
    ensures
        str_views(r@) == layout_names(keymap@),
{
    let lines = lines_chars(&chars_of(keymap));
    let mut entries: Vec<(u64, Vec<char>)> = Vec::new();
    let ghost f = |v: Vec<char>| v@;
    for i in 0..lines.len()
        invariant
            views(lines@) == lines_of(keymap@),
            f == (|v: Vec<char>| v@),
            map_items(entries@, f) == layout_entries(views(lines@).take(i as int)),
    {
        let ghost t = views(lines@).take(i + 1);
        assert(t.drop_last() =~= views(lines@).take(i as int));
        assert(t.last() == lines@[i as int]@);
        let ghost old = entries@;
        match layout_entry_exec(&lines[i]) {
            Some(e) => {
                let ghost ev = (e.0, e.1@);
                entries.push(e);
                assert(map_items(entries@, f) =~= map_items(old, f).push(ev));
            },
            None => {},
        }
    }
    assert(views(lines@).take(lines.len() as int) =~= views(lines@));
    let sorted = sort_keyed(entries);
    proof {
        lemma_keyed_sort_map(entries@, f);
    }
    let mut r: Vec<String> = Vec::new();
    for i in 0..sorted.len()
        invariant
            f == (|v: Vec<char>| v@),
            map_items(sorted@, f) == keyed_sort(layout_entries(lines_of(keymap@))),
            str_views(r@) == map_items(sorted@, f).map_values(|e: (u64, Seq<char>)| e.1).take(i as int),
    {
        let ghost old = str_views(r@);
        let s = string_of(&sorted[i].1);
        r.push(s);
        assert(map_items(sorted@, f)[i as int] == (sorted@[i as int].0, sorted@[i as int].1@));
        assert(str_views(r@) =~= old.push(sorted@[i as int].1@));
        assert(map_items(sorted@, f).map_values(|e: (u64, Seq<char>)| e.1).take(i + 1) =~= map_items(
            sorted@,
            f,
        ).map_values(|e: (u64, Seq<char>)| e.1).take(i as int).push(sorted@[i as int].1@));
    }
    assert(map_items(sorted@, f).map_values(|e: (u64, Seq<char>)| e.1).take(sorted.len() as int)
        =~= map_items(sorted@, f).map_values(|e: (u64, Seq<char>)| e.1));
    r
}

/// The label for layout group `group`: its XKB name, else its configured name, else `?`.
pub open spec fn layout_label(xkb: Seq<Seq<char>>, config: Seq<Seq<char>>, group: usize) -> Seq<char> {
    if group < xkb.len() {
        xkb[group as int]
    } else if group < config.len() {
        config[group as int]
    } else {
        "?"@
    }
}

/// The label for the active layout group, preferring names read from the keymap over the
/// configured ones, and `?` when neither has the group.
pub fn current_label(xkb: &[String], config: &[String], group: usize) -> (r: String)
    ensures
        r@ == layout_label(str_views(xkb@), str_views(config@), group),
{
    if group < xkb.len() {
        assert(str_views(xkb@)[group as int] == xkb@[group as int]@);
        xkb[group].clone()
    } else if group < config.len() {
        assert(str_views(config@)[group as int] == config@[group as int]@);
        config[group].clone()
    } else {
        "?".to_owned()
    }
}


/// The layout names come out in group order, one for each `name[GroupN]="…";` line of the
/// keymap: sorting adds and drops no entry.
pub proof fn lemma_layout_names_in_group_order(keymap: Seq<char>)
    ensures
        ({
            let e = keyed_sort(layout_entries(lines_of(keymap)));
            &&& layout_names(keymap).len() == layout_entries(lines_of(keymap)).len()
            &&& forall|i: int, j: int| 0 <= i < j < e.len() ==> e[i].0 <= e[j].0
            &&& e.to_multiset() == layout_entries(lines_of(keymap)).to_multiset()
        }),
{
    lemma_keyed_sort_sorted(layout_entries(lines_of(keymap)));
    lemma_keyed_sort_perm(layout_entries(lines_of(keymap)));
}

} // verus!
