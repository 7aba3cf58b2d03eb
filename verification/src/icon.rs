//! FreeDesktop icon lookup over a file-system view.
//!
//! Every lookup is stated as an ordered list of candidate paths; the result is the first
//! candidate that exists ([`first_existing`]).
use vstd::prelude::*;

use crate::fs::{FsView, child_name, child_prefix, copy_chars, is_child, join_chars, join_path};
use crate::model::opt_view;
use crate::search::{
    cat_paths, first_existing, lemma_found_at, lemma_none_all, lemma_none_start, lemma_none_step,
    opt_chars,
};
use crate::text::{
    chars_of, concat_chars, eq_chars, string_of, str_views, eq_ignore_ascii_case, eq_ignore_ascii_case_chars, lines_chars, lines_of,
    parse_u32, parse_u32_chars, slice_chars, split_chars, split_on, starts_with, starts_with_chars,
    trim, trim_chars, views,
};

verus! {

/// How icon names that end in `-suffix` segments are matched.
#[derive(Debug, Clone, Copy, PartialEq, Eq, Structural)]
pub enum IconLookupMode {
    /// Look for the full name in every theme before dropping a trailing `-` segment, so that
    /// semantic suffixes such as `-mute-symbolic` are kept where any theme has them.
    Exact,
    /// Drop trailing `-` segments within each theme before moving on to the next theme, so
    /// that the preferred theme wins even with a shorter name.
    PreferTheme,
}

// ---------------------------------------------------------------------------
// index.theme
// ---------------------------------------------------------------------------

/// The rest of the first trimmed line that starts with `prefix`.
pub open spec fn find_prefixed(lines: Seq<Seq<char>>, prefix: Seq<char>) -> Option<Seq<char>>
    decreases lines.len(),
{
    if lines.len() == 0 {
        None
    } else {
        let t = trim(lines[0]);
        if starts_with(t, prefix) {
            Some(t.subrange(prefix.len() as int, t.len() as int))
        } else {
            find_prefixed(lines.drop_first(), prefix)
        }
    }
}

/// The trimmed pieces of `parts` that are not empty.
pub open spec fn nonempty_trimmed(parts: Seq<Seq<char>>) -> Seq<Seq<char>>
    decreases parts.len(),
{
    if parts.len() == 0 {
        Seq::empty()
    } else {
        let r = nonempty_trimmed(parts.drop_last());
        let t = trim(parts.last());
        if t.len() > 0 {
            r.push(t)
        } else {
            r
        }
    }
}

/// The items of a comma-separated list, trimmed, without empty ones.
pub open spec fn list_items(s: Seq<char>) -> Seq<Seq<char>> {
    nonempty_trimmed(split_on(s, ','))
}

/// The number after `Size=`: zero when it is not a `u32`.
pub open spec fn size_value(t: Seq<char>) -> u32 {
    match parse_u32(trim(t.subrange(5, t.len() as int))) {
        Some(n) => n,
        None => 0,
    }
}

/// Reads `Size=` and `Type=` from the section of `lines` headed by `header`.
pub open spec fn scan_section(
    lines: Seq<Seq<char>>,
    header: Seq<char>,
    in_sec: bool,
    size: u32,
    scalable: bool,
) -> (u32, bool)
    decreases lines.len(),
{
    if lines.len() == 0 {
        (size, scalable)
    } else {
        let t = trim(lines[0]);
        let rest = lines.drop_first();
        if t == header {
            scan_section(rest, header, true, size, scalable)
        } else if in_sec {
            if t.len() > 0 && t[0] == '[' {
                (size, scalable)
            } else if starts_with(t, "Size="@) {
                scan_section(rest, header, true, size_value(t), scalable)
            } else if starts_with(t, "Type="@) {
                scan_section(
                    rest,
                    header,
                    true,
                    size,
                    eq_ignore_ascii_case(trim(t.subrange(5, t.len() as int)), "Scalable"@),
                )
            } else {
                scan_section(rest, header, true, size, scalable)
            }
        } else {
            scan_section(rest, header, false, size, scalable)
        }
    }
}

/// `(size, is_scalable)` of the directory section headed by `header` in `content`; within
/// the section the last `Size=` and the last `Type=` count, and `(0, false)` stands for
/// what is absent.
pub open spec fn dir_section(content: Seq<char>, header: Seq<char>) -> (u32, bool) {
    scan_section(lines_of(content), header, false, 0, false)
}

fn find_prefixed_exec(lines: &Vec<Vec<char>>, prefix: &Vec<char>) -> (r: Option<Vec<char>>)
    ensures
        opt_chars(r) == find_prefixed(views(lines@), prefix@),
{
    let ghost l = views(lines@);
    assert(l.skip(0) =~= l);
    for i in 0..lines.len()
        invariant
            l == views(lines@),
            find_prefixed(l, prefix@) == find_prefixed(l.skip(i as int), prefix@),
    {
        assert(l.skip(i as int)[0] == lines@[i as int]@);
        assert(l.skip(i as int).drop_first() =~= l.skip(i + 1));
        let t = trim_chars(&lines[i]);
        if starts_with_chars(&t, prefix) {
            return Some(slice_chars(&t, prefix.len(), t.len()));
        }
    }
    None
}

fn list_items_exec(v: &Vec<char>) -> (r: Vec<Vec<char>>)
    ensures
        views(r@) == list_items(v@),
{
    let parts = split_chars(v, ',');
    let mut r: Vec<Vec<char>> = Vec::new();
    for i in 0..parts.len()
        invariant
            views(r@) == nonempty_trimmed(views(parts@).take(i as int)),
    {
        let ghost s = views(parts@).take(i + 1);
        assert(s.drop_last() =~= views(parts@).take(i as int));
        assert(s.last() == parts@[i as int]@);
        let t = trim_chars(&parts[i]);
        if t.len() > 0 {
            let ghost old = r@;
            r.push(t);
            assert(views(r@) =~= views(old).push(t@));
        }
    }
    assert(views(parts@).take(parts.len() as int) =~= views(parts@));
    r
}

fn parse_dir_section_lines(lines: &Vec<Vec<char>>, header: &Vec<char>) -> (r: (u32, bool))
    ensures
        r == scan_section(views(lines@), header@, false, 0, false),
{
    let size_key = chars_of("Size=");
    let type_key = chars_of("Type=");
    let scalable_word = chars_of("Scalable");
    proof {
        reveal_strlit("Size=");
        reveal_strlit("Type=");
    }
    let ghost l = views(lines@);
    assert(l.skip(0) =~= l);
    let mut in_sec = false;
    let mut size: u32 = 0;
    let mut scalable = false;
    for i in 0..lines.len()
        invariant
            l == views(lines@),
            size_key@ == "Size="@,
            type_key@ == "Type="@,
            scalable_word@ == "Scalable"@,
            size_key@.len() == 5,
            type_key@.len() == 5,
            scan_section(l, header@, false, 0, false) == scan_section(
                l.skip(i as int),
                header@,
                in_sec,
                size,
                scalable,
            ),
    {
        assert(l.skip(i as int)[0] == lines@[i as int]@);
        assert(l.skip(i as int).drop_first() =~= l.skip(i + 1));
        let t = trim_chars(&lines[i]);
        if eq_chars(&t, header) {
            in_sec = true;
        } else if in_sec {
            if t.len() > 0 && t[0] == '[' {
                return (size, scalable);
            } else if starts_with_chars(&t, &size_key) {
                let val = trim_chars(&slice_chars(&t, 5, t.len()));
                size = match parse_u32_chars(&val) {
                    Some(n) => n,
                    None => 0,
                };
            } else if starts_with_chars(&t, &type_key) {
                let val = trim_chars(&slice_chars(&t, 5, t.len()));
                scalable = eq_ignore_ascii_case_chars(&val, &scalable_word);
            }
        }
    }
    assert(l.skip(lines.len() as int) =~= Seq::<Seq<char>>::empty());
    (size, scalable)
}

/// Parse a directory's `[section]` block of `index.theme` text for `Size=` and `Type=`:
/// `(size, is_scalable)`, `(0, false)` where absent.
pub fn parse_dir_section(content: &str, section_header: &str) -> (r: (u32, bool))
    ensures
        r == dir_section(content@, section_header@),
{
    let lines = lines_chars(&chars_of(content));
    parse_dir_section_lines(&lines, &chars_of(section_header))
}

/// The size that a directory name such as `48x48` or `scalable` stands for.
pub open spec fn dir_size(name: Seq<char>) -> Option<u32> {
    if name == "scalable"@ {
        Some(u32::MAX)
    } else {
        let parts = split_on(name, 'x');
        if parts.len() == 2 {
            parse_u32(parts[0])
        } else {
            None
        }
    }
}

fn parse_dir_size_chars(name: &Vec<char>) -> (r: Option<u32>)
    ensures
        r == dir_size(name@),
{
    if eq_chars(name, &chars_of("scalable")) {
        return Some(u32::MAX);
    }
    let parts = split_chars(name, 'x');
    if parts.len() == 2 {
        assert(views(parts@)[0] == parts@[0]@);
        parse_u32_chars(&parts[0])
    } else {
        None
    }
}

/// Parse the numeric size from a directory name like `48x48`, or `scalable`.
pub fn parse_dir_size(dir_name: &str) -> (r: Option<u32>)
    ensures
        r == dir_size(dir_name@),
{
    parse_dir_size_chars(&chars_of(dir_name))
}

// ---------------------------------------------------------------------------
// Ordering of theme directories
// ---------------------------------------------------------------------------

/// Metadata for an icon directory: its path, nominal size, and whether it is scalable.
pub struct ThemeDir {
    pub path: Vec<char>,
    pub size: u32,
    pub is_scalable: bool,
}

/// The view of a theme directory.
pub open spec fn td_view(t: ThemeDir) -> (Seq<char>, u32, bool) {
    (t.path@, t.size, t.is_scalable)
}

/// The views of a sequence of theme directories.
pub open spec fn td_views(s: Seq<ThemeDir>) -> Seq<(Seq<char>, u32, bool)> {
    s.map_values(|t: ThemeDir| td_view(t))
}

/// How well a directory fits the requested size, as an ordering key (smaller is better):
/// the exact size, then scalable, then larger (by overshoot), then smaller (by shortfall),
/// then directories of unknown size.
pub open spec fn fit_key(size: u32, scalable: bool, req: u32) -> int {
    if size == req {
        0int
    } else if scalable {
        0x1_0000_0000int
    } else if size == 0 {
        0x4_ffff_ffffint
    } else if size > req {
        0x2_0000_0000 + (size - req)
    } else {
        0x3_0000_0000 + (req - size)
    }
}

/// `x` placed into `s` after every entry whose key is not larger.
pub open spec fn sort_insert(s: Seq<(Seq<char>, u32, bool)>, x: (Seq<char>, u32, bool), req: u32) -> Seq<
    (Seq<char>, u32, bool),
>
    decreases s.len(),
{
    if s.len() == 0 || fit_key(s.last().1, s.last().2, req) <= fit_key(x.1, x.2, req) {
        s.push(x)
    } else {
        sort_insert(s.drop_last(), x, req).push(s.last())
    }
}

/// `s` in the order of [`fit_key`]; entries with equal keys keep their relative order.
pub open spec fn sort_dirs(s: Seq<(Seq<char>, u32, bool)>, req: u32) -> Seq<(Seq<char>, u32, bool)>
    decreases s.len(),
{
    if s.len() == 0 {
        s
    } else {
        sort_insert(sort_dirs(s.drop_last(), req), s.last(), req)
    }
}

proof fn lemma_sort_insert_at(s: Seq<(Seq<char>, u32, bool)>, x: (Seq<char>, u32, bool), req: u32, k: int)
    requires
        0 <= k <= s.len(),
        forall|j: int| k <= j < s.len() ==> fit_key(s[j].1, s[j].2, req) > fit_key(x.1, x.2, req),
        k == 0 || fit_key(s[k - 1].1, s[k - 1].2, req) <= fit_key(x.1, x.2, req),
    ensures
        sort_insert(s, x, req) == s.insert(k, x),
    decreases s.len() - k,
{
    if k == s.len() {
        assert(s.insert(k, x) =~= s.push(x));
    } else {
        lemma_sort_insert_at(s.drop_last(), x, req, k);
        assert(s.insert(k, x) =~= s.drop_last().insert(k, x).push(s.last()));
    }
}

spec fn fit_sorted(s: Seq<(Seq<char>, u32, bool)>, req: u32) -> bool {
    forall|i: int, j: int|
        0 <= i < j < s.len() ==> fit_key(#[trigger] s[i].1, s[i].2, req) <= fit_key(#[trigger] s[j].1, s[j].2, req)
}

proof fn lemma_sort_insert_sorted(s: Seq<(Seq<char>, u32, bool)>, x: (Seq<char>, u32, bool), req: u32)
    requires
        fit_sorted(s, req),
    ensures
        fit_sorted(sort_insert(s, x, req), req),
    decreases s.len(),
{
    if s.len() == 0 || fit_key(s.last().1, s.last().2, req) <= fit_key(x.1, x.2, req) {
        let r = s.push(x);
        assert forall|i: int, j: int| 0 <= i < j < r.len() implies fit_key(#[trigger] r[i].1, r[i].2, req) <= fit_key(
            #[trigger] r[j].1,
            r[j].2,
            req,
        ) by {
            if j == s.len() && i < s.len() - 1 {
                assert(fit_key(s[i].1, s[i].2, req) <= fit_key(s[s.len() - 1].1, s[s.len() - 1].2, req));
            }
        }
    } else {
        let d = s.drop_last();
        assert(fit_sorted(d, req)) by {
            assert forall|i: int, j: int| 0 <= i < j < d.len() implies fit_key(#[trigger] d[i].1, d[i].2, req)
                <= fit_key(#[trigger] d[j].1, d[j].2, req) by {
                assert(d[i] == s[i] && d[j] == s[j]);
            }
        }
        lemma_sort_insert_sorted(d, x, req);
        lemma_sort_insert_members(d, x, req);
        let q = sort_insert(d, x, req);
        let r = q.push(s.last());
        assert forall|i: int, j: int| 0 <= i < j < r.len() implies fit_key(#[trigger] r[i].1, r[i].2, req) <= fit_key(
            #[trigger] r[j].1,
            r[j].2,
            req,
        ) by {
            if j == q.len() {
                assert(r[i] == q[i]);
                assert(r[j] == s.last());
                if q[i] != x {
                    let k = choose|k: int| 0 <= k < d.len() && d[k] == q[i];
                    assert(d[k] == s[k]);
                    assert(fit_key(s[k].1, s[k].2, req) <= fit_key(s[s.len() - 1].1, s[s.len() - 1].2, req));
                }
            } else {
                assert(r[i] == q[i] && r[j] == q[j]);
            }
        }
    }
}

proof fn lemma_sort_dirs_sorted(s: Seq<(Seq<char>, u32, bool)>, req: u32)
    ensures
        fit_sorted(sort_dirs(s, req), req),
    decreases s.len(),
{
    if s.len() > 0 {
        lemma_sort_dirs_sorted(s.drop_last(), req);
        lemma_sort_insert_sorted(sort_dirs(s.drop_last(), req), s.last(), req);
    }
}

/// A list of directories (path, size, scalable) in the order of fit for the requested size
/// `req`: first those of exactly that size, then scalable ones, then larger ones (the one
/// nearest above `req` first), then smaller ones (the one nearest below `req` first), and
/// last those of unknown size (0).
pub open spec fn in_fit_order(s: Seq<(Seq<char>, u32, bool)>, req: u32) -> bool {
    forall|i: int, j: int|
        0 <= i < j < s.len() ==> {
            let a = #[trigger] s[i];
            let b = #[trigger] s[j];
            &&& b.1 == req ==> a.1 == req
            &&& (b.1 != req && b.2) ==> (a.1 == req || a.2)
            &&& (b.1 != req && !b.2 && b.1 > req) ==> (a.1 == req || a.2 || (a.1 > req && a.1 <= b.1))
            &&& (b.1 != req && !b.2 && 0 < b.1 < req) ==> (a.1 == req || a.2 || a.1 > req || (0 < a.1 && a.1
                >= b.1))
        }
}

/// Directories sorted for a requested size are in the order of fit: an exact size before a
/// scalable directory, that before a larger one, a larger one before a smaller one, and a
/// smaller one before one of unknown size; among larger ones the least overshoot comes
/// first, among smaller ones the least shortfall.
pub proof fn lemma_sorted_dirs_in_fit_order(s: Seq<(Seq<char>, u32, bool)>, req: u32)
    ensures
        in_fit_order(sort_dirs(s, req), req),
{
    lemma_sort_dirs_sorted(s, req);
    let r = sort_dirs(s, req);
    assert forall|i: int, j: int| 0 <= i < j < r.len() implies {
        let a = #[trigger] r[i];
        let b = #[trigger] r[j];
        &&& b.1 == req ==> a.1 == req
        &&& (b.1 != req && b.2) ==> (a.1 == req || a.2)
        &&& (b.1 != req && !b.2 && b.1 > req) ==> (a.1 == req || a.2 || (a.1 > req && a.1 <= b.1))
        &&& (b.1 != req && !b.2 && 0 < b.1 < req) ==> (a.1 == req || a.2 || a.1 > req || (0 < a.1 && a.1 >= b.1))
    } by {
        assert(fit_key(r[i].1, r[i].2, req) <= fit_key(r[j].1, r[j].2, req));
    }
}

fn fit_key_exec(size: u32, scalable: bool, req: u32) -> (r: u64)
    ensures
        r == fit_key(size, scalable, req),
{
    if size == req {
        0
    } else if scalable {
        0x1_0000_0000
    } else if size == 0 {
        0x4_0000_0000 + 0xffff_ffff
    } else if size > req {
        0x2_0000_0000 + (size - req) as u64
    } else {
        0x3_0000_0000 + (req - size) as u64
    }
}

/// Sort directories by fitness for `requested`: exact size, scalable, larger (less
/// overshoot first), smaller (less shortfall first), unknown size; stable.
pub fn sort_theme_dirs(dirs: &mut Vec<ThemeDir>, requested: u32)
    ensures
        td_views(final(dirs)@) == sort_dirs(td_views(old(dirs)@), requested),
        in_fit_order(td_views(final(dirs)@), requested),
{
    proof {
        lemma_sorted_dirs_in_fit_order(td_views(old(dirs)@), requested);
    }
    let ghost orig = td_views(dirs@);
    let mut src: Vec<ThemeDir> = Vec::new();
    std::mem::swap(&mut src, dirs);
    assert(td_views(src@) == orig);
    // Move entries out from the back so that they keep their order.
    let mut rev: Vec<ThemeDir> = Vec::new();
    while src.len() > 0
        invariant
            td_views(src@) + td_views(rev@).reverse() == orig,
        decreases src.len(),
    {
        let ghost before_src = src@;
        let ghost before_rev = rev@;
        let t = src.pop().unwrap();
        rev.push(t);
        assert(td_views(src@) =~= td_views(before_src).drop_last());
        assert(td_views(rev@).reverse() =~= seq![td_view(t)] + td_views(before_rev).reverse());
        assert(td_views(before_src) =~= td_views(src@).push(td_view(t)));
        assert(td_views(src@) + td_views(rev@).reverse() =~= td_views(before_src) + td_views(
            before_rev,
        ).reverse());
    }
    assert(td_views(src@) =~= Seq::<(Seq<char>, u32, bool)>::empty());
    assert(td_views(rev@).reverse() =~= orig);
    let mut out: Vec<ThemeDir> = Vec::new();
    let ghost n = rev@.len();
    while rev.len() > 0
        invariant
            n == orig.len(),
            rev@.len() <= n,
            td_views(rev@).reverse() == orig.subrange(n - rev@.len(), n as int),
            td_views(out@) == sort_dirs(orig.take(n - rev@.len()), requested),
        decreases rev.len(),
    {
        let ghost before_rev = rev@;
        let ghost i = n - rev@.len();
        let x = rev.pop().unwrap();
        assert(td_views(before_rev).reverse()[0] == td_view(x));
        assert(orig[i] == td_view(x));
        assert(td_views(rev@) =~= td_views(before_rev).drop_last());
        assert(td_views(rev@).reverse() =~= td_views(before_rev).reverse().drop_first());
        assert(td_views(rev@).reverse() =~= orig.subrange(n - rev@.len(), n as int));
        let kx = fit_key_exec(x.size, x.is_scalable, requested);
        let mut k = out.len();
        while k > 0 && fit_key_exec(out[k - 1].size, out[k - 1].is_scalable, requested) > kx
            invariant
                k <= out.len(),
                kx == fit_key(x.size, x.is_scalable, requested),
                forall|j: int|
                    k <= j < out.len() ==> fit_key(out@[j].size, out@[j].is_scalable, requested)
                        > kx,
            decreases k,
        {
            k -= 1;
        }
        let ghost before_out = td_views(out@);
        proof {
            assert forall|j: int| k <= j < before_out.len() implies fit_key(
                before_out[j].1,
                before_out[j].2,
                requested,
            ) > fit_key(td_view(x).1, td_view(x).2, requested) by {
                assert(before_out[j] == td_view(out@[j]));
            }
            if k > 0 {
                assert(before_out[k - 1] == td_view(out@[k - 1]));
            }
            lemma_sort_insert_at(before_out, td_view(x), requested, k as int);
        }
        let ghost xv = td_view(x);
        out.insert(k, x);
        assert(td_views(out@) =~= before_out.insert(k as int, xv));
        assert(orig.take(i + 1).drop_last() =~= orig.take(i));
        assert(orig.take(i + 1).last() == xv);
    }
    assert(orig.take(n as int) =~= orig);
    *dirs = out;
}

// ---------------------------------------------------------------------------
// Candidate paths
// ---------------------------------------------------------------------------

/// The files for `name` directly inside `dir`: PNG first, then SVG.
pub open spec fn dir_cands(dir: Seq<char>, name: Seq<char>) -> Seq<Seq<char>> {
    seq![join_path(dir, name + ".png"@), join_path(dir, name + ".svg"@)]
}

/// The directories that `index.theme` declares, with their metadata, keeping those that exist.
pub open spec fn declared_dirs(fs: FsView, theme_dir: Seq<char>, content: Seq<char>, names: Seq<Seq<char>>) -> Seq<
    (Seq<char>, u32, bool),
>
    decreases names.len(),
{
    if names.len() == 0 {
        Seq::empty()
    } else {
        let r = declared_dirs(fs, theme_dir, content, names.drop_last());
        let n = names.last();
        let path = join_path(theme_dir, n);
        if fs.is_dir_spec(path) {
            let meta = dir_section(content, seq!['['] + n + seq![']']);
            r.push((path, meta.0, meta.1))
        } else {
            r
        }
    }
}

/// The directories that `index.theme` in `theme_dir` declares, ordered by fit for `size`.
pub open spec fn indexed_dirs(fs: FsView, theme_dir: Seq<char>, size: u32) -> Seq<(Seq<char>, u32, bool)> {
    match fs.read_spec(join_path(theme_dir, "index.theme"@)) {
        None => Seq::empty(),
        Some(content) => match find_prefixed(lines_of(content), "Directories="@) {
            None => Seq::empty(),
            Some(line) => sort_dirs(declared_dirs(fs, theme_dir, content, list_items(line)), size),
        },
    }
}

/// Candidates from the directories that `index.theme` declares.
pub open spec fn indexed_cands(fs: FsView, theme_dir: Seq<char>, name: Seq<char>, size: u32) -> Seq<
    Seq<char>,
> {
    cat_paths(indexed_lists(fs, theme_dir, name, size))
}

/// The candidate lists of the declared directories, one per directory.
pub open spec fn indexed_lists(fs: FsView, theme_dir: Seq<char>, name: Seq<char>, size: u32) -> Seq<
    Seq<Seq<char>>,
> {
    indexed_dirs(fs, theme_dir, size).map_values(|d: (Seq<char>, u32, bool)| dir_cands(d.0, name))
}

/// The subdirectories of `theme_dir` with the sizes that their names suggest.
pub open spec fn sized_children(fs: FsView, theme_dir: Seq<char>) -> Seq<(Seq<char>, u32, bool)> {
    fs.children_spec(theme_dir).map_values(
        |p: Seq<char>|
            {
                let s = match dir_size(child_name(theme_dir, p)) {
                    Some(n) => n,
                    None => 0,
                };
                (p, s, s == u32::MAX)
            },
    )
}

/// Candidates in `dir` and then in each of its subdirectories.
pub open spec fn tree_cands(fs: FsView, dir: Seq<char>, name: Seq<char>) -> Seq<Seq<char>> {
    dir_cands(dir, name) + cat_paths(sub_lists(fs, dir, name))
}

/// The candidate lists of the subdirectories of `dir`, one per subdirectory.
pub open spec fn sub_lists(fs: FsView, dir: Seq<char>, name: Seq<char>) -> Seq<Seq<Seq<char>>> {
    fs.children_spec(dir).map_values(|sub: Seq<char>| dir_cands(sub, name))
}

/// Candidates of a theme without a usable `index.theme`: its subdirectories ordered by the
/// size that their names suggest, each followed by its own subdirectories.
pub open spec fn heuristic_cands(fs: FsView, theme_dir: Seq<char>, name: Seq<char>, size: u32) -> Seq<
    Seq<char>,
> {
    cat_paths(heuristic_lists(fs, theme_dir, name, size))
}

/// The candidate lists of the heuristic walk, one per subdirectory of the theme.
pub open spec fn heuristic_lists(fs: FsView, theme_dir: Seq<char>, name: Seq<char>, size: u32) -> Seq<
    Seq<Seq<char>>,
> {
    sort_dirs(sized_children(fs, theme_dir), size).map_values(
        |d: (Seq<char>, u32, bool)| tree_cands(fs, d.0, name),
    )
}

/// Candidates for `name` in `theme` under the search directory `base`.
pub open spec fn theme_cands(fs: FsView, base: Seq<char>, theme: Seq<char>, name: Seq<char>, size: u32) -> Seq<
    Seq<char>,
> {
    let theme_dir = join_path(base, theme);
    if !fs.is_dir_spec(theme_dir) {
        Seq::empty()
    } else {
        indexed_cands(fs, theme_dir, name, size) + heuristic_cands(fs, theme_dir, name, size)
    }
}

/// Candidates for `name` in `theme` under every search directory, in order.
pub open spec fn all_bases_cands(fs: FsView, dirs: Seq<Seq<char>>, theme: Seq<char>, name: Seq<char>, size: u32) -> Seq<
    Seq<char>,
> {
    cat_paths(bases_lists(fs, dirs, theme, name, size))
}

/// The candidate lists of `theme`, one per search directory.
pub open spec fn bases_lists(fs: FsView, dirs: Seq<Seq<char>>, theme: Seq<char>, name: Seq<char>, size: u32) -> Seq<
    Seq<Seq<char>>,
> {
    dirs.map_values(|b: Seq<char>| theme_cands(fs, b, theme, name, size))
}

/// The index of the last occurrence of `c` in `s`, or -1.
pub open spec fn last_index(s: Seq<char>, c: char) -> int
    decreases s.len(),
{
    if s.len() == 0 {
        -1
    } else if s.last() == c {
        s.len() - 1
    } else {
        last_index(s.drop_last(), c)
    }
}

pub proof fn lemma_last_index(s: Seq<char>, c: char)
    ensures
        -1 <= last_index(s, c) < s.len(),
        last_index(s, c) >= 0 ==> s[last_index(s, c)] == c,
        forall|j: int| last_index(s, c) < j < s.len() ==> s[j] != c,
    decreases s.len(),
{
    if s.len() > 0 {
        lemma_last_index(s.drop_last(), c);
        assert forall|j: int| last_index(s, c) < j < s.len() implies s[j] != c by {
            if j < s.len() - 1 {
                assert(s.drop_last()[j] == s[j]);
            }
        }
    }
}

/// `name`, then `name` without its last `-` segment, and so on while a `-` remains.
pub open spec fn name_variants(name: Seq<char>) -> Seq<Seq<char>>
    decreases name.len(),
{
    let k = last_index(name, '-');
    if k < 0 {
        seq![name]
    } else {
        proof {
            lemma_last_index(name, '-');
        }
        seq![name] + name_variants(name.take(k))
    }
}

/// The themes to search: `theme`, the themes it inherits from (but `hicolor`), then
/// `hicolor` unless `theme` is `hicolor`.
pub open spec fn theme_layers(inherited: Seq<Seq<char>>, theme: Seq<char>) -> Seq<Seq<char>> {
    seq![theme] + without_hicolor(inherited) + (if theme == "hicolor"@ {
        Seq::empty()
    } else {
        seq!["hicolor"@]
    })
}

/// `s` without the entries equal to `hicolor`.
pub open spec fn without_hicolor(s: Seq<Seq<char>>) -> Seq<Seq<char>>
    decreases s.len(),
{
    if s.len() == 0 {
        s
    } else {
        let r = without_hicolor(s.drop_last());
        if s.last() == "hicolor"@ {
            r
        } else {
            r.push(s.last())
        }
    }
}

/// The `Inherits=` list of the theme in `theme_dir`.
pub open spec fn inherits_of(fs: FsView, theme_dir: Seq<char>) -> Seq<Seq<char>> {
    match fs.read_spec(join_path(theme_dir, "index.theme"@)) {
        None => Seq::empty(),
        Some(content) => match find_prefixed(lines_of(content), "Inherits="@) {
            None => Seq::empty(),
            Some(v) => list_items(v),
        },
    }
}

/// The inherited themes of `theme`, read from the first search directory that holds it.
pub open spec fn inherited_themes(fs: FsView, dirs: Seq<Seq<char>>, theme: Seq<char>) -> Seq<Seq<char>>
    decreases dirs.len(),
{
    if dirs.len() == 0 {
        Seq::empty()
    } else if fs.is_dir_spec(join_path(dirs[0], theme)) {
        inherits_of(fs, join_path(dirs[0], theme))
    } else {
        inherited_themes(fs, dirs.drop_first(), theme)
    }
}

/// Candidates of one theme for every name variant, variants first.
pub open spec fn stripping_cands(fs: FsView, dirs: Seq<Seq<char>>, theme: Seq<char>, name: Seq<char>, size: u32) -> Seq<
    Seq<char>,
> {
    cat_paths(variant_lists(fs, dirs, theme, name, size))
}

/// The candidate lists of one theme, one per name variant.
pub open spec fn variant_lists(fs: FsView, dirs: Seq<Seq<char>>, theme: Seq<char>, name: Seq<char>, size: u32) -> Seq<
    Seq<Seq<char>>,
> {
    name_variants(name).map_values(|v: Seq<char>| all_bases_cands(fs, dirs, theme, v, size))
}

/// Candidates of every theme layer for one name.
pub open spec fn layers_cands(fs: FsView, dirs: Seq<Seq<char>>, layers: Seq<Seq<char>>, name: Seq<char>, size: u32) -> Seq<
    Seq<char>,
> {
    cat_paths(layer_lists(fs, dirs, layers, name, size))
}

/// The candidate lists of one name, one per theme layer.
pub open spec fn layer_lists(fs: FsView, dirs: Seq<Seq<char>>, layers: Seq<Seq<char>>, name: Seq<char>, size: u32) -> Seq<
    Seq<Seq<char>>,
> {
    layers.map_values(|t: Seq<char>| all_bases_cands(fs, dirs, t, name, size))
}

/// Candidates of the theme layers in the order that `mode` sets.
pub open spec fn mode_cands(
    fs: FsView,
    dirs: Seq<Seq<char>>,
    theme: Seq<char>,
    name: Seq<char>,
    size: u32,
    mode: IconLookupMode,
) -> Seq<Seq<char>> {
    cat_paths(mode_lists(fs, dirs, theme, name, size, mode))
}

/// The candidate lists of the theme layers: per theme (each over all name variants) for
/// `PreferTheme`, per name variant (each over all theme layers) for `Exact`.
pub open spec fn mode_lists(
    fs: FsView,
    dirs: Seq<Seq<char>>,
    theme: Seq<char>,
    name: Seq<char>,
    size: u32,
    mode: IconLookupMode,
) -> Seq<Seq<Seq<char>>> {
    let layers = theme_layers(inherited_themes(fs, dirs, theme), theme);
    match mode {
        IconLookupMode::PreferTheme => layers.map_values(
            |t: Seq<char>| stripping_cands(fs, dirs, t, name, size),
        ),
        IconLookupMode::Exact => name_variants(name).map_values(
            |v: Seq<char>| layers_cands(fs, dirs, layers, v, size),
        ),
    }
}

/// Every candidate path for the icon `name`, in the order in which they are tried.
pub open spec fn icon_cands(
    fs: FsView,
    name: Seq<char>,
    size: u32,
    dirs: Seq<Seq<char>>,
    theme: Seq<char>,
    mode: IconLookupMode,
) -> Seq<Seq<char>> {
    if name.len() > 0 && name[0] == '/' {
        seq![name, name + ".png"@, name + ".svg"@]
    } else {
        mode_cands(fs, dirs, theme, name, size, mode) + dir_cands("/usr/share/pixmaps"@, name)
    }
}

// ---------------------------------------------------------------------------
// Searches
// ---------------------------------------------------------------------------

/// The first supported icon file for `name` directly inside `dir`: PNG before SVG.
pub fn find_in_dir(fs: &FsView, dir: &Vec<char>, name: &Vec<char>) -> (r: Option<Vec<char>>)
    ensures
        opt_chars(r) == first_existing(*fs, dir_cands(dir@, name@)),
{
    let ghost c = dir_cands(dir@, name@);
    proof {
        reveal_with_fuel(first_existing, 3);
    }
    let png = join_chars(dir, &concat_chars(name, &chars_of(".png")));
    assert(c[0] == png@);
    if fs.path_exists(&png) {
        return Some(png);
    }
    let svg = join_chars(dir, &concat_chars(name, &chars_of(".svg")));
    assert(c.drop_first()[0] == svg@);
    assert(c.drop_first().drop_first().len() == 0);
    if fs.path_exists(&svg) {
        return Some(svg);
    }
    None
}

fn search_tree(fs: &FsView, dir: &Vec<char>, name: &Vec<char>) -> (r: Option<Vec<char>>)
    ensures
        opt_chars(r) == first_existing(*fs, tree_cands(*fs, dir@, name@)),
{
    proof {
        crate::search::lemma_first_existing_append(
            *fs,
            dir_cands(dir@, name@),
            cat_paths(sub_lists(*fs, dir@, name@)),
        );
    }
    let first = find_in_dir(fs, dir, name);
    if first.is_some() {
        return first;
    }
    let subs = fs.children(dir);
    let ghost s = sub_lists(*fs, dir@, name@);
    proof {
        lemma_none_start(*fs, s);
    }
    for i in 0..subs.len()
        invariant
            s == sub_lists(*fs, dir@, name@),
            first_existing(*fs, tree_cands(*fs, dir@, name@)) == first_existing(*fs, cat_paths(s)),
            views(subs@) == fs.children_spec(dir@),
            s.len() == subs.len(),
            first_existing(*fs, cat_paths(s.take(i as int))) is None,
    {
        assert(s[i as int] == dir_cands(subs@[i as int]@, name@)) by {
            assert(views(subs@)[i as int] == subs@[i as int]@);
        }
        let found = find_in_dir(fs, &subs[i], name);
        if found.is_some() {
            proof {
                lemma_found_at(*fs, s, i as int);
            }
            return found;
        }
        proof {
            lemma_none_step(*fs, s, i as int);
        }
    }
    proof {
        lemma_none_all(*fs, s);
    }
    None
}

fn search_dirs_in_order(fs: &FsView, tds: &Vec<ThemeDir>, name: &Vec<char>) -> (r: Option<Vec<char>>)
    ensures
        opt_chars(r) == first_existing(
            *fs,
            cat_paths(td_views(tds@).map_values(|d: (Seq<char>, u32, bool)| dir_cands(d.0, name@))),
        ),
{
    let ghost s = td_views(tds@).map_values(|d: (Seq<char>, u32, bool)| dir_cands(d.0, name@));
    proof {
        lemma_none_start(*fs, s);
    }
    for i in 0..tds.len()
        invariant
            s == td_views(tds@).map_values(|d: (Seq<char>, u32, bool)| dir_cands(d.0, name@)),
            s.len() == tds.len(),
            first_existing(*fs, cat_paths(s.take(i as int))) is None,
    {
        assert(s[i as int] == dir_cands(tds@[i as int].path@, name@)) by {
            assert(td_views(tds@)[i as int] == td_view(tds@[i as int]));
        }
        let found = find_in_dir(fs, &tds[i].path, name);
        if found.is_some() {
            proof {
                lemma_found_at(*fs, s, i as int);
            }
            return found;
        }
        proof {
            lemma_none_step(*fs, s, i as int);
        }
    }
    proof {
        lemma_none_all(*fs, s);
    }
    None
}

fn search_trees_in_order(fs: &FsView, tds: &Vec<ThemeDir>, name: &Vec<char>) -> (r: Option<Vec<char>>)
    ensures
        opt_chars(r) == first_existing(
            *fs,
            cat_paths(
                td_views(tds@).map_values(|d: (Seq<char>, u32, bool)| tree_cands(*fs, d.0, name@)),
            ),
        ),
{
    let ghost s = td_views(tds@).map_values(
        |d: (Seq<char>, u32, bool)| tree_cands(*fs, d.0, name@),
    );
    proof {
        lemma_none_start(*fs, s);
    }
    for i in 0..tds.len()
        invariant
            s == td_views(tds@).map_values(|d: (Seq<char>, u32, bool)| tree_cands(*fs, d.0, name@)),
            s.len() == tds.len(),
            first_existing(*fs, cat_paths(s.take(i as int))) is None,
    {
        assert(s[i as int] == tree_cands(*fs, tds@[i as int].path@, name@)) by {
            assert(td_views(tds@)[i as int] == td_view(tds@[i as int]));
        }
        let found = search_tree(fs, &tds[i].path, name);
        if found.is_some() {
            proof {
                lemma_found_at(*fs, s, i as int);
            }
            return found;
        }
        proof {
            lemma_none_step(*fs, s, i as int);
        }
    }
    proof {
        lemma_none_all(*fs, s);
    }
    None
}

/// Search the directories that `index.theme` in `theme_dir` declares, best fit first.
pub fn find_in_theme_indexed(fs: &FsView, theme_dir: &Vec<char>, name: &Vec<char>, size: u32) -> (r:
    Option<Vec<char>>)
    ensures
        opt_chars(r) == first_existing(*fs, indexed_cands(*fs, theme_dir@, name@, size)),
{
    let index_path = join_chars(theme_dir, &chars_of("index.theme"));
    let content = match fs.read(&index_path) {
        Some(c) => c,
        None => {
            return None;
        },
    };
    let lines = lines_chars(&content);
    let dl = match find_prefixed_exec(&lines, &chars_of("Directories=")) {
        Some(d) => d,
        None => {
            return None;
        },
    };
    let names = list_items_exec(&dl);
    let mut tds: Vec<ThemeDir> = Vec::new();
    for i in 0..names.len()
        invariant
            views(lines@) == lines_of(content@),
            td_views(tds@) == declared_dirs(*fs, theme_dir@, content@, views(names@).take(i as int)),
    {
        let ghost t = views(names@).take(i + 1);
        assert(t.drop_last() =~= views(names@).take(i as int));
        assert(t.last() == names@[i as int]@);
        let path = join_chars(theme_dir, &names[i]);
        if fs.is_dir(&path) {
            let mut header: Vec<char> = Vec::new();
            header.push('[');
            let header = concat_chars(&header, &names[i]);
            let mut header = header;
            header.push(']');
            assert(header@ =~= seq!['['] + names@[i as int]@ + seq![']']);
            let meta = parse_dir_section_lines(&lines, &header);
            let ghost old = td_views(tds@);
            let td = ThemeDir { path, size: meta.0, is_scalable: meta.1 };
            tds.push(td);
            assert(td_views(tds@) =~= old.push(td_view(td)));
        }
    }
    assert(views(names@).take(names.len() as int) =~= views(names@));
    sort_theme_dirs(&mut tds, size);
    let r = search_dirs_in_order(fs, &tds, name);
    assert(td_views(tds@).map_values(|d: (Seq<char>, u32, bool)| dir_cands(d.0, name@))
        =~= indexed_lists(*fs, theme_dir@, name@, size));
    r
}

/// Search the subdirectories of `theme_dir`, ordered by the size that their names suggest,
/// and each one's own subdirectories.
pub fn find_in_theme_heuristic(fs: &FsView, theme_dir: &Vec<char>, name: &Vec<char>, size: u32) -> (r:
    Option<Vec<char>>)
    ensures
        opt_chars(r) == first_existing(*fs, heuristic_cands(*fs, theme_dir@, name@, size)),
{
    let kids = fs.children(theme_dir);
    proof {
        crate::fs::lemma_children_in(views(fs.dirs@), theme_dir@);
        assert forall|j: int| 0 <= j < kids.len() implies crate::fs::is_child(
            theme_dir@,
            #[trigger] kids@[j]@,
        ) by {
            assert(views(kids@)[j] == kids@[j]@);
        }
    }
    let mut tds: Vec<ThemeDir> = Vec::new();
    for i in 0..kids.len()
        invariant
            views(kids@) == fs.children_spec(theme_dir@),
            forall|j: int| 0 <= j < kids.len() ==> crate::fs::is_child(theme_dir@, #[trigger] kids@[j]@),
            td_views(tds@) == sized_children(*fs, theme_dir@).take(i as int),
    {
        assert(views(kids@)[i as int] == kids@[i as int]@);
        let p = copy_chars(&kids[i]);
        assert(crate::fs::is_child(theme_dir@, p@));
        assert(child_prefix(theme_dir@).len() < p@.len());
        let pre_len: usize = if theme_dir.len() == 0 || theme_dir[theme_dir.len() - 1] == '/' {
            theme_dir.len()
        } else {
            theme_dir.len() + 1
        };
        assert(pre_len == child_prefix(theme_dir@).len());
        let short = slice_chars(&p, pre_len, p.len());
        assert(short@ == child_name(theme_dir@, p@));
        let ds = match parse_dir_size_chars(&short) {
            Some(n) => n,
            None => 0,
        };
        let ghost old = td_views(tds@);
        let td = ThemeDir { path: p, size: ds, is_scalable: ds == u32::MAX };
        assert(sized_children(*fs, theme_dir@)[i as int] == td_view(td));
        tds.push(td);
        assert(td_views(tds@) =~= old.push(td_view(td)));
        assert(sized_children(*fs, theme_dir@).take(i + 1) =~= sized_children(*fs, theme_dir@).take(
            i as int,
        ).push(td_view(td)));
    }
    assert(sized_children(*fs, theme_dir@).take(kids.len() as int) =~= sized_children(
        *fs,
        theme_dir@,
    ));
    sort_theme_dirs(&mut tds, size);
    let r = search_trees_in_order(fs, &tds, name);
    assert(td_views(tds@).map_values(|d: (Seq<char>, u32, bool)| tree_cands(*fs, d.0, name@))
        =~= heuristic_lists(*fs, theme_dir@, name@, size));
    r
}

/// Search `theme` under `base`: the declared directories first, then the heuristic walk.
pub fn find_in_theme(fs: &FsView, base: &Vec<char>, theme: &Vec<char>, name: &Vec<char>, size: u32) -> (r:
    Option<Vec<char>>)
    ensures
        opt_chars(r) == first_existing(*fs, theme_cands(*fs, base@, theme@, name@, size)),
{
    let theme_dir = join_chars(base, theme);
    if !fs.is_dir(&theme_dir) {
        return None;
    }
    proof {
        crate::search::lemma_first_existing_append(
            *fs,
            indexed_cands(*fs, theme_dir@, name@, size),
            heuristic_cands(*fs, theme_dir@, name@, size),
        );
    }
    let r = find_in_theme_indexed(fs, &theme_dir, name, size);
    if r.is_some() {
        return r;
    }
    find_in_theme_heuristic(fs, &theme_dir, name, size)
}

fn search_all_bases(fs: &FsView, dirs: &Vec<Vec<char>>, theme: &Vec<char>, name: &Vec<char>, size: u32) -> (r:
    Option<Vec<char>>)
    ensures
        opt_chars(r) == first_existing(*fs, all_bases_cands(*fs, views(dirs@), theme@, name@, size)),
{
    let ghost s = bases_lists(*fs, views(dirs@), theme@, name@, size);
    proof {
        lemma_none_start(*fs, s);
    }
    for i in 0..dirs.len()
        invariant
            s == bases_lists(*fs, views(dirs@), theme@, name@, size),
            s.len() == dirs.len(),
            first_existing(*fs, cat_paths(s.take(i as int))) is None,
    {
        assert(s[i as int] == theme_cands(*fs, dirs@[i as int]@, theme@, name@, size)) by {
            assert(views(dirs@)[i as int] == dirs@[i as int]@);
        }
        let found = find_in_theme(fs, &dirs[i], theme, name, size);
        if found.is_some() {
            proof {
                lemma_found_at(*fs, s, i as int);
            }
            return found;
        }
        proof {
            lemma_none_step(*fs, s, i as int);
        }
    }
    proof {
        lemma_none_all(*fs, s);
    }
    None
}

fn name_variants_exec(name: &Vec<char>) -> (r: Vec<Vec<char>>)
    ensures
        views(r@) == name_variants(name@),
{
    let mut r: Vec<Vec<char>> = Vec::new();
    let mut cur = copy_chars(name);
    loop
        invariant
            views(r@) + name_variants(cur@) == name_variants(name@),
        decreases cur@.len(),
    {
        let mut k = cur.len();
        while k > 0 && cur[k - 1] != '-'
            invariant
                k <= cur.len(),
                forall|j: int| k <= j < cur.len() ==> cur@[j] != '-',
            decreases k,
        {
            k -= 1;
        }
        proof {
            lemma_last_index(cur@, '-');
            if k > 0 {
                assert(last_index(cur@, '-') == k - 1) by {
                    if last_index(cur@, '-') > k - 1 {
                        assert(cur@[last_index(cur@, '-')] == '-');
                    }
                }
            } else {
                assert(last_index(cur@, '-') < 0) by {
                    if last_index(cur@, '-') >= 0 {
                        assert(cur@[last_index(cur@, '-')] == '-');
                    }
                }
            }
        }
        let ghost before = views(r@);
        let next = if k > 0 {
            Some(slice_chars(&cur, 0, k - 1))
        } else {
            None
        };
        let ghost cv = cur@;
        r.push(cur);
        assert(views(r@) =~= before.push(cv));
        match next {
            Some(n) => {
                assert(n@ =~= cv.take(k - 1));
                assert(views(r@) + name_variants(n@) =~= before + name_variants(cv));
                cur = n;
            },
            None => {
                assert(views(r@) =~= before + name_variants(cv));
                return r;
            },
        }
    }
}

/// Try the full icon name, then progressively strip trailing `-` segments, searching one
/// theme across all search directories.
pub fn resolve_with_stripping(fs: &FsView, name: &Vec<char>, size: u32, search_dirs: &Vec<Vec<char>>, theme: &Vec<char>) -> (r:
    Option<Vec<char>>)
    ensures
        opt_chars(r) == first_existing(*fs, stripping_cands(*fs, views(search_dirs@), theme@, name@, size)),
{
    let variants = name_variants_exec(name);
    let ghost s = variant_lists(*fs, views(search_dirs@), theme@, name@, size);
    proof {
        lemma_none_start(*fs, s);
    }
    for i in 0..variants.len()
        invariant
            s == variant_lists(*fs, views(search_dirs@), theme@, name@, size),
            views(variants@) == name_variants(name@),
            s.len() == variants.len(),
            first_existing(*fs, cat_paths(s.take(i as int))) is None,
    {
        assert(s[i as int] == all_bases_cands(*fs, views(search_dirs@), theme@, variants@[i as int]@, size)) by {
            assert(views(variants@)[i as int] == variants@[i as int]@);
        }
        let found = search_all_bases(fs, search_dirs, theme, &variants[i], size);
        if found.is_some() {
            proof {
                lemma_found_at(*fs, s, i as int);
            }
            return found;
        }
        proof {
            lemma_none_step(*fs, s, i as int);
        }
    }
    proof {
        lemma_none_all(*fs, s);
    }
    None
}

fn search_layers(fs: &FsView, search_dirs: &Vec<Vec<char>>, layers: &Vec<Vec<char>>, name: &Vec<char>, size: u32) -> (r:
    Option<Vec<char>>)
    ensures
        opt_chars(r) == first_existing(*fs, layers_cands(*fs, views(search_dirs@), views(layers@), name@, size)),
{
    let ghost s = layer_lists(*fs, views(search_dirs@), views(layers@), name@, size);
    proof {
        lemma_none_start(*fs, s);
    }
    for i in 0..layers.len()
        invariant
            s == layer_lists(*fs, views(search_dirs@), views(layers@), name@, size),
            s.len() == layers.len(),
            first_existing(*fs, cat_paths(s.take(i as int))) is None,
    {
        assert(s[i as int] == all_bases_cands(*fs, views(search_dirs@), layers@[i as int]@, name@, size)) by {
            assert(views(layers@)[i as int] == layers@[i as int]@);
        }
        let found = search_all_bases(fs, search_dirs, &layers[i], name, size);
        if found.is_some() {
            proof {
                lemma_found_at(*fs, s, i as int);
            }
            return found;
        }
        proof {
            lemma_none_step(*fs, s, i as int);
        }
    }
    proof {
        lemma_none_all(*fs, s);
    }
    None
}

/// The `Inherits=` list of `index.theme` in `theme_dir`; empty where there is none.
pub fn parse_inherits(fs: &FsView, theme_dir: &Vec<char>) -> (r: Vec<Vec<char>>)
    ensures
        views(r@) == inherits_of(*fs, theme_dir@),
{
    let index_path = join_chars(theme_dir, &chars_of("index.theme"));
    match fs.read(&index_path) {
        None => Vec::new(),
        Some(content) => {
            let lines = lines_chars(&content);
            match find_prefixed_exec(&lines, &chars_of("Inherits=")) {
                None => Vec::new(),
                Some(v) => list_items_exec(&v),
            }
        },
    }
}

fn inherited_themes_exec(fs: &FsView, search_dirs: &Vec<Vec<char>>, theme: &Vec<char>) -> (r: Vec<Vec<char>>)
    ensures
        views(r@) == inherited_themes(*fs, views(search_dirs@), theme@),
{
    let ghost d = views(search_dirs@);
    assert(d.skip(0) =~= d);
    for i in 0..search_dirs.len()
        invariant
            d == views(search_dirs@),
            inherited_themes(*fs, d, theme@) == inherited_themes(*fs, d.skip(i as int), theme@),
    {
        assert(d.skip(i as int)[0] == search_dirs@[i as int]@);
        assert(d.skip(i as int).drop_first() =~= d.skip(i + 1));
        let td = join_chars(&search_dirs[i], theme);
        if fs.is_dir(&td) {
            return parse_inherits(fs, &td);
        }
    }
    assert(d.skip(search_dirs.len() as int) =~= Seq::<Seq<char>>::empty());
    Vec::new()
}

fn theme_layers_exec(inherited: Vec<Vec<char>>, theme: &Vec<char>) -> (r: Vec<Vec<char>>)
    ensures
        views(r@) == theme_layers(views(inherited@), theme@),
{
    let hicolor = chars_of("hicolor");
    let mut r: Vec<Vec<char>> = Vec::new();
    r.push(copy_chars(theme));
    let ghost head = views(r@);
    assert(head =~= seq![theme@]);
    let mut rest: Vec<Vec<char>> = Vec::new();
    for i in 0..inherited.len()
        invariant
            hicolor@ == "hicolor"@,
            views(rest@) == without_hicolor(views(inherited@).take(i as int)),
    {
        let ghost t = views(inherited@).take(i + 1);
        assert(t.drop_last() =~= views(inherited@).take(i as int));
        assert(t.last() == inherited@[i as int]@);
        if !eq_chars(&inherited[i], &hicolor) {
            let ghost old = views(rest@);
            rest.push(copy_chars(&inherited[i]));
            assert(views(rest@) =~= old.push(inherited@[i as int]@));
        }
    }
    assert(views(inherited@).take(inherited.len() as int) =~= views(inherited@));
    let ghost mid = views(rest@);
    let is_hicolor = eq_chars(theme, &hicolor);
    let mut out = r;
    for i in 0..rest.len()
        invariant
            views(out@) == head + mid.take(i as int),
            mid == views(rest@),
    {
        let ghost old = views(out@);
        out.push(copy_chars(&rest[i]));
        assert(views(out@) =~= old.push(rest@[i as int]@));
        assert(mid.take(i + 1) =~= mid.take(i as int).push(rest@[i as int]@));
    }
    assert(mid.take(rest.len() as int) =~= mid);
    if !is_hicolor {
        let ghost old = views(out@);
        out.push(copy_chars(&hicolor));
        assert(views(out@) =~= old + seq!["hicolor"@]);
    } else {
        assert(views(out@) =~= views(out@) + Seq::<Seq<char>>::empty());
    }
    out
}

fn search_mode(fs: &FsView, search_dirs: &Vec<Vec<char>>, theme: &Vec<char>, name: &Vec<char>, size: u32, mode: IconLookupMode) -> (r:
    Option<Vec<char>>)
    ensures
        opt_chars(r) == first_existing(*fs, mode_cands(*fs, views(search_dirs@), theme@, name@, size, mode)),
{
    let inherited = inherited_themes_exec(fs, search_dirs, theme);
    let layers = theme_layers_exec(inherited, theme);
    let ghost s = mode_lists(*fs, views(search_dirs@), theme@, name@, size, mode);
    proof {
        lemma_none_start(*fs, s);
    }
    match mode {
        IconLookupMode::PreferTheme => {
            for i in 0..layers.len()
                invariant
                    mode == IconLookupMode::PreferTheme,
                    views(layers@) == theme_layers(inherited_themes(*fs, views(search_dirs@), theme@), theme@),
                    s == mode_lists(*fs, views(search_dirs@), theme@, name@, size, mode),
                    s.len() == layers.len(),
                    first_existing(*fs, cat_paths(s.take(i as int))) is None,
            {
                assert(s[i as int] == stripping_cands(*fs, views(search_dirs@), layers@[i as int]@, name@, size)) by {
                    assert(views(layers@)[i as int] == layers@[i as int]@);
                }
                let found = resolve_with_stripping(fs, name, size, search_dirs, &layers[i]);
                if found.is_some() {
                    proof {
                        lemma_found_at(*fs, s, i as int);
                    }
                    return found;
                }
                proof {
                    lemma_none_step(*fs, s, i as int);
                }
            }
        },
        IconLookupMode::Exact => {
            let variants = name_variants_exec(name);
            for i in 0..variants.len()
                invariant
                    mode == IconLookupMode::Exact,
                    views(layers@) == theme_layers(inherited_themes(*fs, views(search_dirs@), theme@), theme@),
                    views(variants@) == name_variants(name@),
                    s == mode_lists(*fs, views(search_dirs@), theme@, name@, size, mode),
                    s.len() == variants.len(),
                    first_existing(*fs, cat_paths(s.take(i as int))) is None,
            {
                assert(s[i as int] == layers_cands(*fs, views(search_dirs@), views(layers@), variants@[i as int]@, size)) by {
                    assert(views(variants@)[i as int] == variants@[i as int]@);
                }
                let found = search_layers(fs, search_dirs, &layers, &variants[i], size);
                if found.is_some() {
                    proof {
                        lemma_found_at(*fs, s, i as int);
                    }
                    return found;
                }
                proof {
                    lemma_none_step(*fs, s, i as int);
                }
            }
        },
    }
    proof {
        lemma_none_all(*fs, s);
    }
    None
}

/// The paths that an absolute icon name can stand for, in the order in which they are
/// tried; none when `name` is not absolute.
pub fn absolute_candidates(name: &str) -> (r: Vec<String>)
    ensures
        name@.len() > 0 && name@[0] == '/' ==> str_views(r@) == seq![name@, name@ + ".png"@, name@ + ".svg"@],
        !(name@.len() > 0 && name@[0] == '/') ==> r@.len() == 0,
{
    let n = chars_of(name);
    let mut r: Vec<String> = Vec::new();
    if n.len() > 0 && n[0] == '/' {
        r.push(string_of(&n));
        r.push(string_of(&concat_chars(&n, &chars_of(".png"))));
        r.push(string_of(&concat_chars(&n, &chars_of(".svg"))));
        assert(str_views(r@) =~= seq![name@, name@ + ".png"@, name@ + ".svg"@]);
    }
    r
}

fn resolve_absolute(fs: &FsView, name: &str) -> (r: Option<String>)
    requires
        name@.len() > 0 && name@[0] == '/',
    ensures
        opt_view(r) == first_existing(*fs, seq![name@, name@ + ".png"@, name@ + ".svg"@]),
{
    let c = absolute_candidates(name);
    let ghost cs = seq![name@, name@ + ".png"@, name@ + ".svg"@];
    proof {
        reveal_with_fuel(first_existing, 4);
    }
    assert(str_views(c@)[0] == c@[0]@);
    assert(str_views(c@)[1] == c@[1]@);
    assert(str_views(c@)[2] == c@[2]@);
    assert(cs.drop_first()[0] == cs[1]);
    assert(cs.drop_first().drop_first()[0] == cs[2]);
    assert(cs.drop_first().drop_first().drop_first().len() == 0);
    let c0 = chars_of(c[0].as_str());
    if fs.path_exists(&c0) {
        return Some(string_of(&c0));
    }
    let c1 = chars_of(c[1].as_str());
    if fs.path_exists(&c1) {
        return Some(string_of(&c1));
    }
    let c2 = chars_of(c[2].as_str());
    if fs.path_exists(&c2) {
        return Some(string_of(&c2));
    }
    None
}

/// Resolve a FreeDesktop icon name to a file path (PNG preferred over SVG).
///
/// An absolute `name` is looked up as is, then with `.png`, then with `.svg`. Otherwise
/// `theme_name`, the themes it inherits from, and `hicolor` are searched in every search
/// directory, over the name and its shorter variants (trailing `-` segments dropped) in the
/// order that `mode` sets, and last `/usr/share/pixmaps` for the exact name.
#[verifier::rlimit(40)]
pub fn resolve_icon(
    fs: &FsView,
    name: &str,
    size: u32,
    search_dirs: &Vec<String>,
    theme_name: &str,
    mode: IconLookupMode,
) -> (r: Option<String>)
    ensures
        opt_view(r) == first_existing(*fs, icon_cands(*fs, name@, size, str_views(search_dirs@), theme_name@, mode)),
        r matches Some(p) ==> fs.exists_spec(p@),
{
    proof {
        crate::search::lemma_first_existing_found(
            *fs,
            icon_cands(*fs, name@, size, str_views(search_dirs@), theme_name@, mode),
        );
    }
    let n = chars_of(name);
    if n.len() > 0 && n[0] == '/' {
        return resolve_absolute(fs, name);
    }
    let mut dirs: Vec<Vec<char>> = Vec::new();
    for i in 0..search_dirs.len()
        invariant
            views(dirs@) == str_views(search_dirs@).take(i as int),
    {
        let c = chars_of(search_dirs[i].as_str());
        let ghost old = views(dirs@);
        dirs.push(c);
        assert(views(dirs@) =~= old.push(search_dirs@[i as int]@));
        assert(str_views(search_dirs@).take(i + 1) =~= str_views(search_dirs@).take(i as int).push(search_dirs@[i as int]@));
    }
    assert(str_views(search_dirs@).take(search_dirs.len() as int) =~= str_views(search_dirs@));
    let theme = chars_of(theme_name);
    proof {
        crate::search::lemma_first_existing_append(
            *fs,
            mode_cands(*fs, views(dirs@), theme@, n@, size, mode),
            dir_cands("/usr/share/pixmaps"@, n@),
        );
    }
    match search_mode(fs, &dirs, &theme, &n, size, mode) {
        Some(p) => Some(string_of(&p)),
        None => match find_in_dir(fs, &chars_of("/usr/share/pixmaps"), &n) {
            Some(p) => Some(string_of(&p)),
            None => None,
        },
    }
}


/// The icon directories under each nonempty directory of `dirs`, in order.
pub open spec fn icon_subdirs(dirs: Seq<Seq<char>>) -> Seq<Seq<char>>
    decreases dirs.len(),
{
    if dirs.len() == 0 {
        Seq::empty()
    } else {
        let r = icon_subdirs(dirs.drop_last());
        if dirs.last().len() > 0 {
            r.push(join_path(dirs.last(), "icons"@))
        } else {
            r
        }
    }
}

/// The default icon search directories: `$HOME/.local/share/icons` when `HOME` is set,
/// then `icons` under each directory of `XDG_DATA_DIRS` (by default
/// `/usr/local/share:/usr/share`).
pub open spec fn search_dirs_spec(home: Option<Seq<char>>, xdg_data_dirs: Option<Seq<char>>) -> Seq<Seq<char>> {
    let local = match home {
        Some(h) => seq![join_path(h, ".local/share/icons"@)],
        None => Seq::empty(),
    };
    let data = match xdg_data_dirs {
        Some(d) => d,
        None => "/usr/local/share:/usr/share"@,
    };
    local + icon_subdirs(split_on(data, ':'))
}

/// The default icon search directories from the values of `HOME` and `XDG_DATA_DIRS`.
pub fn default_search_dirs(home: Option<&str>, xdg_data_dirs: Option<&str>) -> (r: Vec<String>)
    ensures
        str_views(r@) == search_dirs_spec(
            match home { Some(h) => Some(h@), None => None },
            match xdg_data_dirs { Some(d) => Some(d@), None => None },
        ),
{
    let mut dirs: Vec<String> = Vec::new();
    if let Some(h) = home {
        dirs.push(crate::fs::join(h, ".local/share/icons"));
    }
    let ghost local = str_views(dirs@);
    let data: Vec<char> = match xdg_data_dirs {
        Some(d) => chars_of(d),
        None => chars_of("/usr/local/share:/usr/share"),
    };
    let parts = split_chars(&data, ':');
    for i in 0..parts.len()
        invariant
            str_views(dirs@) == local + icon_subdirs(views(parts@).take(i as int)),
    {
        assert(views(parts@).take(i + 1).drop_last() =~= views(parts@).take(i as int));
        assert(views(parts@).take(i + 1).last() == parts@[i as int]@);
        let ghost prev = dirs@;
        if parts[i].len() > 0 {
            let p = string_of(&parts[i]);
            dirs.push(crate::fs::join(p.as_str(), "icons"));
            assert(str_views(dirs@) =~= str_views(prev).push(join_path(parts@[i as int]@, "icons"@)));
        }
    }
    assert(views(parts@).take(parts.len() as int) =~= views(parts@));
    assert(str_views(dirs@) =~= search_dirs_spec(
        match home { Some(h) => Some(h@), None => None },
        match xdg_data_dirs { Some(d) => Some(d@), None => None },
    ));
    dirs
}

// ---------------------------------------------------------------------------
// What a lookup can give
// ---------------------------------------------------------------------------

/// `d` is `theme_dir` joined with an entry of the `Directories=` list of the theme's
/// `index.theme`.
pub open spec fn declared_in(fs: FsView, theme_dir: Seq<char>, d: Seq<char>) -> bool {
    match fs.read_spec(join_path(theme_dir, "index.theme"@)) {
        None => false,
        Some(content) => match find_prefixed(lines_of(content), "Directories="@) {
            None => false,
            Some(line) => exists|n: Seq<char>| list_items(line).contains(n) && d == #[trigger] join_path(theme_dir, n),
        },
    }
}

/// `d` is a directory of the theme in `theme_dir`: one that its index declares, one of its
/// subdirectories, or a subdirectory of one of those.
pub open spec fn theme_subdir(fs: FsView, theme_dir: Seq<char>, d: Seq<char>) -> bool {
    &&& fs.is_dir_spec(d)
    &&& {
        ||| declared_in(fs, theme_dir, d)
        ||| is_child(theme_dir, d)
        ||| exists|c: Seq<char>| fs.is_dir_spec(c) && is_child(theme_dir, c) && #[trigger] is_child(c, d)
    }
}

/// `p` is the PNG or SVG file of the icon name `v` in a directory of the theme in
/// `theme_dir`.
pub open spec fn file_in_theme(fs: FsView, theme_dir: Seq<char>, v: Seq<char>, p: Seq<char>) -> bool {
    &&& fs.is_dir_spec(theme_dir)
    &&& exists|d: Seq<char>| #[trigger] theme_subdir(fs, theme_dir, d) && dir_cands(d, v).contains(p)
}

/// `p` is such a file in the theme `t` under one of the search directories `dirs`.
pub open spec fn file_in_layer(fs: FsView, dirs: Seq<Seq<char>>, t: Seq<char>, v: Seq<char>, p: Seq<char>) -> bool {
    exists|base: Seq<char>| dirs.contains(base) && #[trigger] file_in_theme(fs, join_path(base, t), v, p)
}

/// `p` is a file that the lookup of the relative icon name `name` may give: the PNG or SVG
/// file of `name` or of one of its shorter variants in a directory of one of the theme
/// layers (`theme`, what it inherits, `hicolor`) under one of the search directories, or
/// the PNG or SVG file of `name` in `/usr/share/pixmaps`.
pub open spec fn icon_file_of(fs: FsView, dirs: Seq<Seq<char>>, theme: Seq<char>, name: Seq<char>, p: Seq<char>) -> bool {
    ||| dir_cands("/usr/share/pixmaps"@, name).contains(p)
    ||| exists|v: Seq<char>, t: Seq<char>|
        name_variants(name).contains(v) && theme_layers(inherited_themes(fs, dirs, theme), theme).contains(t)
            && #[trigger] file_in_layer(fs, dirs, t, v, p)
}

proof fn lemma_concat_member(a: Seq<Seq<char>>, b: Seq<Seq<char>>, x: Seq<char>)
    requires
        (a + b).contains(x),
    ensures
        a.contains(x) || b.contains(x),
{
    let k = choose|k: int| 0 <= k < (a + b).len() && (a + b)[k] == x;
    if k < a.len() {
        assert(a[k] == x);
    } else {
        assert(b[k - a.len()] == x);
    }
}

proof fn lemma_sort_insert_members(s: Seq<(Seq<char>, u32, bool)>, x: (Seq<char>, u32, bool), req: u32)
    ensures
        forall|i: int|
            0 <= i < sort_insert(s, x, req).len() ==> s.contains(#[trigger] sort_insert(s, x, req)[i])
                || sort_insert(s, x, req)[i] == x,
    decreases s.len(),
{
    if s.len() == 0 || fit_key(s.last().1, s.last().2, req) <= fit_key(x.1, x.2, req) {
        assert forall|i: int| 0 <= i < sort_insert(s, x, req).len() implies s.contains(
            #[trigger] sort_insert(s, x, req)[i],
        ) || sort_insert(s, x, req)[i] == x by {
            if i < s.len() {
                assert(sort_insert(s, x, req)[i] == s[i]);
            }
        }
    } else {
        lemma_sort_insert_members(s.drop_last(), x, req);
        let r = sort_insert(s.drop_last(), x, req);
        assert forall|i: int| 0 <= i < sort_insert(s, x, req).len() implies s.contains(
            #[trigger] sort_insert(s, x, req)[i],
        ) || sort_insert(s, x, req)[i] == x by {
            if i < r.len() {
                assert(sort_insert(s, x, req)[i] == r[i]);
                if r[i] != x {
                    let k = choose|k: int| 0 <= k < s.drop_last().len() && s.drop_last()[k] == r[i];
                    assert(s[k] == r[i]);
                }
            } else {
                assert(s[s.len() - 1] == s.last());
            }
        }
    }
}

proof fn lemma_sort_dirs_members(s: Seq<(Seq<char>, u32, bool)>, req: u32)
    ensures
        forall|i: int| 0 <= i < sort_dirs(s, req).len() ==> s.contains(#[trigger] sort_dirs(s, req)[i]),
    decreases s.len(),
{
    if s.len() > 0 {
        lemma_sort_dirs_members(s.drop_last(), req);
        let r = sort_dirs(s.drop_last(), req);
        lemma_sort_insert_members(r, s.last(), req);
        assert forall|i: int| 0 <= i < sort_dirs(s, req).len() implies s.contains(#[trigger] sort_dirs(s, req)[i]) by {
            let e = sort_dirs(s, req)[i];
            if e == s.last() {
                assert(s[s.len() - 1] == e);
            } else {
                let j = choose|j: int| 0 <= j < r.len() && r[j] == e;
                let k = choose|k: int| 0 <= k < s.drop_last().len() && s.drop_last()[k] == r[j];
                assert(s[k] == e);
            }
        }
    }
}

proof fn lemma_declared_dirs_members(fs: FsView, theme_dir: Seq<char>, content: Seq<char>, names: Seq<Seq<char>>)
    ensures
        forall|i: int|
            0 <= i < declared_dirs(fs, theme_dir, content, names).len() ==> fs.is_dir_spec(
                (#[trigger] declared_dirs(fs, theme_dir, content, names)[i]).0,
            ) && exists|n: Seq<char>|
                names.contains(n) && declared_dirs(fs, theme_dir, content, names)[i].0 == #[trigger] join_path(
                    theme_dir,
                    n,
                ),
    decreases names.len(),
{
    if names.len() > 0 {
        lemma_declared_dirs_members(fs, theme_dir, content, names.drop_last());
        let r = declared_dirs(fs, theme_dir, content, names.drop_last());
        let all = declared_dirs(fs, theme_dir, content, names);
        assert forall|i: int| 0 <= i < all.len() implies fs.is_dir_spec((#[trigger] all[i]).0) && exists|n: Seq<char>|
            names.contains(n) && all[i].0 == #[trigger] join_path(theme_dir, n) by {
            if i < r.len() {
                assert(all[i] == r[i]);
                let n = choose|n: Seq<char>| names.drop_last().contains(n) && r[i].0 == #[trigger] join_path(theme_dir, n);
                let k = choose|k: int| 0 <= k < names.drop_last().len() && names.drop_last()[k] == n;
                assert(names[k] == n);
            } else {
                assert(names[names.len() - 1] == names.last());
                assert(all[i].0 == join_path(theme_dir, names.last()));
            }
        }
    }
}

proof fn lemma_indexed_in_theme(fs: FsView, td: Seq<char>, v: Seq<char>, size: u32, p: Seq<char>)
    requires
        fs.is_dir_spec(td),
        indexed_cands(fs, td, v, size).contains(p),
    ensures
        file_in_theme(fs, td, v, p),
{
    let ls = indexed_lists(fs, td, v, size);
    crate::search::lemma_cat_member(ls, p);
    let i = choose|i: int| 0 <= i < ls.len() && (#[trigger] ls[i]).contains(p);
    let e = indexed_dirs(fs, td, size)[i];
    assert(ls[i] == dir_cands(e.0, v));
    let content = fs.read_spec(join_path(td, "index.theme"@))->0;
    let line = find_prefixed(lines_of(content), "Directories="@)->0;
    let dd = declared_dirs(fs, td, content, list_items(line));
    lemma_sort_dirs_members(dd, size);
    lemma_declared_dirs_members(fs, td, content, list_items(line));
    let j = choose|j: int| 0 <= j < dd.len() && dd[j] == e;
    assert(fs.is_dir_spec(dd[j].0));
    assert(declared_in(fs, td, e.0));
    assert(theme_subdir(fs, td, e.0));
}

proof fn lemma_heuristic_in_theme(fs: FsView, td: Seq<char>, v: Seq<char>, size: u32, p: Seq<char>)
    requires
        fs.is_dir_spec(td),
        heuristic_cands(fs, td, v, size).contains(p),
    ensures
        file_in_theme(fs, td, v, p),
{
    let ls = heuristic_lists(fs, td, v, size);
    crate::search::lemma_cat_member(ls, p);
    let i = choose|i: int| 0 <= i < ls.len() && (#[trigger] ls[i]).contains(p);
    let sc = sized_children(fs, td);
    let e = sort_dirs(sc, size)[i];
    lemma_sort_dirs_members(sc, size);
    let j = choose|j: int| 0 <= j < sc.len() && sc[j] == e;
    let kids = fs.children_spec(td);
    crate::fs::lemma_children_in(crate::text::views(fs.dirs@), td);
    let c = kids[j];
    assert(e.0 == c);
    assert(is_child(td, c));
    assert(fs.is_dir_spec(c));
    assert(ls[i] == tree_cands(fs, c, v));
    lemma_concat_member(dir_cands(c, v), cat_paths(sub_lists(fs, c, v)), p);
    if dir_cands(c, v).contains(p) {
        assert(theme_subdir(fs, td, c));
    } else {
        let sl = sub_lists(fs, c, v);
        crate::search::lemma_cat_member(sl, p);
        let k = choose|k: int| 0 <= k < sl.len() && (#[trigger] sl[k]).contains(p);
        crate::fs::lemma_children_in(crate::text::views(fs.dirs@), c);
        let d = fs.children_spec(c)[k];
        assert(sl[k] == dir_cands(d, v));
        assert(is_child(c, d));
        assert(fs.is_dir_spec(d));
        assert(theme_subdir(fs, td, d));
    }
}

proof fn lemma_theme_cands_in_theme(fs: FsView, base: Seq<char>, t: Seq<char>, v: Seq<char>, size: u32, p: Seq<char>)
    requires
        theme_cands(fs, base, t, v, size).contains(p),
    ensures
        file_in_theme(fs, join_path(base, t), v, p),
{
    let td = join_path(base, t);
    lemma_concat_member(indexed_cands(fs, td, v, size), heuristic_cands(fs, td, v, size), p);
    if indexed_cands(fs, td, v, size).contains(p) {
        lemma_indexed_in_theme(fs, td, v, size, p);
    } else {
        lemma_heuristic_in_theme(fs, td, v, size, p);
    }
}

proof fn lemma_all_bases_in_layer(fs: FsView, dirs: Seq<Seq<char>>, t: Seq<char>, v: Seq<char>, size: u32, p: Seq<char>)
    requires
        all_bases_cands(fs, dirs, t, v, size).contains(p),
    ensures
        file_in_layer(fs, dirs, t, v, p),
{
    let ls = bases_lists(fs, dirs, t, v, size);
    crate::search::lemma_cat_member(ls, p);
    let i = choose|i: int| 0 <= i < ls.len() && (#[trigger] ls[i]).contains(p);
    assert(ls[i] == theme_cands(fs, dirs[i], t, v, size));
    lemma_theme_cands_in_theme(fs, dirs[i], t, v, size, p);
    assert(dirs.contains(dirs[i]));
}

proof fn lemma_mode_cands_themed(
    fs: FsView,
    dirs: Seq<Seq<char>>,
    theme: Seq<char>,
    name: Seq<char>,
    size: u32,
    mode: IconLookupMode,
    p: Seq<char>,
)
    requires
        mode_cands(fs, dirs, theme, name, size, mode).contains(p),
    ensures
        icon_file_of(fs, dirs, theme, name, p),
{
    let layers = theme_layers(inherited_themes(fs, dirs, theme), theme);
    let variants = name_variants(name);
    let ls = mode_lists(fs, dirs, theme, name, size, mode);
    crate::search::lemma_cat_member(ls, p);
    let i = choose|i: int| 0 <= i < ls.len() && (#[trigger] ls[i]).contains(p);
    match mode {
        IconLookupMode::PreferTheme => {
            let t = layers[i];
            assert(ls[i] == stripping_cands(fs, dirs, t, name, size));
            let vl = variant_lists(fs, dirs, t, name, size);
            crate::search::lemma_cat_member(vl, p);
            let k = choose|k: int| 0 <= k < vl.len() && (#[trigger] vl[k]).contains(p);
            let v = variants[k];
            assert(vl[k] == all_bases_cands(fs, dirs, t, v, size));
            lemma_all_bases_in_layer(fs, dirs, t, v, size, p);
            assert(variants.contains(v));
            assert(layers.contains(t));
        },
        IconLookupMode::Exact => {
            let v = variants[i];
            assert(ls[i] == layers_cands(fs, dirs, layers, v, size));
            let ll = layer_lists(fs, dirs, layers, v, size);
            crate::search::lemma_cat_member(ll, p);
            let k = choose|k: int| 0 <= k < ll.len() && (#[trigger] ll[k]).contains(p);
            let t = layers[k];
            assert(ll[k] == all_bases_cands(fs, dirs, t, v, size));
            lemma_all_bases_in_layer(fs, dirs, t, v, size, p);
            assert(variants.contains(v));
            assert(layers.contains(t));
        },
    }
}

/// What a lookup of a relative icon name gives, in any lookup mode, is a file that exists:
/// the PNG or SVG file of the name or of one of its shorter variants in a directory of one
/// of the theme layers under one of the search directories, or the name's PNG or SVG file
/// in `/usr/share/pixmaps`.
pub proof fn lemma_resolved_icon_is_an_icon_file(
    fs: FsView,
    name: Seq<char>,
    size: u32,
    dirs: Seq<Seq<char>>,
    theme: Seq<char>,
    mode: IconLookupMode,
)
    requires
        !(name.len() > 0 && name[0] == '/'),
    ensures
        first_existing(fs, icon_cands(fs, name, size, dirs, theme, mode)) matches Some(p) ==> fs.exists_spec(p)
            && icon_file_of(fs, dirs, theme, name, p),
{
    let c = icon_cands(fs, name, size, dirs, theme, mode);
    crate::search::lemma_first_existing_found(fs, c);
    if let Some(p) = first_existing(fs, c) {
        let pix = dir_cands("/usr/share/pixmaps"@, name);
        lemma_concat_member(mode_cands(fs, dirs, theme, name, size, mode), pix, p);
        if !pix.contains(p) {
            lemma_mode_cands_themed(fs, dirs, theme, name, size, mode, p);
        }
    }
}

} // verus!
