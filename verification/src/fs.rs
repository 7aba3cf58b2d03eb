//! Paths as character sequences, and a read-only view of the parts of a file system that
//! the lookups of this crate consult.
use vstd::prelude::*;

use crate::text::{chars_of, eq_chars, slice_chars, starts_with, starts_with_chars, string_of, str_views, views};

verus! {

/// `comp` appended to `base` as `PathBuf::join` does for one component: an absolute `comp`
/// replaces `base`, an empty `base` is dropped, and one `/` separates the two.
pub open spec fn join_path(base: Seq<char>, comp: Seq<char>) -> Seq<char> {
    if comp.len() > 0 && comp[0] == '/' {
        comp
    } else if base.len() == 0 {
        comp
    } else if base.last() == '/' {
        base + comp
    } else {
        base + seq!['/'] + comp
    }
}

/// What precedes the name of a direct child of `d`.
pub open spec fn child_prefix(d: Seq<char>) -> Seq<char> {
    if d.len() == 0 || d.last() == '/' {
        d
    } else {
        d.push('/')
    }
}

/// `p` names a direct child of the directory `d`.
pub open spec fn is_child(d: Seq<char>, p: Seq<char>) -> bool {
    let pre = child_prefix(d);
    &&& starts_with(p, pre)
    &&& p.len() > pre.len()
    &&& !p.subrange(pre.len() as int, p.len() as int).contains('/')
}

/// The last component of the child `p` of `d`.
pub open spec fn child_name(d: Seq<char>, p: Seq<char>) -> Seq<char> {
    p.subrange(child_prefix(d).len() as int, p.len() as int)
}

/// The entries of `s` that are direct children of `d`, in order.
pub open spec fn children_in(s: Seq<Seq<char>>, d: Seq<char>) -> Seq<Seq<char>>
    decreases s.len(),
{
    if s.len() == 0 {
        Seq::empty()
    } else {
        let r = children_in(s.drop_last(), d);
        if is_child(d, s.last()) {
            r.push(s.last())
        } else {
            r
        }
    }
}

/// Every entry that `children_in` keeps is a child of `d`, taken from `s`.
pub proof fn lemma_children_in(s: Seq<Seq<char>>, d: Seq<char>)
    ensures
        forall|j: int| 0 <= j < children_in(s, d).len() ==> is_child(d, #[trigger] children_in(s, d)[j]),
        forall|j: int| 0 <= j < children_in(s, d).len() ==> s.contains(#[trigger] children_in(s, d)[j]),
    decreases s.len(),
{
    if s.len() > 0 {
        lemma_children_in(s.drop_last(), d);
        let r = children_in(s.drop_last(), d);
        assert forall|j: int| 0 <= j < children_in(s, d).len() implies is_child(d, #[trigger] children_in(s, d)[j])
            && s.contains(children_in(s, d)[j]) by {
            if j < r.len() {
                assert(children_in(s, d)[j] == r[j]);
                let k = choose|k: int| 0 <= k < s.drop_last().len() && s.drop_last()[k] == r[j];
                assert(s[k] == r[j]);
            } else {
                assert(s[s.len() - 1] == s.last());
            }
        }
    }
}

/// The contents recorded for `p`: the first pair whose path is `p`.
pub open spec fn text_lookup(s: Seq<(Vec<char>, Vec<char>)>, p: Seq<char>) -> Option<Seq<char>>
    decreases s.len(),
{
    if s.len() == 0 {
        None
    } else if s[0].0@ == p {
        Some(s[0].1@)
    } else {
        text_lookup(s.drop_first(), p)
    }
}

/// A copy of a character vector.
pub fn copy_chars(v: &Vec<char>) -> (r: Vec<char>)
    ensures
        r@ == v@,
{
    let r = slice_chars(v, 0, v.len());
    assert(v@.subrange(0, v.len() as int) =~= v@);
    r
}

/// [`join_path`] on character vectors.
pub fn join_chars(base: &Vec<char>, comp: &Vec<char>) -> (r: Vec<char>)
    ensures
        r@ == join_path(base@, comp@),
{
    if comp.len() > 0 && comp[0] == '/' {
        return copy_chars(comp);
    }
    if base.len() == 0 {
        return copy_chars(comp);
    }
    let mut r = copy_chars(base);
    if base[base.len() - 1] != '/' {
        r.push('/');
    }
    let ghost pre = r@;
    for i in 0..comp.len()
        invariant
            r@ == pre + comp@.take(i as int),
    {
        r.push(comp[i]);
        assert(comp@.take(i + 1) =~= comp@.take(i as int).push(comp@[i as int]));
        assert(r@ =~= pre + comp@.take(i + 1));
    }
    assert(comp@.take(comp.len() as int) =~= comp@);
    r
}

/// `comp` joined onto `base` as a path (see [`join_path`]).
pub fn join(base: &str, comp: &str) -> (r: String)
    ensures
        r@ == join_path(base@, comp@),
{
    string_of(&join_chars(&chars_of(base), &chars_of(comp)))
}

/// Whether `p` is one of the entries of `list`.
pub fn contains_chars(list: &Vec<Vec<char>>, p: &Vec<char>) -> (r: bool)
    ensures
        r == views(list@).contains(p@),
{
    for i in 0..list.len()
        invariant
            forall|j: int| 0 <= j < i ==> list@[j]@ != p@,
    {
        if eq_chars(&list[i], p) {
            assert(views(list@)[i as int] == p@);
            return true;
        }
    }
    assert forall|j: int| 0 <= j < views(list@).len() implies views(list@)[j] != p@ by {
        assert(views(list@)[j] == list@[j]@);
    }
    false
}

fn is_child_exec(d: &Vec<char>, p: &Vec<char>) -> (r: bool)
    ensures
        r == is_child(d@, p@),
{
    let mut pre = copy_chars(d);
    if d.len() > 0 && d[d.len() - 1] != '/' {
        pre.push('/');
    }
    assert(pre@ == child_prefix(d@));
    if !starts_with_chars(p, &pre) || p.len() <= pre.len() {
        return false;
    }
    let ghost rest = p@.subrange(pre.len() as int, p.len() as int);
    let mut i = pre.len();
    while i < p.len()
        invariant
            pre.len() <= i <= p.len(),
            pre@ == child_prefix(d@),
            starts_with(p@, pre@),
            rest == p@.subrange(pre.len() as int, p.len() as int),
            forall|j: int| 0 <= j < i - pre.len() ==> rest[j] != '/',
        decreases p.len() - i,
    {
        if p[i] == '/' {
            assert(rest[i - pre.len()] == '/');
            assert(rest.contains('/'));
            return false;
        }
        i += 1;
    }
    true
}

/// A read-only view of part of a file system: the paths that exist as files, the paths that
/// are directories (in the order a directory listing gives them), and the text of some files.
pub struct FsView {
    pub files: Vec<Vec<char>>,
    pub dirs: Vec<Vec<char>>,
    pub texts: Vec<(Vec<char>, Vec<char>)>,
}

impl FsView {
    /// `p` exists, as a file or as a directory.
    pub open spec fn exists_spec(&self, p: Seq<char>) -> bool {
        views(self.files@).contains(p) || views(self.dirs@).contains(p)
    }

    /// `p` is a directory.
    pub open spec fn is_dir_spec(&self, p: Seq<char>) -> bool {
        views(self.dirs@).contains(p)
    }

    /// The text of the file `p`, when it is known and readable.
    pub open spec fn read_spec(&self, p: Seq<char>) -> Option<Seq<char>> {
        text_lookup(self.texts@, p)
    }

    /// The subdirectories of `d`, in listing order.
    pub open spec fn children_spec(&self, d: Seq<char>) -> Seq<Seq<char>> {
        children_in(views(self.dirs@), d)
    }

    /// A view with the given files, directories and file texts.
    pub fn new(files: Vec<String>, dirs: Vec<String>, texts: Vec<(String, String)>) -> (r: FsView)
        ensures
            views(r.files@) == str_views(files@),
            views(r.dirs@) == str_views(dirs@),
            r.texts@.len() == texts@.len(),
            forall|i: int|
                0 <= i < texts@.len() ==> (#[trigger] r.texts@[i]).0@ == texts@[i].0@ && r.texts@[i].1@
                    == texts@[i].1@,
    {
        let mut fv: Vec<Vec<char>> = Vec::new();
        for i in 0..files.len()
            invariant
                views(fv@) == str_views(files@).take(i as int),
        {
            let c = chars_of(files[i].as_str());
            let ghost old = fv@;
            fv.push(c);
            assert(views(fv@) =~= views(old).push(files@[i as int]@));
            assert(str_views(files@).take(i + 1) =~= str_views(files@).take(i as int).push(files@[i as int]@));
        }
        assert(str_views(files@).take(files.len() as int) =~= str_views(files@));
        let mut dv: Vec<Vec<char>> = Vec::new();
        for i in 0..dirs.len()
            invariant
                views(dv@) == str_views(dirs@).take(i as int),
        {
            let c = chars_of(dirs[i].as_str());
            let ghost old = dv@;
            dv.push(c);
            assert(views(dv@) =~= views(old).push(dirs@[i as int]@));
            assert(str_views(dirs@).take(i + 1) =~= str_views(dirs@).take(i as int).push(dirs@[i as int]@));
        }
        assert(str_views(dirs@).take(dirs.len() as int) =~= str_views(dirs@));
        let mut tv: Vec<(Vec<char>, Vec<char>)> = Vec::new();
        for i in 0..texts.len()
            invariant
                tv@.len() == i,
                forall|j: int|
                    0 <= j < i ==> (#[trigger] tv@[j]).0@ == texts@[j].0@ && tv@[j].1@
                        == texts@[j].1@,
        {
            let k = chars_of(texts[i].0.as_str());
            let t = chars_of(texts[i].1.as_str());
            tv.push((k, t));
        }
        FsView { files: fv, dirs: dv, texts: tv }
    }

    /// Whether `p` exists.
    pub fn path_exists(&self, p: &Vec<char>) -> (r: bool)
        ensures
            r == self.exists_spec(p@),
    {
        contains_chars(&self.files, p) || contains_chars(&self.dirs, p)
    }

    /// Whether `p` is a directory.
    pub fn is_dir(&self, p: &Vec<char>) -> (r: bool)
        ensures
            r == self.is_dir_spec(p@),
    {
        contains_chars(&self.dirs, p)
    }

    /// The text of the file `p`.
    pub fn read(&self, p: &Vec<char>) -> (r: Option<Vec<char>>)
        ensures
            match r {
                Some(t) => self.read_spec(p@) == Some(t@),
                None => self.read_spec(p@) is None,
            },
    {
        assert(self.texts@.skip(0) =~= self.texts@);
        for i in 0..self.texts.len()
            invariant
                text_lookup(self.texts@, p@) == text_lookup(self.texts@.skip(i as int), p@),
        {
            assert(self.texts@.skip(i as int)[0] == self.texts@[i as int]);
            assert(self.texts@.skip(i as int).drop_first() =~= self.texts@.skip(i + 1));
            if eq_chars(&self.texts[i].0, p) {
                return Some(copy_chars(&self.texts[i].1));
            }
        }
        None
    }

    /// The subdirectories of `d`, in listing order.
    pub fn children(&self, d: &Vec<char>) -> (r: Vec<Vec<char>>)
        ensures
            views(r@) == self.children_spec(d@),
    {
        let mut r: Vec<Vec<char>> = Vec::new();
        for i in 0..self.dirs.len()
            invariant
                views(r@) == children_in(views(self.dirs@).take(i as int), d@),
        {
            let ghost s = views(self.dirs@).take(i + 1);
            assert(s.drop_last() =~= views(self.dirs@).take(i as int));
            assert(s.last() == self.dirs@[i as int]@);
            if is_child_exec(d, &self.dirs[i]) {
                r.push(copy_chars(&self.dirs[i]));
                assert(views(r@) =~= children_in(s, d@));
            }
        }
        assert(views(self.dirs@).take(self.dirs.len() as int) =~= views(self.dirs@));
        r
    }
}

} // verus!
