//! Ordered candidate lists: the first candidate that exists in a file-system view.
use vstd::prelude::*;

use crate::fs::FsView;

verus! {

/// The first path of `c` that exists in `fs`.
pub open spec fn first_existing(fs: FsView, c: Seq<Seq<char>>) -> Option<Seq<char>>
    decreases c.len(),
{
    if c.len() == 0 {
        None
    } else if fs.exists_spec(c[0]) {
        Some(c[0])
    } else {
        first_existing(fs, c.drop_first())
    }
}

/// All the candidate lists of `s`, one after the other.
pub open spec fn cat_paths(s: Seq<Seq<Seq<char>>>) -> Seq<Seq<char>>
    decreases s.len(),
{
    if s.len() == 0 {
        Seq::empty()
    } else {
        cat_paths(s.drop_last()) + s.last()
    }
}

/// The view of an optional character vector.
pub open spec fn opt_chars(o: Option<Vec<char>>) -> Option<Seq<char>> {
    match o {
        Some(v) => Some(v@),
        None => None,
    }
}

/// The first existing path of `a + b` is that of `a`, or else that of `b`.
pub proof fn lemma_first_existing_append(fs: FsView, a: Seq<Seq<char>>, b: Seq<Seq<char>>)
    ensures
        first_existing(fs, a + b) == (if first_existing(fs, a) is Some {
            first_existing(fs, a)
        } else {
            first_existing(fs, b)
        }),
    decreases a.len(),
{
    if a.len() == 0 {
        assert(a + b =~= b);
    } else {
        assert((a + b)[0] == a[0]);
        assert((a + b).drop_first() =~= a.drop_first() + b);
        lemma_first_existing_append(fs, a.drop_first(), b);
    }
}

/// `cat_paths` of a sequence is that of a prefix followed by that of the rest.
pub proof fn lemma_cat_split(s: Seq<Seq<Seq<char>>>, k: int)
    requires
        0 <= k <= s.len(),
    ensures
        cat_paths(s) == cat_paths(s.take(k)) + cat_paths(s.skip(k)),
    decreases s.len(),
{
    if k == s.len() {
        assert(s.take(k) =~= s);
        assert(s.skip(k) =~= Seq::<Seq<Seq<char>>>::empty());
        assert(cat_paths(s) + Seq::<Seq<char>>::empty() =~= cat_paths(s));
    } else {
        lemma_cat_split(s.drop_last(), k);
        assert(s.drop_last().take(k) =~= s.take(k));
        assert(s.skip(k).drop_last() =~= s.drop_last().skip(k));
        assert(s.skip(k).last() == s.last());
        assert(cat_paths(s) =~= cat_paths(s.take(k)) + cat_paths(s.skip(k)));
    }
}

/// Taking one more list adds that list at the end.
pub proof fn lemma_cat_take_succ(s: Seq<Seq<Seq<char>>>, i: int)
    requires
        0 <= i < s.len(),
    ensures
        cat_paths(s.take(i + 1)) == cat_paths(s.take(i)) + s[i],
{
    assert(s.take(i + 1).drop_last() =~= s.take(i));
    assert(s.take(i + 1).last() == s[i]);
}

/// A search that went through the lists before `i` in vain and found a path in `s[i]`
/// has found the first existing path of all of `s`.
pub proof fn lemma_found_at(fs: FsView, s: Seq<Seq<Seq<char>>>, i: int)
    requires
        0 <= i < s.len(),
        first_existing(fs, cat_paths(s.take(i))) is None,
        first_existing(fs, s[i]) is Some,
    ensures
        first_existing(fs, cat_paths(s)) == first_existing(fs, s[i]),
{
    lemma_cat_take_succ(s, i);
    lemma_first_existing_append(fs, cat_paths(s.take(i)), s[i]);
    lemma_cat_split(s, i + 1);
    lemma_first_existing_append(fs, cat_paths(s.take(i + 1)), cat_paths(s.skip(i + 1)));
}

/// A search that went through the lists before `i` and `s[i]` in vain has gone through
/// the lists before `i + 1` in vain.
pub proof fn lemma_none_step(fs: FsView, s: Seq<Seq<Seq<char>>>, i: int)
    requires
        0 <= i < s.len(),
        first_existing(fs, cat_paths(s.take(i))) is None,
        first_existing(fs, s[i]) is None,
    ensures
        first_existing(fs, cat_paths(s.take(i + 1))) is None,
{
    lemma_cat_take_succ(s, i);
    lemma_first_existing_append(fs, cat_paths(s.take(i)), s[i]);
}

/// A search that went through all the lists in vain found nothing.
pub proof fn lemma_none_all(fs: FsView, s: Seq<Seq<Seq<char>>>)
    requires
        first_existing(fs, cat_paths(s.take(s.len() as int))) is None,
    ensures
        first_existing(fs, cat_paths(s)) is None,
{
    assert(s.take(s.len() as int) =~= s);
}

/// Nothing has been searched yet.
pub proof fn lemma_none_start(fs: FsView, s: Seq<Seq<Seq<char>>>)
    ensures
        first_existing(fs, cat_paths(s.take(0))) is None,
{
    assert(s.take(0) =~= Seq::<Seq<Seq<char>>>::empty());
}


/// The first existing candidate exists and is one of the candidates; when there is none,
/// no candidate exists.
pub proof fn lemma_first_existing_found(fs: FsView, c: Seq<Seq<char>>)
    ensures
        match first_existing(fs, c) {
            Some(p) => fs.exists_spec(p) && c.contains(p),
            None => forall|i: int| 0 <= i < c.len() ==> !fs.exists_spec(#[trigger] c[i]),
        },
    decreases c.len(),
{
    if c.len() > 0 && !fs.exists_spec(c[0]) {
        lemma_first_existing_found(fs, c.drop_first());
        match first_existing(fs, c) {
            Some(p) => {
                let k = choose|k: int| 0 <= k < c.drop_first().len() && c.drop_first()[k] == p;
                assert(c[k + 1] == p);
            },
            None => {
                assert forall|i: int| 0 <= i < c.len() implies !fs.exists_spec(#[trigger] c[i]) by {
                    if i > 0 {
                        assert(c[i] == c.drop_first()[i - 1]);
                    }
                }
            },
        }
    } else if c.len() > 0 {
        assert(c[0] == c[0]);
    }
}

/// A path of `cat_paths(s)` is a path of one of the lists of `s`.
pub proof fn lemma_cat_member(s: Seq<Seq<Seq<char>>>, x: Seq<char>)
    requires
        cat_paths(s).contains(x),
    ensures
        exists|i: int| 0 <= i < s.len() && (#[trigger] s[i]).contains(x),
    decreases s.len(),
{
    let a = cat_paths(s.drop_last());
    let k = choose|k: int| 0 <= k < cat_paths(s).len() && cat_paths(s)[k] == x;
    if k < a.len() {
        assert(a[k] == x);
        lemma_cat_member(s.drop_last(), x);
        let i = choose|i: int| 0 <= i < s.drop_last().len() && (#[trigger] s.drop_last()[i]).contains(x);
        assert(s[i] == s.drop_last()[i]);
    } else {
        assert(s.last()[k - a.len()] == x);
        assert(s[s.len() - 1] == s.last());
    }
}

} // verus!
