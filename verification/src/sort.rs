//! Stable ordering of keyed entries.
use vstd::prelude::*;

verus! {

/// `x` placed into `s` after every entry whose key is not larger.
pub open spec fn keyed_insert<T>(s: Seq<(u64, T)>, x: (u64, T)) -> Seq<(u64, T)>
    decreases s.len(),
{
    if s.len() == 0 || s.last().0 <= x.0 {
        s.push(x)
    } else {
        keyed_insert(s.drop_last(), x).push(s.last())
    }
}

/// `s` ordered by key; entries with equal keys keep their relative order.
pub open spec fn keyed_sort<T>(s: Seq<(u64, T)>) -> Seq<(u64, T)>
    decreases s.len(),
{
    if s.len() == 0 {
        s
    } else {
        keyed_insert(keyed_sort(s.drop_last()), s.last())
    }
}

proof fn lemma_keyed_insert_at<T>(s: Seq<(u64, T)>, x: (u64, T), k: int)
    requires
        0 <= k <= s.len(),
        forall|j: int| k <= j < s.len() ==> s[j].0 > x.0,
        k == 0 || s[k - 1].0 <= x.0,
    ensures
        keyed_insert(s, x) == s.insert(k, x),
    decreases s.len() - k,
{
    if k == s.len() {
        assert(s.insert(k, x) =~= s.push(x));
    } else {
        lemma_keyed_insert_at(s.drop_last(), x, k);
        assert(s.insert(k, x) =~= s.drop_last().insert(k, x).push(s.last()));
    }
}

/// Inserting into a sorted sequence keeps it sorted.
proof fn lemma_keyed_insert_sorted<T>(s: Seq<(u64, T)>, x: (u64, T))
    requires
        forall|i: int, j: int| 0 <= i < j < s.len() ==> s[i].0 <= s[j].0,
    ensures
        keyed_insert(s, x).len() == s.len() + 1,
        forall|i: int, j: int|
            0 <= i < j < keyed_insert(s, x).len() ==> keyed_insert(s, x)[i].0 <= keyed_insert(s, x)[j].0,
        forall|i: int|
            0 <= i < keyed_insert(s, x).len() ==> keyed_insert(s, x)[i].0 == x.0 || exists|j: int|
                0 <= j < s.len() && s[j].0 == #[trigger] keyed_insert(s, x)[i].0,
    decreases s.len(),
{
    if s.len() > 0 && s.last().0 > x.0 {
        lemma_keyed_insert_sorted(s.drop_last(), x);
        let r = keyed_insert(s.drop_last(), x);
        assert forall|i: int| 0 <= i < r.len() implies r[i].0 <= s.last().0 by {
            if r[i].0 != x.0 {
                let j = choose|j: int| 0 <= j < s.drop_last().len() && s.drop_last()[j].0 == r[i].0;
                assert(s[j].0 <= s[s.len() - 1].0);
            }
        }
        assert forall|i: int| 0 <= i < keyed_insert(s, x).len() implies keyed_insert(s, x)[i].0 == x.0
            || exists|j: int| 0 <= j < s.len() && s[j].0 == #[trigger] keyed_insert(s, x)[i].0 by {
            if i < r.len() {
                if r[i].0 != x.0 {
                    let j = choose|j: int| 0 <= j < s.drop_last().len() && s.drop_last()[j].0 == r[i].0;
                    assert(s[j] == s.drop_last()[j]);
                }
            } else {
                assert(s[s.len() - 1].0 == keyed_insert(s, x)[i].0);
            }
        }
    } else {
        assert forall|i: int| 0 <= i < keyed_insert(s, x).len() implies keyed_insert(s, x)[i].0 == x.0
            || exists|j: int| 0 <= j < s.len() && s[j].0 == #[trigger] keyed_insert(s, x)[i].0 by {
            if i < s.len() {
                assert(s[i].0 == keyed_insert(s, x)[i].0);
            }
        }
    }
}

/// The keys of a sorted sequence never decrease.
pub proof fn lemma_keyed_sort_sorted<T>(s: Seq<(u64, T)>)
    ensures
        keyed_sort(s).len() == s.len(),
        forall|i: int, j: int| 0 <= i < j < s.len() ==> keyed_sort(s)[i].0 <= keyed_sort(s)[j].0,
    decreases s.len(),
{
    if s.len() > 0 {
        lemma_keyed_sort_sorted(s.drop_last());
        lemma_keyed_insert_sorted(keyed_sort(s.drop_last()), s.last());
    }
}

proof fn lemma_keyed_insert_perm<T>(s: Seq<(u64, T)>, x: (u64, T))
    ensures
        keyed_insert(s, x).to_multiset() == s.to_multiset().insert(x),
    decreases s.len(),
{
    broadcast use vstd::seq_lib::group_to_multiset_ensures;
    broadcast use vstd::multiset::group_multiset_axioms;

    if s.len() > 0 && s.last().0 > x.0 {
        lemma_keyed_insert_perm(s.drop_last(), x);
        assert(s.drop_last().push(s.last()) =~= s);
        assert(keyed_insert(s, x).to_multiset() =~= s.to_multiset().insert(x));
    }
}

/// Sorting neither adds nor drops an entry.
pub proof fn lemma_keyed_sort_perm<T>(s: Seq<(u64, T)>)
    ensures
        keyed_sort(s).to_multiset() == s.to_multiset(),
    decreases s.len(),
{
    broadcast use vstd::seq_lib::group_to_multiset_ensures;

    if s.len() > 0 {
        lemma_keyed_sort_perm(s.drop_last());
        lemma_keyed_insert_perm(keyed_sort(s.drop_last()), s.last());
        assert(s.drop_last().push(s.last()) =~= s);
    }
}

/// `s` with `f` applied to the item of each entry, keys unchanged.
pub open spec fn map_items<T, U>(s: Seq<(u64, T)>, f: spec_fn(T) -> U) -> Seq<(u64, U)> {
    s.map_values(|e: (u64, T)| (e.0, f(e.1)))
}

proof fn lemma_keyed_insert_map<T, U>(s: Seq<(u64, T)>, x: (u64, T), f: spec_fn(T) -> U)
    ensures
        keyed_insert(map_items(s, f), (x.0, f(x.1))) == map_items(keyed_insert(s, x), f),
    decreases s.len(),
{
    if s.len() == 0 {
        assert(map_items(s, f).push((x.0, f(x.1))) =~= map_items(s.push(x), f));
    } else if s.last().0 <= x.0 {
        assert(map_items(s, f).last() == (s.last().0, f(s.last().1)));
        assert(map_items(s, f).push((x.0, f(x.1))) =~= map_items(s.push(x), f));
    } else {
        lemma_keyed_insert_map(s.drop_last(), x, f);
        assert(map_items(s, f).last() == (s.last().0, f(s.last().1)));
        assert(map_items(s, f).drop_last() =~= map_items(s.drop_last(), f));
        assert(map_items(keyed_insert(s.drop_last(), x), f).push((s.last().0, f(s.last().1)))
            =~= map_items(keyed_insert(s.drop_last(), x).push(s.last()), f));
    }
}

/// Sorting commutes with changing the items but not the keys.
pub proof fn lemma_keyed_sort_map<T, U>(s: Seq<(u64, T)>, f: spec_fn(T) -> U)
    ensures
        keyed_sort(map_items(s, f)) == map_items(keyed_sort(s), f),
    decreases s.len(),
{
    if s.len() == 0 {
        assert(map_items(s, f) =~= Seq::<(u64, U)>::empty());
        assert(map_items(keyed_sort(s), f) =~= Seq::<(u64, U)>::empty());
    } else {
        lemma_keyed_sort_map(s.drop_last(), f);
        assert(map_items(s, f).drop_last() =~= map_items(s.drop_last(), f));
        assert(map_items(s, f).last() == (s.last().0, f(s.last().1)));
        lemma_keyed_insert_map(keyed_sort(s.drop_last()), s.last(), f);
    }
}

/// `v` ordered by key, stably.
pub fn sort_keyed<T>(v: Vec<(u64, T)>) -> (r: Vec<(u64, T)>)
    ensures
        r@ == keyed_sort(v@),
{
    let ghost orig = v@;
    let mut src = v;
    let mut rev: Vec<(u64, T)> = Vec::new();
    while src.len() > 0
        invariant
            src@ + rev@.reverse() == orig,
        decreases src.len(),
    {
        let ghost bs = src@;
        let ghost br = rev@;
        let t = src.pop().unwrap();
        rev.push(t);
        assert(rev@.reverse() =~= seq![t] + br.reverse());
        assert(src@ + rev@.reverse() =~= bs + br.reverse());
    }
    assert(src@ =~= Seq::<(u64, T)>::empty());
    assert(rev@.reverse() =~= orig);
    let mut out: Vec<(u64, T)> = Vec::new();
    let ghost n = orig.len();
    while rev.len() > 0
        invariant
            n == orig.len(),
            rev@.len() <= n,
            rev@.reverse() == orig.subrange(n - rev@.len(), n as int),
            out@ == keyed_sort(orig.take(n - rev@.len())),
        decreases rev.len(),
    {
        let ghost br = rev@;
        let ghost i = n - rev@.len();
        let x = rev.pop().unwrap();
        assert(br.reverse()[0] == x);
        assert(orig[i] == x);
        assert(rev@.reverse() =~= br.reverse().drop_first());
        let mut k = out.len();
        while k > 0 && out[k - 1].0 > x.0
            invariant
                k <= out.len(),
                forall|j: int| k <= j < out.len() ==> out@[j].0 > x.0,
            decreases k,
        {
            k -= 1;
        }
        proof {
            lemma_keyed_insert_at(out@, x, k as int);
        }
        out.insert(k, x);
        assert(orig.take(i + 1).drop_last() =~= orig.take(i));
        assert(orig.take(i + 1).last() == x);
    }
    assert(orig.take(n as int) =~= orig);
    out
}

} // verus!
