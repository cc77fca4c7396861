//! Stable sorting. For a strict weak order there is exactly one stable
//! sorted permutation of a sequence, so `sorted_by` (insertion from the
//! back) is what any stable sort, std's `sort_by_key` among them, yields.

use vstd::prelude::*;

verus! {

/// `x` inserted into `s` after every element it is not less than,
/// scanning from the back.
pub open spec fn insert_sorted<T>(s: Seq<T>, x: T, lt: spec_fn(T, T) -> bool) -> Seq<T>
    decreases s.len(),
{
    if s.len() == 0 {
        seq![x]
    } else if lt(x, s.last()) {
        insert_sorted(s.drop_last(), x, lt).push(s.last())
    } else {
        s.push(x)
    }
}

/// The stable sort of `s` by the order `lt`.
pub open spec fn sorted_by<T>(s: Seq<T>, lt: spec_fn(T, T) -> bool) -> Seq<T>
    decreases s.len(),
{
    if s.len() == 0 {
        s
    } else {
        insert_sorted(sorted_by(s.drop_last(), lt), s.last(), lt)
    }
}

pub proof fn lemma_insert_at<T>(s: Seq<T>, x: T, lt: spec_fn(T, T) -> bool, j: int)
    requires
        0 <= j <= s.len(),
        forall|k: int| j <= k < s.len() ==> lt(x, #[trigger] s[k]),
        j > 0 ==> !lt(x, s[j - 1]),
    ensures
        insert_sorted(s, x, lt) == s.insert(j, x),
    decreases s.len(),
{
    if s.len() == 0 {
        assert(s.insert(j, x) =~= seq![x]);
    } else if j == s.len() {
        assert(s.insert(j, x) =~= s.push(x));
    } else {
        assert(lt(x, s[s.len() - 1]));
        lemma_insert_at(s.drop_last(), x, lt, j);
        assert(s.insert(j, x) =~= s.drop_last().insert(j, x).push(s.last()));
    }
}

pub proof fn lemma_insert_sorted_len<T>(s: Seq<T>, x: T, lt: spec_fn(T, T) -> bool)
    ensures
        insert_sorted(s, x, lt).len() == s.len() + 1,
    decreases s.len(),
{
    if s.len() > 0 && lt(x, s.last()) {
        lemma_insert_sorted_len(s.drop_last(), x, lt);
    }
}

pub proof fn lemma_sorted_len<T>(s: Seq<T>, lt: spec_fn(T, T) -> bool)
    ensures
        sorted_by(s, lt).len() == s.len(),
    decreases s.len(),
{
    if s.len() > 0 {
        lemma_sorted_len(s.drop_last(), lt);
        lemma_insert_sorted_len(sorted_by(s.drop_last(), lt), s.last(), lt);
    }
}

/// `v` stably sorted by the order `less`, whose results `lt` states.
pub fn sort_by<T, F: Fn(&T, &T) -> bool>(
    v: Vec<T>,
    less: F,
    Ghost(lt): Ghost<spec_fn(T, T) -> bool>,
) -> (res: Vec<T>)
    requires
        forall|a: &T, b: &T| #[trigger] less.requires((a, b)),
        forall|a: &T, b: &T, r: bool| #[trigger] less.ensures((a, b), r) ==> r == lt(*a, *b),
    ensures
        res@ == sorted_by(v@, lt),
{
    let ghost all = v@;
    let mut res: Vec<T> = Vec::new();
    for x in it: v
        invariant
            all == it.seq(),
            forall|a: &T, b: &T| #[trigger] less.requires((a, b)),
            forall|a: &T, b: &T, r: bool| #[trigger] less.ensures((a, b), r) ==> r == lt(*a, *b),
            res@ == sorted_by(all.take(it.index() as int), lt),
    {
        let ghost i = it.index();
        let mut j = res.len();
        while j > 0 && less(&x, &res[j - 1])
            invariant
                j <= res@.len(),
                forall|a: &T, b: &T| #[trigger] less.requires((a, b)),
                forall|a: &T, b: &T, r: bool| #[trigger] less.ensures((a, b), r) ==> r == lt(*a, *b),
                forall|k: int| j <= k < res@.len() ==> lt(x, #[trigger] res@[k]),
            decreases j,
        {
            j -= 1;
        }
        proof {
            lemma_insert_at(res@, x, lt, j as int);
            assert(all.take(i + 1).drop_last() =~= all.take(i as int));
        }
        res.insert(j, x);
    }
    proof {
        assert(all.take(all.len() as int) =~= all);
    }
    res
}

} // verus!

verus! {

pub proof fn lemma_insert_map<T, U>(
    s: Seq<T>,
    x: T,
    f: spec_fn(T) -> U,
    lt_t: spec_fn(T, T) -> bool,
    lt_u: spec_fn(U, U) -> bool,
)
    requires
        forall|a: T, b: T| #[trigger] lt_t(a, b) == lt_u(f(a), f(b)),
    ensures
        insert_sorted(s, x, lt_t).map_values(f) == insert_sorted(s.map_values(f), f(x), lt_u),
    decreases s.len(),
{
    if s.len() == 0 {
        assert(insert_sorted(s, x, lt_t).map_values(f) =~= seq![f(x)]);
    } else {
        assert(s.map_values(f).last() == f(s.last()));
        assert(s.map_values(f).drop_last() =~= s.drop_last().map_values(f));
        if lt_t(x, s.last()) {
            lemma_insert_map(s.drop_last(), x, f, lt_t, lt_u);
            assert(insert_sorted(s, x, lt_t).map_values(f) =~= insert_sorted(
                s.drop_last(),
                x,
                lt_t,
            ).map_values(f).push(f(s.last())));
        } else {
            assert(s.push(x).map_values(f) =~= s.map_values(f).push(f(x)));
        }
    }
}

/// Sorting commutes with a view when the order reads only the view.
pub proof fn lemma_sorted_map<T, U>(
    s: Seq<T>,
    f: spec_fn(T) -> U,
    lt_t: spec_fn(T, T) -> bool,
    lt_u: spec_fn(U, U) -> bool,
)
    requires
        forall|a: T, b: T| #[trigger] lt_t(a, b) == lt_u(f(a), f(b)),
    ensures
        sorted_by(s, lt_t).map_values(f) == sorted_by(s.map_values(f), lt_u),
    decreases s.len(),
{
    if s.len() == 0 {
        assert(s.map_values(f) =~= Seq::<U>::empty());
    } else {
        lemma_sorted_map(s.drop_last(), f, lt_t, lt_u);
        assert(s.map_values(f).drop_last() =~= s.drop_last().map_values(f));
        lemma_insert_map(sorted_by(s.drop_last(), lt_t), s.last(), f, lt_t, lt_u);
    }
}

} // verus!

verus! {

pub proof fn lemma_insert_all<T>(s: Seq<T>, x: T, lt: spec_fn(T, T) -> bool, pred: spec_fn(T) -> bool)
    requires
        forall|i: int| 0 <= i < s.len() ==> pred(#[trigger] s[i]),
        pred(x),
    ensures
        forall|i: int|
            0 <= i < insert_sorted(s, x, lt).len() ==> pred(#[trigger] insert_sorted(s, x, lt)[i]),
    decreases s.len(),
{
    if s.len() > 0 {
        if lt(x, s.last()) {
            lemma_insert_all(s.drop_last(), x, lt, pred);
            let t = insert_sorted(s.drop_last(), x, lt);
            assert forall|i: int| 0 <= i < t.push(s.last()).len() implies pred(
                #[trigger] t.push(s.last())[i],
            ) by {
                if i < t.len() {
                    assert(t.push(s.last())[i] == t[i]);
                }
            }
        } else {
            assert forall|i: int| 0 <= i < s.push(x).len() implies pred(#[trigger] s.push(x)[i]) by {
                if i < s.len() {
                    assert(s.push(x)[i] == s[i]);
                }
            }
        }
    }
}

/// What holds of every element still holds after sorting.
pub proof fn lemma_sorted_all<T>(s: Seq<T>, lt: spec_fn(T, T) -> bool, pred: spec_fn(T) -> bool)
    requires
        forall|i: int| 0 <= i < s.len() ==> pred(#[trigger] s[i]),
    ensures
        forall|i: int| 0 <= i < sorted_by(s, lt).len() ==> pred(#[trigger] sorted_by(s, lt)[i]),
    decreases s.len(),
{
    if s.len() > 0 {
        assert forall|i: int| 0 <= i < s.drop_last().len() implies pred(#[trigger] s.drop_last()[i]) by {
            assert(s.drop_last()[i] == s[i]);
        }
        lemma_sorted_all(s.drop_last(), lt, pred);
        assert(pred(s[s.len() - 1]));
        lemma_insert_all(sorted_by(s.drop_last(), lt), s.last(), lt, pred);
    }
}

} // verus!

verus! {

/// No element is less than one before it.
pub open spec fn is_sorted_by<T>(s: Seq<T>, lt: spec_fn(T, T) -> bool) -> bool {
    forall|i: int, j: int| 0 <= i < j < s.len() ==> !lt(#[trigger] s[j], #[trigger] s[i])
}

/// `lt` is a strict weak order: irreflexive, transitive, and
/// incomparability is transitive.
pub open spec fn strict_weak<T>(lt: spec_fn(T, T) -> bool) -> bool {
    &&& forall|a: T| !#[trigger] lt(a, a)
    &&& forall|a: T, b: T, c: T| #[trigger] lt(a, b) && #[trigger] lt(b, c) ==> lt(a, c)
    &&& forall|a: T, b: T, c: T| #[trigger] lt(a, c) ==> lt(a, b) || #[trigger] lt(b, c)
}

pub proof fn lemma_insert_sorted_sorted<T>(s: Seq<T>, x: T, lt: spec_fn(T, T) -> bool)
    requires
        strict_weak(lt),
        is_sorted_by(s, lt),
    ensures
        is_sorted_by(insert_sorted(s, x, lt), lt),
    decreases s.len(),
{
    if s.len() == 0 {
    } else if lt(x, s.last()) {
        let t = s.drop_last();
        let last = s.last();
        assert(is_sorted_by(t, lt)) by {
            assert forall|i: int, j: int| 0 <= i < j < t.len() implies !lt(#[trigger] t[j], #[trigger] t[i]) by {
                assert(t[j] == s[j] && t[i] == s[i]);
            }
        }
        lemma_insert_sorted_sorted(t, x, lt);
        let r = insert_sorted(t, x, lt);
        assert forall|i: int| 0 <= i < t.len() implies !lt(last, #[trigger] t[i]) by {
            assert(t[i] == s[i]);
            assert(s[s.len() - 1] == last);
        }
        assert(!lt(last, x)) by {
            if lt(last, x) {
                assert(lt(x, x));
            }
        }
        lemma_insert_all(t, x, lt, |y: T| !lt(last, y));
        let out = r.push(last);
        assert forall|i: int, j: int| 0 <= i < j < out.len() implies !lt(#[trigger] out[j], #[trigger] out[i]) by {
            if j < r.len() {
                assert(out[j] == r[j] && out[i] == r[i]);
            } else {
                assert(out[j] == last && out[i] == r[i]);
            }
        }
    } else {
        let out = s.push(x);
        assert forall|i: int, j: int| 0 <= i < j < out.len() implies !lt(#[trigger] out[j], #[trigger] out[i]) by {
            if j < s.len() {
                assert(out[j] == s[j] && out[i] == s[i]);
            } else {
                assert(out[j] == x && out[i] == s[i]);
                if i < s.len() - 1 {
                    assert(!lt(s[s.len() - 1], s[i]));
                    if lt(x, s[i]) {
                        assert(lt(x, s[s.len() - 1]) || lt(s[s.len() - 1], s[i]));
                    }
                }
            }
        }
    }
}

/// A stable sort by a strict weak order is sorted.
pub proof fn lemma_sorted_by_sorted<T>(s: Seq<T>, lt: spec_fn(T, T) -> bool)
    requires
        strict_weak(lt),
    ensures
        is_sorted_by(sorted_by(s, lt), lt),
    decreases s.len(),
{
    if s.len() > 0 {
        lemma_sorted_by_sorted(s.drop_last(), lt);
        lemma_insert_sorted_sorted(sorted_by(s.drop_last(), lt), s.last(), lt);
    }
}

/// Inserting keeps every element: the multiset gains `x`.
pub proof fn lemma_insert_sorted_multiset<T>(s: Seq<T>, x: T, lt: spec_fn(T, T) -> bool)
    ensures
        insert_sorted(s, x, lt).to_multiset() == s.to_multiset().insert(x),
    decreases s.len(),
{
    broadcast use vstd::seq_lib::group_to_multiset_ensures;

    if s.len() == 0 {
        assert(seq![x] =~= Seq::<T>::empty().push(x));
    } else if lt(x, s.last()) {
        lemma_insert_sorted_multiset(s.drop_last(), x, lt);
        assert(s =~= s.drop_last().push(s.last()));
        assert(insert_sorted(s, x, lt).to_multiset() =~= s.to_multiset().insert(x));
    }
}

/// Sorting is a permutation: the same multiset of elements.
pub proof fn lemma_sorted_multiset<T>(s: Seq<T>, lt: spec_fn(T, T) -> bool)
    ensures
        sorted_by(s, lt).to_multiset() == s.to_multiset(),
    decreases s.len(),
{
    broadcast use vstd::seq_lib::group_to_multiset_ensures;

    if s.len() > 0 {
        lemma_sorted_multiset(s.drop_last(), lt);
        lemma_insert_sorted_multiset(sorted_by(s.drop_last(), lt), s.last(), lt);
        assert(s =~= s.drop_last().push(s.last()));
    }
}

/// An element is in the sorted sequence exactly when it is in the input.
pub proof fn lemma_sorted_contains<T>(s: Seq<T>, lt: spec_fn(T, T) -> bool, x: T)
    ensures
        sorted_by(s, lt).contains(x) <==> s.contains(x),
{
    broadcast use vstd::seq_lib::group_to_multiset_ensures;

    lemma_sorted_multiset(s, lt);
    assert(sorted_by(s, lt).to_multiset().count(x) == s.to_multiset().count(x));
}

} // verus!
