//! Facts about sequences: concatenating what each element gives, filtering,
//! and sorting.

use vstd::prelude::*;

verus! {

/// What `f` gives for each element of `s`, one after the other.
pub open spec fn flat<A, B>(s: Seq<A>, f: spec_fn(A) -> Seq<B>) -> Seq<B>
    decreases s.len(),
{
    if s.len() == 0 {
        Seq::empty()
    } else {
        flat(s.drop_last(), f) + f(s.last())
    }
}

/// Whether `le` relates each element to every later one.
pub open spec fn is_sorted<A>(s: Seq<A>, le: spec_fn(A, A) -> bool) -> bool {
    forall|i: int, j: int| 0 <= i < j < s.len() ==> le(#[trigger] s[i], #[trigger] s[j])
}

/// Whether `le` is transitive and compares any two elements.
pub open spec fn is_total_preorder<A>(le: spec_fn(A, A) -> bool) -> bool {
    &&& forall|a: A, b: A| #[trigger] le(a, b) || le(b, a)
    &&& forall|a: A, b: A, c: A| #[trigger] le(a, b) && #[trigger] le(b, c) ==> le(a, c)
}

/// Whether the sequences hold the same elements, each as often.
pub open spec fn is_permutation<A>(s: Seq<A>, t: Seq<A>) -> bool {
    s.to_multiset() == t.to_multiset()
}

pub(crate) proof fn lemma_flat_add<A, B>(s: Seq<A>, t: Seq<A>, f: spec_fn(A) -> Seq<B>)
    ensures
        flat(s + t, f) == flat(s, f) + flat(t, f),
    decreases t.len(),
{
    if t.len() == 0 {
        assert(s + t =~= s);
        assert(flat(s, f) + flat(t, f) =~= flat(s, f));
    } else {
        lemma_flat_add(s, t.drop_last(), f);
        assert((s + t).drop_last() =~= s + t.drop_last());
        assert(flat(s + t, f) =~= flat(s, f) + flat(t, f));
    }
}

pub(crate) proof fn lemma_flat_same<A, B>(s: Seq<A>, f: spec_fn(A) -> Seq<B>, g: spec_fn(A) -> Seq<B>)
    requires
        forall|i: int| 0 <= i < s.len() ==> f(#[trigger] s[i]) == g(s[i]),
    ensures
        flat(s, f) == flat(s, g),
    decreases s.len(),
{
    if s.len() > 0 {
        assert forall|i: int| 0 <= i < s.drop_last().len() implies f(#[trigger] s.drop_last()[i])
            == g(s.drop_last()[i]) by {
            assert(s.drop_last()[i] == s[i]);
        }
        lemma_flat_same(s.drop_last(), f, g);
        assert(f(s[s.len() - 1]) == g(s[s.len() - 1]));
    }
}

pub(crate) proof fn lemma_flat_flat<A, B, C>(
    s: Seq<A>,
    f: spec_fn(A) -> Seq<B>,
    g: spec_fn(B) -> Seq<C>,
)
    ensures
        flat(flat(s, f), g) == flat(s, |a: A| flat(f(a), g)),
    decreases s.len(),
{
    if s.len() > 0 {
        lemma_flat_flat(s.drop_last(), f, g);
        lemma_flat_add(flat(s.drop_last(), f), f(s.last()), g);
    }
}

/// Each element of `flat(s, f)` is one that `f` gives for an element of `s`.
pub(crate) proof fn lemma_flat_source<A, B>(s: Seq<A>, f: spec_fn(A) -> Seq<B>, k: int)
    requires
        0 <= k < flat(s, f).len(),
    ensures
        exists|i: int, j: int|
            0 <= i < s.len() && 0 <= j < f(s[i]).len() && #[trigger] f(s[i])[j] == flat(s, f)[k],
    decreases s.len(),
{
    let init = s.drop_last();
    let head = flat(init, f);
    if k < head.len() {
        lemma_flat_source(init, f, k);
        let (i, j) = choose|i: int, j: int|
            0 <= i < init.len() && 0 <= j < f(init[i]).len() && #[trigger] f(init[i])[j] == head[k];
        assert(init[i] == s[i]);
        assert(f(s[i])[j] == flat(s, f)[k]);
    } else {
        assert(f(s[s.len() - 1])[k - head.len()] == flat(s, f)[k]);
    }
}

/// Each element that `f` gives for an element of `s` is in `flat(s, f)`.
pub(crate) proof fn lemma_flat_target<A, B>(s: Seq<A>, f: spec_fn(A) -> Seq<B>, i: int, j: int)
    requires
        0 <= i < s.len(),
        0 <= j < f(s[i]).len(),
    ensures
        exists|k: int| 0 <= k < flat(s, f).len() && #[trigger] flat(s, f)[k] == f(s[i])[j],
    decreases s.len(),
{
    let init = s.drop_last();
    let head = flat(init, f);
    if i < init.len() {
        assert(init[i] == s[i]);
        lemma_flat_target(init, f, i, j);
        let k = choose|k: int| 0 <= k < head.len() && #[trigger] head[k] == f(init[i])[j];
        assert(flat(s, f)[k] == f(s[i])[j]);
    } else {
        assert(flat(s, f)[head.len() + j] == f(s[i])[j]);
    }
}

/// Where `p` holds of all that `f` gives for an element or of none of it, as
/// `pick` says, filtering the result is filtering the elements.
pub(crate) proof fn lemma_flat_filter<A, B>(
    s: Seq<A>,
    f: spec_fn(A) -> Seq<B>,
    p: spec_fn(B) -> bool,
    pick: spec_fn(A) -> bool,
)
    requires
        forall|i: int, j: int|
            0 <= i < s.len() && 0 <= j < f(s[i]).len() ==> p(#[trigger] f(s[i])[j]) == pick(s[i]),
    ensures
        flat(s, f).filter(p) == flat(s.filter(pick), f),
    decreases s.len(),
{
    reveal(Seq::filter);
    if s.len() > 0 {
        let init = s.drop_last();
        let last = s.last();
        assert forall|i: int, j: int| 0 <= i < init.len() && 0 <= j < f(init[i]).len() implies p(
            #[trigger] f(init[i])[j],
        ) == pick(init[i]) by {
            assert(init[i] == s[i]);
            assert(p(f(s[i])[j]) == pick(s[i]));
        }
        lemma_flat_filter(init, f, p, pick);
        Seq::filter_distributes_over_add(flat(init, f), f(last), p);
        assert forall|j: int| 0 <= j < f(last).len() implies p(#[trigger] f(last)[j]) == pick(
            last,
        ) by {
            assert(f(s[s.len() - 1])[j] == f(last)[j]);
        }
        if pick(last) {
            lemma_filter_all(f(last), p);
            assert(s.filter(pick) == init.filter(pick).push(last));
            assert(init.filter(pick).push(last).drop_last() =~= init.filter(pick));
        } else {
            lemma_filter_none(f(last), p);
            assert(flat(init, f).filter(p) + Seq::empty() =~= flat(init, f).filter(p));
        }
    }
}

pub(crate) proof fn lemma_filter_all<A>(s: Seq<A>, p: spec_fn(A) -> bool)
    requires
        forall|i: int| 0 <= i < s.len() ==> p(#[trigger] s[i]),
    ensures
        s.filter(p) == s,
    decreases s.len(),
{
    reveal(Seq::filter);
    if s.len() > 0 {
        let init = s.drop_last();
        assert forall|i: int| 0 <= i < init.len() implies p(#[trigger] init[i]) by {
            assert(init[i] == s[i]);
        }
        lemma_filter_all(init, p);
        assert(p(s[s.len() - 1]));
        assert(init.push(s.last()) =~= s);
    }
}

pub(crate) proof fn lemma_filter_none<A>(s: Seq<A>, p: spec_fn(A) -> bool)
    requires
        forall|i: int| 0 <= i < s.len() ==> !p(#[trigger] s[i]),
    ensures
        s.filter(p) == Seq::<A>::empty(),
    decreases s.len(),
{
    reveal(Seq::filter);
    if s.len() > 0 {
        let init = s.drop_last();
        assert forall|i: int| 0 <= i < init.len() implies !p(#[trigger] init[i]) by {
            assert(init[i] == s[i]);
        }
        lemma_filter_none(init, p);
        assert(!p(s[s.len() - 1]));
    }
}

/// Each element that a filter leaves is one of the original that it picks.
pub(crate) proof fn lemma_filter_source<A>(s: Seq<A>, p: spec_fn(A) -> bool, i: int)
    requires
        0 <= i < s.filter(p).len(),
    ensures
        exists|k: int| 0 <= k < s.len() && p(#[trigger] s[k]) && s[k] == s.filter(p)[i],
    decreases s.len(),
{
    reveal(Seq::filter);
    let init = s.drop_last();
    if i < init.filter(p).len() {
        lemma_filter_source(init, p, i);
        let k = choose|k: int|
            0 <= k < init.len() && p(#[trigger] init[k]) && init[k] == init.filter(p)[i];
        assert(p(s[k]) && s[k] == s.filter(p)[i]);
    } else {
        assert(p(s[s.len() - 1]));
    }
}

/// Filters that agree on the elements give the same.
pub(crate) proof fn lemma_filter_same<A>(s: Seq<A>, p: spec_fn(A) -> bool, q: spec_fn(A) -> bool)
    requires
        forall|i: int| 0 <= i < s.len() ==> p(#[trigger] s[i]) == q(s[i]),
    ensures
        s.filter(p) == s.filter(q),
    decreases s.len(),
{
    reveal(Seq::filter);
    if s.len() > 0 {
        let init = s.drop_last();
        assert forall|i: int| 0 <= i < init.len() implies p(#[trigger] init[i]) == q(init[i]) by {
            assert(init[i] == s[i]);
        }
        lemma_filter_same(init, p, q);
        assert(p(s[s.len() - 1]) == q(s[s.len() - 1]));
    }
}

/// A narrower filter keeps no more, and if it keeps as much, it keeps the
/// same.
pub(crate) proof fn lemma_filter_narrower<A>(s: Seq<A>, wide: spec_fn(A) -> bool, narrow: spec_fn(A) -> bool)
    requires
        forall|i: int| 0 <= i < s.len() && narrow(s[i]) ==> wide(#[trigger] s[i]),
    ensures
        s.filter(narrow).len() <= s.filter(wide).len(),
        s.filter(narrow).len() == s.filter(wide).len() ==> forall|i: int|
            0 <= i < s.len() ==> narrow(#[trigger] s[i]) == wide(s[i]),
    decreases s.len(),
{
    reveal(Seq::filter);
    if s.len() > 0 {
        let init = s.drop_last();
        assert forall|i: int| 0 <= i < init.len() && narrow(init[i]) implies wide(
            #[trigger] init[i],
        ) by {
            assert(init[i] == s[i]);
        }
        lemma_filter_narrower(init, wide, narrow);
        assert(narrow(s[s.len() - 1]) ==> wide(s[s.len() - 1]));
        if s.filter(narrow).len() == s.filter(wide).len() {
            assert forall|i: int| 0 <= i < s.len() implies narrow(#[trigger] s[i]) == wide(
                s[i],
            ) by {
                if i < init.len() {
                    assert(init[i] == s[i]);
                }
            }
        }
    }
}

/// Filtering twice is filtering by both.
pub(crate) proof fn lemma_filter_filter<A>(s: Seq<A>, p: spec_fn(A) -> bool, q: spec_fn(A) -> bool)
    ensures
        s.filter(p).filter(q) == s.filter(|a: A| p(a) && q(a)),
    decreases s.len(),
{
    reveal(Seq::filter);
    if s.len() > 0 {
        let init = s.drop_last();
        lemma_filter_filter(init, p, q);
        if p(s.last()) {
            assert(init.filter(p).push(s.last()).drop_last() =~= init.filter(p));
        }
    }
}

/// If each element gives something, the result is at least as long.
pub(crate) proof fn lemma_flat_len<A, B>(s: Seq<A>, f: spec_fn(A) -> Seq<B>)
    requires
        forall|i: int| 0 <= i < s.len() ==> f(#[trigger] s[i]).len() >= 1,
    ensures
        flat(s, f).len() >= s.len(),
    decreases s.len(),
{
    if s.len() > 0 {
        let init = s.drop_last();
        assert forall|i: int| 0 <= i < init.len() implies f(#[trigger] init[i]).len() >= 1 by {
            assert(init[i] == s[i]);
        }
        lemma_flat_len(init, f);
        assert(f(s[s.len() - 1]).len() >= 1);
    }
}

pub(crate) proof fn lemma_multiset_add<A>(s: Seq<A>, t: Seq<A>)
    ensures
        (s + t).to_multiset() == s.to_multiset().add(t.to_multiset()),
{
    vstd::seq_lib::lemma_multiset_commutative(s, t);
}

/// A filter and its complement keep everything between them.
pub(crate) proof fn lemma_filter_split<A>(s: Seq<A>, p: spec_fn(A) -> bool)
    ensures
        is_permutation(s, s.filter(p) + s.filter(|a: A| !p(a))),
    decreases s.len(),
{
    reveal(Seq::filter);
    let np = |a: A| !p(a);
    if s.len() > 0 {
        let init = s.drop_last();
        lemma_filter_split(init, p);
        lemma_multiset_add(init.filter(p), init.filter(np));
        lemma_multiset_add(s.filter(p), s.filter(np));
        lemma_multiset_push(init, s.last());
        assert(init.push(s.last()) =~= s);
        lemma_multiset_push(init.filter(p), s.last());
        lemma_multiset_push(init.filter(np), s.last());
        assert(s.to_multiset() =~= s.filter(p).to_multiset().add(s.filter(np).to_multiset()));
    } else {
        assert(s.filter(p) + s.filter(np) =~= s);
    }
}

pub(crate) proof fn lemma_multiset_push<A>(s: Seq<A>, a: A)
    ensures
        s.push(a).to_multiset() == s.to_multiset().insert(a),
{
    broadcast use vstd::seq_lib::group_to_multiset_ensures;

}

/// Filtering commutes with forgetting the order.
pub(crate) proof fn lemma_multiset_filter<A>(s: Seq<A>, p: spec_fn(A) -> bool)
    ensures
        s.filter(p).to_multiset() == s.to_multiset().filter(p),
    decreases s.len(),
{
    broadcast use vstd::seq_lib::group_to_multiset_ensures;
    broadcast use vstd::multiset::group_multiset_axioms;

    reveal(Seq::filter);
    if s.len() > 0 {
        let init = s.drop_last();
        lemma_multiset_filter(init, p);
        lemma_multiset_push(init, s.last());
        assert(init.push(s.last()) =~= s);
        lemma_multiset_push(init.filter(p), s.last());
        assert(s.filter(p).to_multiset() =~= s.to_multiset().filter(p));
    } else {
        assert(s.filter(p).to_multiset() =~= s.to_multiset().filter(p));
    }
}

/// Filtering a permutation gives a permutation of what was filtered.
pub(crate) proof fn lemma_permutation_filter<A>(s: Seq<A>, t: Seq<A>, p: spec_fn(A) -> bool)
    requires
        is_permutation(s, t),
    ensures
        is_permutation(s.filter(p), t.filter(p)),
        s.filter(p).len() == t.filter(p).len(),
{
    lemma_multiset_filter(s, p);
    lemma_multiset_filter(t, p);
    lemma_permutation_len(s.filter(p), t.filter(p));
}

pub(crate) proof fn lemma_permutation_len<A>(s: Seq<A>, t: Seq<A>)
    requires
        is_permutation(s, t),
    ensures
        s.len() == t.len(),
{
    broadcast use vstd::seq_lib::group_to_multiset_ensures;

    assert(s.to_multiset().len() == s.len());
    assert(t.to_multiset().len() == t.len());
}

/// Each element of a permutation is one of the original.
pub(crate) proof fn lemma_permutation_source<A>(s: Seq<A>, t: Seq<A>, i: int)
    requires
        is_permutation(s, t),
        0 <= i < s.len(),
    ensures
        t.contains(s[i]),
{
    broadcast use vstd::seq_lib::group_to_multiset_ensures;

    assert(s.contains(s[i]));
    assert(s.to_multiset().count(s[i]) > 0);
    assert(t.to_multiset().count(s[i]) > 0);
}

/// Where `p` holds of everything before an element of which it holds, a
/// filter by `p` takes a prefix.
pub(crate) proof fn lemma_filter_prefix<A>(s: Seq<A>, p: spec_fn(A) -> bool)
    requires
        forall|i: int, j: int|
            0 <= i < j < s.len() && p(#[trigger] s[j]) ==> p(#[trigger] s[i]),
    ensures
        s.filter(p).len() <= s.len(),
        s.filter(p) == s.take(s.filter(p).len() as int),
        forall|i: int| 0 <= i < s.filter(p).len() ==> p(#[trigger] s[i]),
        forall|i: int| s.filter(p).len() <= i < s.len() ==> !p(#[trigger] s[i]),
    decreases s.len(),
{
    reveal(Seq::filter);
    if s.len() > 0 {
        let init = s.drop_last();
        assert forall|i: int, j: int| 0 <= i < j < init.len() && p(#[trigger] init[j]) implies p(
            #[trigger] init[i],
        ) by {
            assert(init[i] == s[i] && init[j] == s[j]);
        }
        lemma_filter_prefix(init, p);
        let kept = init.filter(p).len() as int;
        assert forall|i: int| 0 <= i < kept implies p(#[trigger] s[i]) by {
            assert(init[i] == s[i]);
        }
        assert forall|i: int| kept <= i < init.len() implies !p(#[trigger] s[i]) by {
            assert(init[i] == s[i]);
        }
        if p(s.last()) {
            if kept < init.len() {
                assert(p(s[s.len() - 1]) ==> p(s[kept]));
            }
            lemma_filter_all(s, p);
            assert(s.take(s.len() as int) =~= s);
        } else {
            assert(s.take(kept) =~= init.take(kept));
        }
    } else {
        assert(s.take(0) =~= s.filter(p));
    }
}

/// A total preorder can sort anything.
pub(crate) proof fn lemma_sort<A>(s: Seq<A>, le: spec_fn(A, A) -> bool) -> (sorted: Seq<A>)
    requires
        is_total_preorder(le),
    ensures
        is_sorted(sorted, le),
        is_permutation(sorted, s),
    decreases s.len(),
{
    if s.len() == 0 {
        s
    } else {
        let e = s.last();
        let t = lemma_sort(s.drop_last(), le);
        let before = |x: A| le(x, e);
        assert forall|i: int, j: int| 0 <= i < j < t.len() && before(#[trigger] t[j]) implies before(
            #[trigger] t[i],
        ) by {
            assert(le(t[i], t[j]));
            assert(le(t[j], e));
        }
        lemma_filter_prefix(t, before);
        let k = t.filter(before).len() as int;
        let sorted = t.take(k).push(e) + t.skip(k);
        assert forall|i: int, j: int| 0 <= i < j < sorted.len() implies le(
            #[trigger] sorted[i],
            #[trigger] sorted[j],
        ) by {
            if j < k {
                assert(le(t[i], t[j]));
            } else if j == k {
                assert(before(t[i]));
            } else {
                let u = t[j - 1];
                assert(!before(u));
                assert(le(u, e) || le(e, u));
                if i < k {
                    assert(le(t[i], u));
                } else if i > k {
                    assert(le(t[i - 1], u));
                }
            }
        }
        lemma_multiset_add(t.take(k).push(e), t.skip(k));
        lemma_multiset_push(t.take(k), e);
        lemma_multiset_add(t.take(k), t.skip(k));
        assert(t.take(k) + t.skip(k) =~= t);
        lemma_multiset_push(s.drop_last(), e);
        assert(s.drop_last().push(e) =~= s);
        assert(sorted.to_multiset() =~= t.to_multiset().insert(e));
        sorted
    }
}

} // verus!
