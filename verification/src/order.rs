//! Stable insertion order: what a stable `sort_by` yields.
use vstd::prelude::*;

verus! {

/// The first index at or after `k` before whose element `x` belongs.
pub open spec fn pos_from<T>(s: Seq<T>, x: T, before: spec_fn(T, T) -> bool, k: int) -> int
    decreases s.len() - k,
{
    if k < 0 || k >= s.len() {
        s.len() as int
    } else if before(x, s[k]) {
        k
    } else {
        pos_from(s, x, before, k + 1)
    }
}

/// Inserts `x` after every element that it does not strictly precede.
pub open spec fn insert_sorted<T>(s: Seq<T>, x: T, before: spec_fn(T, T) -> bool) -> Seq<T> {
    s.insert(pos_from(s, x, before, 0), x)
}

/// The stable sort of `s` by the strict order `before`: equal elements keep
/// their order of input. This is what `slice::sort_by` returns.
pub open spec fn stable_sort<T>(s: Seq<T>, before: spec_fn(T, T) -> bool) -> Seq<T>
    decreases s.len(),
{
    if s.len() == 0 {
        seq![]
    } else {
        insert_sorted(stable_sort(s.drop_last(), before), s.last(), before)
    }
}

pub proof fn lemma_pos_from_bounds<T>(s: Seq<T>, x: T, before: spec_fn(T, T) -> bool, k: int)
    requires
        0 <= k <= s.len(),
    ensures
        k <= pos_from(s, x, before, k) <= s.len(),
        forall|j: int| k <= j < pos_from(s, x, before, k) ==> !before(x, #[trigger] s[j]),
        pos_from(s, x, before, k) < s.len() ==> before(x, s[pos_from(s, x, before, k)]),
    decreases s.len() - k,
{
    if k < s.len() && !before(x, s[k]) {
        lemma_pos_from_bounds(s, x, before, k + 1);
    }
}

pub proof fn lemma_stable_sort_len<T>(s: Seq<T>, before: spec_fn(T, T) -> bool)
    ensures
        stable_sort(s, before).len() == s.len(),
    decreases s.len(),
{
    if s.len() > 0 {
        lemma_stable_sort_len(s.drop_last(), before);
        lemma_pos_from_bounds(stable_sort(s.drop_last(), before), s.last(), before, 0);
    }
}

/// A step of an insertion sort: `prefix` sorted, one more input element.
pub proof fn lemma_stable_sort_step<T>(s: Seq<T>, before: spec_fn(T, T) -> bool, i: int)
    requires
        0 <= i < s.len(),
    ensures
        stable_sort(s.take(i + 1), before) == insert_sorted(stable_sort(s.take(i), before), s[i], before),
{
    assert(s.take(i + 1).drop_last() == s.take(i));
    assert(s.take(i + 1).last() == s[i]);
}

/// The elements of a stable sort are the elements of its input.
pub proof fn lemma_stable_sort_perm<T>(s: Seq<T>, before: spec_fn(T, T) -> bool)
    ensures
        stable_sort(s, before).to_multiset() == s.to_multiset(),
    decreases s.len(),
{
    broadcast use vstd::multiset::group_multiset_axioms;
    broadcast use vstd::seq_lib::group_to_multiset_ensures;
    if s.len() > 0 {
        let t = stable_sort(s.drop_last(), before);
        lemma_stable_sort_perm(s.drop_last(), before);
        lemma_pos_from_bounds(t, s.last(), before, 0);
        let p = pos_from(t, s.last(), before, 0);
        let u = t.insert(p, s.last());
        assert(u.remove(p) =~= t);
        assert(u[p] == s.last());
        assert(u.remove(p).to_multiset() =~= u.to_multiset().remove(s.last()));
        assert(u.contains(s.last()));
        assert(u.to_multiset().count(s.last()) > 0);
        assert(u.to_multiset() =~= t.to_multiset().insert(s.last()));
        assert(s.drop_last().push(s.last()) == s);
        assert(s.to_multiset() =~= s.drop_last().to_multiset().insert(s.last()));
    }
}

/// The result of a stable sort is in order: no element strictly precedes
/// an element that comes before it, when `before` is a strict weak order.
pub proof fn lemma_stable_sort_sorted<T>(s: Seq<T>, before: spec_fn(T, T) -> bool)
    requires
        forall|a: T, b: T, c: T| #[trigger] before(a, b) && #[trigger] before(b, c) ==> before(a, c),
        forall|a: T, b: T| #[trigger] before(a, b) ==> !before(b, a),
        forall|a: T, b: T, c: T|
            #![trigger before(a, b), before(a, c)]
            #![trigger before(a, b), before(c, b)]
            before(a, b) ==> before(a, c) || before(c, b),
    ensures
        forall|i: int, j: int|
            0 <= i < j < stable_sort(s, before).len() ==> !before(
                #[trigger] stable_sort(s, before)[j],
                #[trigger] stable_sort(s, before)[i],
            ),
    decreases s.len(),
{
    if s.len() > 0 {
        let t = stable_sort(s.drop_last(), before);
        lemma_stable_sort_sorted(s.drop_last(), before);
        let x = s.last();
        lemma_pos_from_bounds(t, x, before, 0);
        let p = pos_from(t, x, before, 0);
        let u = t.insert(p, x);
        assert forall|i: int, j: int| 0 <= i < j < u.len() implies !before(#[trigger] u[j], #[trigger] u[i]) by {
            if j < p {
                assert(u[i] == t[i] && u[j] == t[j]);
            } else if j == p {
                assert(u[i] == t[i] && u[j] == x);
                assert(!before(x, t[i]));
            } else if i == p {
                assert(u[j] == t[j - 1] && u[i] == x);
                if before(t[j - 1], x) {
                    if p < t.len() {
                        assert(before(x, t[p]));
                        if p < j - 1 {
                            assert(!before(t[j - 1], t[p]));
                        }
                        assert(before(t[j - 1], t[p]) || p == j - 1);
                    }
                }
            } else if i < p {
                assert(u[i] == t[i] && u[j] == t[j - 1]);
            } else {
                assert(u[i] == t[i - 1] && u[j] == t[j - 1]);
            }
        }
    }
}


proof fn lemma_pos_from_map<A, B>(
    t: Seq<A>,
    x: A,
    f: spec_fn(A) -> B,
    before: spec_fn(B, B) -> bool,
    before_a: spec_fn(A, A) -> bool,
    k: int,
)
    requires
        0 <= k <= t.len(),
        forall|a: A, b: A| #[trigger] before_a(a, b) == before(f(a), f(b)),
    ensures
        pos_from(t, x, before_a, k) == pos_from(t.map_values(f), f(x), before, k),
    decreases t.len() - k,
{
    if k < t.len() {
        assert(t.map_values(f)[k] == f(t[k]));
        assert(before_a(x, t[k]) == before(f(x), f(t[k])));
        lemma_pos_from_map(t, x, f, before, before_a, k + 1);
    }
}

/// Sorting and then mapping is mapping and then sorting by the pulled-back
/// order.
pub proof fn lemma_stable_sort_map<A, B>(
    s: Seq<A>,
    f: spec_fn(A) -> B,
    before: spec_fn(B, B) -> bool,
    before_a: spec_fn(A, A) -> bool,
)
    requires
        forall|a: A, b: A| #[trigger] before_a(a, b) == before(f(a), f(b)),
    ensures
        stable_sort(s, before_a).map_values(f) == stable_sort(s.map_values(f), before),
    decreases s.len(),
{
    if s.len() > 0 {
        lemma_stable_sort_map(s.drop_last(), f, before, before_a);
        assert(s.map_values(f).drop_last() == s.drop_last().map_values(f));
        assert(s.map_values(f).last() == f(s.last()));
        let t = stable_sort(s.drop_last(), before_a);
        lemma_pos_from_bounds(t, s.last(), before_a, 0);
        lemma_pos_from_map(t, s.last(), f, before, before_a, 0);
        let p = pos_from(t, s.last(), before_a, 0);
        assert(t.insert(p, s.last()).map_values(f) =~= t.map_values(f).insert(p, f(s.last())));
    }
}

} // verus!
