//! Rearrangements of a sequence by an invertible index map.
use vstd::prelude::*;

verus! {

broadcast use vstd::seq_lib::group_to_multiset_ensures;

/// `p` and `q` are mutually inverse maps of `[0, n)` onto itself.
pub open spec fn inverse_maps(n: int, p: spec_fn(int) -> int, q: spec_fn(int) -> int) -> bool {
    &&& forall|k: int| 0 <= k < n ==> 0 <= #[trigger] p(k) < n && q(p(k)) == k
    &&& forall|m: int| 0 <= m < n ==> 0 <= #[trigger] q(m) < n && p(q(m)) == m
}

/// `b` is `a` read through the index map `p`: `b[k] == a[p(k)]`.
pub open spec fn rearranged<T>(a: Seq<T>, b: Seq<T>, p: spec_fn(int) -> int) -> bool {
    &&& a.len() == b.len()
    &&& forall|k: int| 0 <= k < b.len() ==> #[trigger] b[k] == a[p(k)]
}

/// The total of `weight` over the values of `s`.
pub open spec fn total<T>(s: Seq<T>, weight: spec_fn(T) -> int) -> int
    decreases s.len(),
{
    if s.len() == 0 {
        0
    } else {
        total(s.drop_last(), weight) + weight(s.last())
    }
}

/// The total over two sequences end to end is the sum of their totals.
pub proof fn lemma_total_concat<T>(s: Seq<T>, t: Seq<T>, weight: spec_fn(T) -> int)
    ensures
        total(s + t, weight) == total(s, weight) + total(t, weight),
    decreases t.len(),
{
    if t.len() == 0 {
        assert(s + t =~= s);
    } else {
        lemma_total_concat(s, t.drop_last(), weight);
        assert((s + t).drop_last() =~= s + t.drop_last());
    }
}

/// Taking one value out of a sequence takes its weight out of the total.
pub proof fn lemma_total_remove<T>(s: Seq<T>, j: int, weight: spec_fn(T) -> int)
    requires
        0 <= j < s.len(),
    ensures
        total(s, weight) == total(s.remove(j), weight) + weight(s[j]),
{
    let front = s.take(j);
    let back = s.skip(j + 1);
    assert(s =~= front + seq![s[j]] + back);
    assert(s.remove(j) =~= front + back);
    lemma_total_concat(front + seq![s[j]], back, weight);
    lemma_total_concat(front, seq![s[j]], weight);
    lemma_total_concat(front, back, weight);
    assert(seq![s[j]].drop_last() =~= Seq::<T>::empty());
    assert(total(Seq::<T>::empty(), weight) == 0);
    assert(total(seq![s[j]], weight) == weight(s[j]));
}

/// Reading a sequence through an invertible index map keeps the multiset
/// of its values, and so the total of any weight over them: nothing is lost
/// and nothing is duplicated.
pub proof fn lemma_rearrangement_keeps_values<T>(
    a: Seq<T>,
    b: Seq<T>,
    p: spec_fn(int) -> int,
    q: spec_fn(int) -> int,
    weight: spec_fn(T) -> int,
)
    requires
        rearranged(a, b, p),
        inverse_maps(a.len() as int, p, q),
    ensures
        b.to_multiset() =~= a.to_multiset(),
        total(b, weight) == total(a, weight),
    decreases b.len(),
{
    let n = b.len() as int;
    if n == 0 {
        assert(a =~= Seq::<T>::empty());
        assert(b =~= Seq::<T>::empty());
    } else {
        // Take out the last value of `b` and its source in `a`; what remains
        // is again a rearrangement, through the maps with that slot closed up.
        let j = p(n - 1);
        let a2 = a.remove(j);
        let b2 = b.drop_last();
        let p2 = |k: int| if p(k) < j { p(k) } else { p(k) - 1 };
        let q2 = |m: int| if m < j { q(m) } else { q(m + 1) };
        assert forall|k: int| 0 <= k < n - 1 implies 0 <= #[trigger] p2(k) < n - 1 && q2(p2(k)) == k by {
            assert(q(p(k)) == k);
            assert(p(k) != j);
        }
        assert forall|m: int| 0 <= m < n - 1 implies 0 <= #[trigger] q2(m) < n - 1 && p2(q2(m)) == m by {
            let m2 = if m < j { m } else { m + 1 };
            assert(p(q(m2)) == m2);
            assert(q(m2) != n - 1);
        }
        assert forall|k: int| 0 <= k < b2.len() implies #[trigger] b2[k] == a2[p2(k)] by {
            assert(b[k] == a[p(k)]);
            assert(q(p(k)) == k);
        }
        lemma_rearrangement_keeps_values(a2, b2, p2, q2, weight);
        assert(b =~= b2.push(b[n - 1]));
        assert(b[n - 1] == a[j]);
        assert(a2.to_multiset() == a.to_multiset().remove(a[j]));
        lemma_total_remove(a, j, weight);
    }
}

/// The weight of each value of `s`, where the weight may also depend on
/// the value's index.
pub open spec fn weighted<T>(s: Seq<T>, weight: spec_fn(int, T) -> int) -> Seq<int> {
    Seq::new(s.len(), |k: int| weight(k, s[k]))
}

/// The total of an index-dependent `weight` over the values of `s`.
pub open spec fn indexed_total<T>(s: Seq<T>, weight: spec_fn(int, T) -> int) -> int {
    total(weighted(s, weight), |v: int| v)
}

/// A weight that does not look at the index gives the plain total.
pub proof fn lemma_indexed_total_plain<T>(s: Seq<T>, weight: spec_fn(T) -> int)
    ensures
        indexed_total(s, |k: int, v: T| weight(v)) == total(s, weight),
    decreases s.len(),
{
    let iw = |k: int, v: T| weight(v);
    if s.len() > 0 {
        lemma_indexed_total_plain(s.drop_last(), weight);
        assert(weighted(s, iw).drop_last() =~= weighted(s.drop_last(), iw));
    } else {
        assert(weighted(s, iw) =~= Seq::<int>::empty());
    }
}

} // verus!
