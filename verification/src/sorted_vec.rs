//! Sorted vectors of samples, and the theory needed to talk about them:
//! a sortedness predicate, ordered insertion that preserves the multiset of
//! elements, and the fact that a multiset has exactly one sorted arrangement.

use vstd::multiset::Multiset;
use vstd::prelude::*;
use vstd::seq_lib::group_to_multiset_ensures;

verus! {

/// A sequence is sorted in non-decreasing order.
pub open spec fn sorted(s: Seq<i32>) -> bool {
    forall|i: int, j: int| 0 <= i < j < s.len() ==> s[i] <= s[j]
}

/// The sorted arrangement of a multiset of samples.  By
/// [`lemma_sorted_unique`] there is at most one such arrangement, so whenever
/// some sorted sequence carries the multiset `m`, `sort_of(m)` is that
/// sequence ([`lemma_sort_of_eq`]).
pub open spec fn sort_of(m: Multiset<i32>) -> Seq<i32> {
    choose|s: Seq<i32>| sorted(s) && s.to_multiset() == m
}

/// A value that occurs at two distinct positions of a sequence occurs at
/// least twice in the sequence's multiset.
pub proof fn lemma_dup_count(s: Seq<i32>, i: int, j: int)
    requires
        0 <= i < j < s.len(),
        s[i] == s[j],
    ensures
        s.to_multiset().count(s[i]) >= 2,
{
    broadcast use group_to_multiset_ensures;
    broadcast use vstd::multiset::group_multiset_axioms;

    let t = s.remove(j);
    s.remove_ensures(j);
    assert(t[i] == s[i]);
    assert(t.contains(s[i]));
    assert(t.to_multiset() == s.to_multiset().remove(s[j]));
    assert(t.to_multiset().count(s[i]) > 0);
}

/// Two sorted sequences that carry the same multiset are the same sequence.
pub proof fn lemma_sorted_unique(a: Seq<i32>, b: Seq<i32>)
    requires
        sorted(a),
        sorted(b),
        a.to_multiset() == b.to_multiset(),
    ensures
        a == b,
    decreases a.len(),
{
    broadcast use group_to_multiset_ensures;
    broadcast use vstd::multiset::group_multiset_axioms;

    assert(a.to_multiset().len() == a.len());
    assert(b.to_multiset().len() == b.len());
    if a.len() == 0 {
        assert(a =~= b);
    } else {
        assert(b.len() == a.len());
        assert(a.contains(a[0]));
        assert(b.to_multiset().count(a[0]) > 0);
        assert(b.contains(a[0]));
        let ka = choose|k: int| 0 <= k < b.len() && b[k] == a[0];
        assert(b[0] <= a[0]);
        assert(b.contains(b[0]));
        assert(a.to_multiset().count(b[0]) > 0);
        assert(a.contains(b[0]));
        let kb = choose|k: int| 0 <= k < a.len() && a[k] == b[0];
        assert(a[0] <= b[0]);
        assert(a[0] == b[0]);

        let ta = a.drop_first();
        let tb = b.drop_first();
        assert(ta =~= a.remove(0));
        assert(tb =~= b.remove(0));
        a.remove_ensures(0);
        b.remove_ensures(0);
        assert(ta.to_multiset() == a.to_multiset().remove(a[0]));
        assert(tb.to_multiset() == b.to_multiset().remove(b[0]));
        assert(ta.to_multiset() == tb.to_multiset());
        assert(sorted(ta)) by {
            assert(forall|i: int, j: int|
                0 <= i < j < ta.len() ==> ta[i] == a[i + 1] && ta[j] == a[j + 1]);
        }
        assert(sorted(tb)) by {
            assert(forall|i: int, j: int|
                0 <= i < j < tb.len() ==> tb[i] == b[i + 1] && tb[j] == b[j + 1]);
        }
        lemma_sorted_unique(ta, tb);
        assert(a =~= b) by {
            assert(forall|i: int| 1 <= i < a.len() ==> a[i] == ta[i - 1] && b[i] == tb[i - 1]);
        }
    }
}

/// Whenever a sorted sequence carries the multiset `m`, it is `sort_of(m)`.
pub proof fn lemma_sort_of_eq(s: Seq<i32>)
    requires
        sorted(s),
    ensures
        sort_of(s.to_multiset()) == s,
{
    let m = s.to_multiset();
    assert(exists|t: Seq<i32>| sorted(t) && t.to_multiset() == m) by {
        assert(sorted(s) && s.to_multiset() == m);
    }
    let t = sort_of(m);
    assert(sorted(t) && t.to_multiset() == m);
    lemma_sorted_unique(t, s);
}

/// Inserts `x` into the sorted vector `v` at its ordered position, keeping
/// the vector sorted and adding exactly one occurrence of `x` to the
/// multiset of elements.
pub fn insert_sorted(v: &mut Vec<i32>, x: i32)
    requires
        sorted(old(v)@),
    ensures
        sorted(final(v)@),
        final(v)@.len() == old(v)@.len() + 1,
        final(v)@.to_multiset() == old(v)@.to_multiset().insert(x),
        forall|k: int|
            0 <= k < final(v)@.len() ==> final(v)@[k] == x || old(v)@.contains(final(v)@[k]),
{
    let ghost v0 = v@;
    let mut i: usize = 0;
    while i < v.len() && v[i] <= x
        invariant
            i <= v@.len(),
            v@ == v0,
            sorted(v0),
            forall|k: int| 0 <= k < i ==> v0[k] <= x,
        decreases v@.len() - i,
    {
        i += 1;
    }
    assert(i == v0.len() || v0[i as int] > x);
    v.insert(i, x);
    proof {
        broadcast use group_to_multiset_ensures;
        broadcast use vstd::multiset::group_multiset_axioms;

        let w = v@;
        v0.insert_ensures(i as int, x);
        assert(w == v0.insert(i as int, x));
        assert(sorted(w)) by {
            assert forall|p: int, q: int| 0 <= p < q < w.len() implies w[p] <= w[q] by {
                if q < i {
                    assert(w[p] == v0[p] && w[q] == v0[q]);
                } else if p > i {
                    assert(w[p] == v0[p - 1] && w[q] == v0[q - 1]);
                } else if p < i && q == i {
                    assert(w[p] == v0[p] && w[q] == x);
                } else if p == i {
                    assert(w[p] == x && w[q] == v0[q - 1]);
                    assert(v0[i as int] <= v0[q - 1]);
                } else {
                    assert(p < i && q > i);
                    assert(w[p] == v0[p] && w[q] == v0[q - 1]);
                }
            }
        }
        assert(w.remove(i as int) =~= v0) by {
            w.remove_ensures(i as int);
        }
        assert(w.to_multiset().remove(x) == v0.to_multiset()) by {
            assert(w.remove(i as int).to_multiset() == w.to_multiset().remove(w[i as int]));
        }
        assert(w.contains(x));
        assert(w.to_multiset().count(x) > 0);
        assert(w.to_multiset() =~= v0.to_multiset().insert(x));
        assert(forall|k: int| 0 <= k < w.len() ==> w[k] == x || v0.contains(w[k])) by {
            assert(forall|k: int| 0 <= k < i ==> w[k] == v0[k]);
            assert(forall|k: int| i < k < w.len() ==> w[k] == v0[k - 1]);
        }
    }
}

} // verus!
