//! The running-median tracker: two balanced sorted halves of the samples
//! seen so far, answering median queries from their boundary elements.

use crate::sorted_vec::{insert_sorted, lemma_dup_count, lemma_sort_of_eq, sort_of, sorted};
use vstd::multiset::Multiset;
use vstd::prelude::*;

verus! {

broadcast use vstd::seq_lib::group_to_multiset_ensures, vstd::multiset::group_multiset_axioms;

/// The two middle elements of the sorted arrangement of `m`: for an odd
/// number of samples both components are the single middle sample, for an
/// even number they are the two samples around the middle.  The median of
/// `m` is the average of the two components.
pub open spec fn median_pair_of(m: Multiset<i32>) -> (i32, i32)
    recommends
        m.len() > 0,
{
    let s = sort_of(m);
    let n = s.len() as int;
    (s[(n - 1) / 2], s[n / 2])
}

/// Tracks the median of a stream of samples.
///
/// The smaller half of the samples is kept in `low` and the larger half in
/// `high`; every sample of `low` is at most every sample of `high`, and the
/// two halves stay balanced, `high` holding the extra sample when the count
/// is odd.  The median is then read off the inner ends of the two halves.
pub struct RunningMedian {
    low: Vec<i32>,
    high: Vec<i32>,
}

impl View for RunningMedian {
    type V = Multiset<i32>;

    /// The multiset of all samples inserted so far.
    open spec fn view(&self) -> Multiset<i32> {
        self.low_half().to_multiset().add(self.high_half().to_multiset())
    }
}

impl RunningMedian {
    /// The smaller half of the samples, in ascending order.
    pub closed spec fn low_half(&self) -> Seq<i32> {
        self.low@
    }

    /// The larger half of the samples, in ascending order.
    pub closed spec fn high_half(&self) -> Seq<i32> {
        self.high@
    }

    /// The balancing invariant: both halves are sorted, every sample of the
    /// low half is at most every sample of the high half, and the sizes
    /// differ by at most one with the high half never the smaller.
    pub open spec fn wf(&self) -> bool {
        &&& sorted(self.low_half())
        &&& sorted(self.high_half())
        &&& forall|i: int, j: int|
            0 <= i < self.low_half().len() && 0 <= j < self.high_half().len()
                ==> self.low_half()[i] <= self.high_half()[j]
        &&& self.low_half().len() <= self.high_half().len()
        &&& self.high_half().len() <= self.low_half().len() + 1
    }

    /// Creates a tracker that has seen no samples yet.
    pub fn new() -> (t: Self)
        ensures
            t.wf(),
            t@ == Multiset::<i32>::empty(),
            t@.len() == 0,
    {
        let t = RunningMedian { low: Vec::new(), high: Vec::new() };
        proof {
            vstd::multiset::lemma_multiset_empty_len(t@);
        }
        t
    }

    /// Ingests one sample.  When the two halves are equally full the sample
    /// goes through the low half and the low half's maximum moves up; when
    /// the high half holds the extra sample the sample goes through the high
    /// half and the high half's minimum moves down.  Either way the multiset
    /// of samples grows by exactly one occurrence of `num` and the balancing
    /// invariant is preserved.
    pub fn add(&mut self, num: i32)
        requires
            old(self).wf(),
        ensures
            final(self).wf(),
            final(self)@ == old(self)@.insert(num),
            final(self)@.len() == old(self)@.len() + 1,
    {
        let ghost low0 = self.low@;
        let ghost high0 = self.high@;
        if self.low.len() == self.high.len() {
            insert_sorted(&mut self.low, num);
            let ghost low1 = self.low@;
            let m = self.low.pop().unwrap();
            insert_sorted(&mut self.high, m);
            proof {
                let low2 = self.low@;
                let high2 = self.high@;
                let n1 = low1.len() as int;
                assert(m == low1[n1 - 1]);
                assert(low2 =~= low1.remove(n1 - 1));
                low1.remove_ensures(n1 - 1);
                assert forall|i: int, j: int|
                    0 <= i < low2.len() && 0 <= j < high2.len() implies low2[i]
                    <= high2[j] by {
                    assert(low2[i] == low1[i]);
                    assert(low1[i] <= m);
                    if high2[j] != m {
                        assert(high0.contains(high2[j]));
                        let k = choose|k: int| 0 <= k < high0.len() && high0[k] == high2[j];
                        if low0.contains(low1[i]) {
                            let k1 = choose|k1: int|
                                0 <= k1 < low0.len() && low0[k1] == low1[i];
                            assert(low0[k1] <= high0[k]);
                        } else {
                            assert(low1[i] == num);
                            if low0.contains(m) {
                                let k2 = choose|k2: int|
                                    0 <= k2 < low0.len() && low0[k2] == m;
                                assert(low0[k2] <= high0[k]);
                            } else {
                                assert(m == num);
                                lemma_dup_count(low1, i, n1 - 1);
                                assert(low1.to_multiset().count(num) >= 2);
                                assert(low1.to_multiset() == low0.to_multiset().insert(num));
                                assert(low0.to_multiset().count(num) >= 1);
                                assert(low0.contains(num));
                                let k3 = choose|k3: int|
                                    0 <= k3 < low0.len() && low0[k3] == num;
                                assert(low0[k3] <= high0[k]);
                            }
                        }
                    }
                }
                assert(low1.contains(m));
                assert(low1.to_multiset().count(m) > 0);
                assert(low2.to_multiset() == low1.to_multiset().remove(m));
                assert(self@ =~= old(self)@.insert(num));
            }
        } else {
            insert_sorted(&mut self.high, num);
            let ghost high1 = self.high@;
            let m = self.high.remove(0);
            insert_sorted(&mut self.low, m);
            proof {
                let low2 = self.low@;
                let high2 = self.high@;
                assert(m == high1[0]);
                high1.remove_ensures(0);
                assert(high2 == high1.remove(0));
                assert(forall|j: int| 0 <= j < high2.len() ==> high2[j] == high1[j + 1]);
                assert forall|i: int, j: int|
                    0 <= i < low2.len() && 0 <= j < high2.len() implies low2[i]
                    <= high2[j] by {
                    assert(high2[j] == high1[j + 1]);
                    assert(m <= high1[j + 1]);
                    if low2[i] != m {
                        assert(low0.contains(low2[i]));
                        let k1 = choose|k1: int| 0 <= k1 < low0.len() && low0[k1] == low2[i];
                        if high0.contains(high1[j + 1]) {
                            let k = choose|k: int|
                                0 <= k < high0.len() && high0[k] == high1[j + 1];
                            assert(low0[k1] <= high0[k]);
                        } else {
                            assert(high1[j + 1] == num);
                            if high0.contains(m) {
                                let k2 = choose|k2: int|
                                    0 <= k2 < high0.len() && high0[k2] == m;
                                assert(low0[k1] <= high0[k2]);
                            } else {
                                assert(m == num);
                                lemma_dup_count(high1, 0, j + 1);
                                assert(high1.to_multiset().count(num) >= 2);
                                assert(high1.to_multiset() == high0.to_multiset().insert(num));
                                assert(high0.to_multiset().count(num) >= 1);
                                assert(high0.contains(num));
                                let k3 = choose|k3: int|
                                    0 <= k3 < high0.len() && high0[k3] == num;
                                assert(low0[k1] <= high0[k3]);
                            }
                        }
                    }
                }
                assert(high1.contains(m));
                assert(high1.to_multiset().count(m) > 0);
                assert(high2.to_multiset() == high1.to_multiset().remove(m));
                assert(self@ =~= old(self)@.insert(num));
            }
        }
    }

    /// Answers the median-so-far query in constant time, reading only the
    /// inner ends of the two halves.  The query changes no state and its
    /// result is a function of the multiset of samples alone, so repeated
    /// queries without an intervening insertion return the same answer.
    ///
    /// Returns `None` before any sample has been inserted — the median of an
    /// empty stream is explicitly undefined here rather than given a
    /// fallback value — and otherwise the two middle samples of the sorted
    /// stream, whose average is the median.
    pub fn find_median(&self) -> (r: Option<(i32, i32)>)
        requires
            self.wf(),
        ensures
            r is Some <==> self@.len() > 0,
            self@.len() > 0 ==> r == Some(median_pair_of(self@)),
            r matches Some(p) ==> p.0 <= p.1,
    {
        proof {
            let c = self.low_half() + self.high_half();
            let nl = self.low_half().len() as int;
            let nh = self.high_half().len() as int;
            assert(sorted(c)) by {
                assert forall|i: int, j: int| 0 <= i < j < c.len() implies c[i] <= c[j] by {
                    if j < nl {
                        assert(c[i] == self.low_half()[i] && c[j] == self.low_half()[j]);
                    } else if i >= nl {
                        assert(c[i] == self.high_half()[i - nl] && c[j] == self.high_half()[j
                            - nl]);
                    } else {
                        assert(c[i] == self.low_half()[i] && c[j] == self.high_half()[j - nl]);
                    }
                }
            }
            vstd::seq_lib::lemma_multiset_commutative(self.low_half(), self.high_half());
            lemma_sort_of_eq(c);
            assert(sort_of(self@) == self.low_half() + self.high_half());
            assert(self@.len() == self.low_half().len() + self.high_half().len());
        }
        if self.high.len() == 0 {
            None
        } else if self.low.len() == self.high.len() {
            proof {
                let s = sort_of(self@);
                let nl = self.low_half().len() as int;
                assert((2 * nl - 1) / 2 == nl - 1);
                assert(s[nl - 1] == self.low_half()[nl - 1]);
                assert(s[nl] == self.high_half()[0]);
            }
            Some((self.low[self.low.len() - 1], self.high[0]))
        } else {
            proof {
                let s = sort_of(self@);
                let nl = self.low_half().len() as int;
                assert(s.len() == 2 * nl + 1);
                assert(s[nl] == self.high_half()[0]);
            }
            Some((self.high[0], self.high[0]))
        }
    }
}

/// Law: the median pair of a stream is what fully sorting the stream shows.
/// For any sorted arrangement `s` of the samples inserted so far, the pair
/// reported for their multiset is exactly the two middle elements of `s` —
/// the single middle element twice when the count is odd, the two elements
/// around the middle when it is even.
pub proof fn lemma_median_matches_sorted(s: Seq<i32>)
    requires
        sorted(s),
        s.len() > 0,
    ensures
        median_pair_of(s.to_multiset()).0 == s[(s.len() - 1) / 2],
        median_pair_of(s.to_multiset()).1 == s[s.len() as int / 2],
{
    lemma_sort_of_eq(s);
}

/// Law: inserting samples one at a time builds the stream's multiset one
/// occurrence at a time.  The multiset of the first `i + 1` samples of a
/// stream is the multiset of the first `i` samples plus the `i`-th sample,
/// so querying after each insertion reports, at each step, the median of
/// the prefix inserted so far.
pub proof fn lemma_incremental_prefix(vals: Seq<i32>, i: int)
    requires
        0 <= i < vals.len(),
    ensures
        vals.take(i + 1).to_multiset() == vals.take(i).to_multiset().insert(vals[i]),
{
    assert(vals.take(i + 1) =~= vals.take(i).push(vals[i]));
}

} // verus!
