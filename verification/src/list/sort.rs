//! The in-place null-partitioning sort.
//!
//! Sorting first relocates every missing position to the tail of the buffer
//! with a two-pointer partition swap, keeping the mask consistent, then
//! orders the leading non-missing prefix by the element type's total order.

use vstd::prelude::*;

use crate::elem::Elem;
use crate::list::UList;

verus! {

/// The element order read in the requested direction.
pub open spec fn le_dir<T: Elem>(ascending: bool, a: T::M, b: T::M) -> bool {
    if ascending {
        T::le_m(a, b)
    } else {
        T::le_m(b, a)
    }
}

/// What a sorted list looks like: all missing positions form the tail, and
/// the non-missing values are ordered in the requested direction.
pub open spec fn sorted_shape<T: Elem>(s: Seq<Option<T::M>>, ascending: bool) -> bool {
    &&& forall|i: int, j: int|
        #![trigger s[i], s[j]]
        0 <= i <= j < s.len() && s[i] is None ==> s[j] is None
    &&& forall|i: int, j: int|
        #![trigger s[i], s[j]]
        0 <= i <= j < s.len() && s[i] is Some && s[j] is Some ==> le_dir::<T>(
            ascending,
            s[i]->0,
            s[j]->0,
        )
}

/// Swapping two positions of a sequence does not change its multiset.
proof fn lemma_swap_multiset<A>(s: Seq<A>, i: int, j: int)
    requires
        0 <= i < s.len(),
        0 <= j < s.len(),
    ensures
        s.update(i, s[j]).update(j, s[i]).to_multiset() == s.to_multiset(),
{
    broadcast use vstd::seq_lib::group_to_multiset_ensures;
    broadcast use vstd::multiset::group_multiset_axioms;

    let t = s.update(i, s[j]).update(j, s[i]);
    if i == j {
        assert(t =~= s);
    } else {
        let t1 = s.update(i, s[j]);
        assert(s.contains(s[i]));
        assert(t1.to_multiset() == s.to_multiset().insert(s[j]).remove(s[i]));
        assert(t1[j] == s[j]);
        assert(t.to_multiset() == t1.to_multiset().insert(s[i]).remove(t1[j]));
        assert(t.to_multiset() =~= s.to_multiset());
    }
}

/// The element order lifted to optional models, a missing value ordered
/// after every present one.
pub open spec fn opt_le_dir<T: Elem>(ascending: bool, a: Option<T::M>, b: Option<T::M>) -> bool {
    match (a, b) {
        (Some(x), Some(y)) => le_dir::<T>(ascending, x, y),
        (Some(_), None) => true,
        (None, Some(_)) => false,
        (None, None) => true,
    }
}

/// A sorted shape together with the multiset of values determines the whole
/// list: two sorted lists holding the same values in the same multiplicity
/// are equal. In particular, sorting a second time changes nothing.
pub proof fn lemma_sorted_shape_unique<T: Elem>(
    s1: Seq<Option<T::M>>,
    s2: Seq<Option<T::M>>,
    ascending: bool,
)
    requires
        sorted_shape::<T>(s1, ascending),
        sorted_shape::<T>(s2, ascending),
        s1.to_multiset() == s2.to_multiset(),
    ensures
        s1 == s2,
{
    let leq = |a: Option<T::M>, b: Option<T::M>| opt_le_dir::<T>(ascending, a, b);
    assert(vstd::relations::total_ordering(leq)) by {
        assert forall|x: Option<T::M>| #[trigger] leq(x, x) by {
            if x is Some {
                T::le_m_reflexive(x->0);
            }
        }
        assert forall|x: Option<T::M>, y: Option<T::M>| #[trigger] leq(x, y) && #[trigger] leq(
            y,
            x,
        ) implies x == y by {
            if x is Some && y is Some {
                T::le_m_antisymmetric(if ascending {
                    x->0
                } else {
                    y->0
                }, if ascending {
                    y->0
                } else {
                    x->0
                });
            }
        }
        assert forall|x: Option<T::M>, y: Option<T::M>, z: Option<T::M>|
            #[trigger] leq(x, y) && #[trigger] leq(y, z) implies leq(x, z) by {
            if x is Some && y is Some && z is Some {
                if ascending {
                    T::le_m_transitive(x->0, y->0, z->0);
                } else {
                    T::le_m_transitive(z->0, y->0, x->0);
                }
            }
        }
        assert forall|x: Option<T::M>, y: Option<T::M>| #[trigger] leq(x, y) || #[trigger] leq(
            y,
            x,
        ) by {
            if x is Some && y is Some {
                T::le_m_total(x->0, y->0);
            }
        }
    }
    assert(vstd::relations::sorted_by(s1, leq)) by {
        assert forall|i: int, j: int| 0 <= i < j < s1.len() implies #[trigger] leq(
            s1[i],
            s1[j],
        ) by {
            assert(s1[i] is None ==> s1[j] is None);
        }
    }
    assert(vstd::relations::sorted_by(s2, leq)) by {
        assert forall|i: int, j: int| 0 <= i < j < s2.len() implies #[trigger] leq(
            s2[i],
            s2[j],
        ) by {
            assert(s2[i] is None ==> s2[j] is None);
        }
    }
    vstd::seq_lib::lemma_sorted_unique(s1, s2, leq);
    assert(s1 =~= s2);
}

impl<T: Elem> UList<T> {

    /// Swaps two positions of the buffer and the mask, preserving the
    /// multiset of the abstract value.
    fn swap_positions(&mut self, i: usize, j: usize)
        requires
            old(self).wf(),
            i < old(self)@.len(),
            j < old(self)@.len(),
        ensures
            final(self).wf(),
            final(self)@ == old(self)@.update(i as int, old(self)@[j as int]).update(
                j as int,
                old(self)@[i as int],
            ),
            final(self)@.to_multiset() == old(self)@.to_multiset(),
    {
        let vi = self.values[i].clone_elem();
        let vj = self.values[j].clone_elem();
        let ni = self.na[i];
        let nj = self.na[j];
        self.values[i] = vj;
        self.values[j] = vi;
        self.na[i] = nj;
        self.na[j] = ni;
        proof {
            assert(self@ =~= old(self)@.update(i as int, old(self)@[j as int]).update(
                j as int,
                old(self)@[i as int],
            ));
            lemma_swap_multiset(old(self)@, i as int, j as int);
        }
    }

    /// Moves every missing position behind every non-missing one, returning
    /// the count of non-missing positions, without changing the multiset of
    /// the abstract value.
    fn partition_na(&mut self) -> (p: usize)
        requires
            old(self).wf(),
        ensures
            final(self).wf(),
            final(self)@.len() == old(self)@.len(),
            final(self)@.to_multiset() == old(self)@.to_multiset(),
            p <= final(self)@.len(),
            forall|i: int| 0 <= i < p ==> #[trigger] final(self)@[i] is Some,
            forall|i: int| p <= i < final(self)@.len() ==> #[trigger] final(self)@[i] is None,
    {
        let n = self.values.len();
        let ghost orig_ms = self@.to_multiset();
        let mut l: usize = 0;
        let mut r: usize = n;
        while l < r
            invariant
                self.wf(),
                n == self.values@.len(),
                n == self.na@.len(),
                self@.len() == n,
                self@.to_multiset() == orig_ms,
                l <= r <= n,
                forall|i: int| 0 <= i < l ==> #[trigger] self@[i] is Some,
                forall|i: int| r <= i < n ==> #[trigger] self@[i] is None,
            decreases r - l,
        {
            if !self.na[l] {
                proof {
                    assert(self@[l as int] is Some);
                }
                l = l + 1;
            } else if self.na[r - 1] {
                proof {
                    assert(self@[r - 1] is None);
                }
                r = r - 1;
            } else {
                proof {
                    assert(self@[l as int] is None);
                    assert(self@[r - 1] is Some);
                }
                self.swap_positions(l, r - 1);
                proof {
                    assert(self@.len() == n);
                    assert(self.values@.len() == self@.len());
                    assert(self.na@.len() == self.values@.len());
                }
                l = l + 1;
                r = r - 1;
            }
        }
        l
    }

    /// Reorders the list in place: every missing position moves to the
    /// tail, and the non-missing prefix is sorted ascending or descending
    /// by the element type's total order. The multiset of optional values
    /// is unchanged.
    pub fn sort(&mut self, ascending: bool)
        requires
            old(self).wf(),
        ensures
            final(self).wf(),
            final(self)@.len() == old(self)@.len(),
            final(self)@.to_multiset() == old(self)@.to_multiset(),
            sorted_shape::<T>(final(self)@, ascending),
    {
        let n = self.values.len();
        let ghost orig_ms = self@.to_multiset();
        let p = self.partition_na();
        // selection sort on the non-missing prefix
        let mut i: usize = 0;
        while i < p
            invariant
                self.wf(),
                n == self.values@.len(),
                n == self.na@.len(),
                self@.len() == n,
                self@.to_multiset() == orig_ms,
                i <= p <= n,
                forall|t: int| 0 <= t < p ==> #[trigger] self@[t] is Some,
                forall|t: int| p <= t < n ==> #[trigger] self@[t] is None,
                forall|a: int, b: int|
                    0 <= a <= b < i ==> le_dir::<T>(
                        ascending,
                        (#[trigger] self@[a])->0,
                        (#[trigger] self@[b])->0,
                    ),
                forall|a: int, b: int|
                    0 <= a < i <= b < p ==> le_dir::<T>(
                        ascending,
                        (#[trigger] self@[a])->0,
                        (#[trigger] self@[b])->0,
                    ),
            decreases p - i,
        {
            // find the least remaining value in the requested direction
            proof {
                T::le_m_reflexive(self@[i as int]->0);
            }
            let mut m_idx: usize = i;
            let mut j: usize = i + 1;
            while j < p
                invariant
                    self.wf(),
                    n == self.values@.len(),
                    n == self.na@.len(),
                    self@.len() == n,
                    i <= m_idx < j <= p <= n,
                    forall|t: int| 0 <= t < p ==> #[trigger] self@[t] is Some,
                    forall|t: int|
                        i <= t < j ==> le_dir::<T>(
                            ascending,
                            self@[m_idx as int]->0,
                            (#[trigger] self@[t])->0,
                        ),
                decreases p - j,
            {
                let better = if ascending {
                    self.values[j].le_elem(&self.values[m_idx])
                } else {
                    self.values[m_idx].le_elem(&self.values[j])
                };
                proof {
                    assert(self@[j as int] == Some(self.values@[j as int].m()));
                    assert(self@[m_idx as int] == Some(self.values@[m_idx as int].m()));
                }
                if better {
                    proof {
                        let xm = self@[j as int]->0;
                        let bm = self@[m_idx as int]->0;
                        T::le_m_reflexive(xm);
                        assert forall|t: int| i <= t < j + 1 implies le_dir::<T>(
                            ascending,
                            xm,
                            (#[trigger] self@[t])->0,
                        ) by {
                            if t < j {
                                if ascending {
                                    T::le_m_transitive(xm, bm, self@[t]->0);
                                } else {
                                    T::le_m_transitive(self@[t]->0, bm, xm);
                                }
                            }
                        }
                    }
                    m_idx = j;
                } else {
                    proof {
                        T::le_m_total(self@[m_idx as int]->0, self@[j as int]->0);
                    }
                }
                j = j + 1;
            }
            let ghost pre = self@;
            self.swap_positions(i, m_idx);
            proof {
                assert(self@.len() == n);
                assert(self.values@.len() == self@.len());
                assert(self.na@.len() == self.values@.len());
                assert forall|a: int, b: int| 0 <= a <= b < i + 1 implies le_dir::<T>(
                    ascending,
                    (#[trigger] self@[a])->0,
                    (#[trigger] self@[b])->0,
                ) by {
                    if b < i {
                    } else if a < b {
                        assert(self@[b] == pre[m_idx as int]);
                        assert(pre[a] == self@[a]);
                    } else {
                        T::le_m_reflexive(self@[a]->0);
                    }
                }
                assert forall|a: int, b: int| 0 <= a < i + 1 <= b < p implies le_dir::<T>(
                    ascending,
                    (#[trigger] self@[a])->0,
                    (#[trigger] self@[b])->0,
                ) by {
                    let bv = if b == m_idx {
                        pre[i as int]
                    } else {
                        pre[b]
                    };
                    assert(self@[b] == bv);
                    if a < i {
                        assert(pre[a] == self@[a]);
                    } else {
                        assert(self@[a] == pre[m_idx as int]);
                    }
                }
            }
            i = i + 1;
        }
        proof {
            assert forall|a: int, b: int|
                0 <= a <= b < self@.len() && self@[a] is Some && self@[b]
                    is Some implies le_dir::<T>(
                ascending,
                (#[trigger] self@[a])->0,
                (#[trigger] self@[b])->0,
            ) by {
                if a == b {
                    T::le_m_reflexive(self@[a]->0);
                }
            }
        }
    }
}

} // verus!
