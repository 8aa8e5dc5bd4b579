//! Deduplication and occurrence counting over the non-missing values.

use vstd::prelude::*;

use crate::elem::Elem;
use crate::list::{has_none, UList};

verus! {

/// Whether some position of `s` holds exactly the value `v`.
pub open spec fn contains_value<T: Elem>(s: Seq<Option<T::M>>, v: T::M) -> bool {
    exists|i: int| 0 <= i < s.len() && s[i] == Some(v)
}

/// How many positions of `s` hold exactly the value `v`.
pub open spec fn count_eq<T: Elem>(s: Seq<Option<T::M>>, v: T::M) -> nat
    decreases s.len(),
{
    if s.len() == 0 {
        0
    } else {
        count_eq::<T>(s.drop_last(), v) + (if s.last() == Some(v) {
            1nat
        } else {
            0nat
        })
    }
}

/// A value's occurrence count never exceeds the length.
proof fn lemma_count_eq_le_len<T: Elem>(s: Seq<Option<T::M>>, v: T::M)
    ensures
        count_eq::<T>(s, v) <= s.len(),
    decreases s.len(),
{
    if s.len() > 0 {
        lemma_count_eq_le_len::<T>(s.drop_last(), v);
    }
}

/// A value occurs at some position exactly when its count is positive.
proof fn lemma_count_eq_pos<T: Elem>(s: Seq<Option<T::M>>, v: T::M)
    ensures
        count_eq::<T>(s, v) > 0 <==> contains_value::<T>(s, v),
    decreases s.len(),
{
    if s.len() > 0 {
        lemma_count_eq_pos::<T>(s.drop_last(), v);
        if s.last() == Some(v) {
            assert(s[s.len() - 1] == Some(v));
        } else {
            if contains_value::<T>(s, v) {
                let i = choose|i: int| 0 <= i < s.len() && s[i] == Some(v);
                assert(s.drop_last()[i] == Some(v));
            }
            if contains_value::<T>(s.drop_last(), v) {
                let i = choose|i: int| 0 <= i < s.len() - 1 && s.drop_last()[i] == Some(v);
                assert(s[i] == Some(v));
            }
        }
    }
}

/// Scans a buffer for an element with the given model.
fn find_model<T: Elem>(v: &Vec<T>, x: &T) -> (r: Option<usize>)
    ensures
        match r {
            Some(t) => t < v@.len() && v@[t as int].m() == x.m(),
            None => forall|t: int| 0 <= t < v@.len() ==> (#[trigger] v@[t].m()) != x.m(),
        },
{
    let n = v.len();
    let mut t: usize = 0;
    while t < n
        invariant
            n == v@.len(),
            t <= n,
            forall|u: int| 0 <= u < t ==> (#[trigger] v@[u].m()) != x.m(),
        decreases n - t,
    {
        if v[t].eq_elem(x) {
            return Some(t);
        }
        t = t + 1;
    }
    None
}

impl<T: Elem> UList<T> {
    /// A new list holding each distinct non-missing value once, followed by
    /// exactly one missing position when the source has any. The order of
    /// the distinct values is not specified.
    pub fn unique(&self) -> (out: Self)
        requires
            self.wf(),
        ensures
            out.wf(),
            forall|a: int, b: int|
                0 <= a < b < out@.len() && out@[a] is Some && out@[b] is Some ==> (
                #[trigger] out@[a])->0 != (#[trigger] out@[b])->0,
            forall|v: T::M| contains_value::<T>(out@, v) <==> contains_value::<T>(self@, v),
            has_none(self@) ==> out@.len() >= 1 && out@.last() is None && forall|i: int|
                0 <= i < out@.len() - 1 ==> #[trigger] out@[i] is Some,
            !has_none(self@) ==> forall|i: int| 0 <= i < out@.len() ==> #[trigger] out@[i]
                is Some,
    {
        let n = self.values.len();
        let mut vals: Vec<T> = Vec::new();
        let mut k: usize = 0;
        while k < n
            invariant
                self.wf(),
                n == self.values@.len(),
                n == self.na@.len(),
                k <= n,
                forall|t: int|
                    0 <= t < vals@.len() ==> contains_value::<T>(
                        self@,
                        (#[trigger] vals@[t].m()),
                    ),
                forall|i: int|
                    0 <= i < k && self@[i] is Some ==> exists|t: int|
                        0 <= t < vals@.len() && vals@[t].m() == (#[trigger] self@[i])->0,
                forall|t1: int, t2: int|
                    0 <= t1 < t2 < vals@.len() ==> (#[trigger] vals@[t1].m()) != (
                    #[trigger] vals@[t2].m()),
            decreases n - k,
        {
            if !self.na[k] {
                proof {
                    assert(self@[k as int] == Some(self.values@[k as int].m()));
                }
                let ghost prev = vals@;
                let x = &self.values[k];
                match find_model(&vals, x) {
                    Some(t) => {
                        proof {
                            assert(vals@[t as int].m() == self@[k as int]->0);
                        }
                    }
                    None => {
                        vals.push(x.clone_elem());
                        proof {
                            assert forall|i: int|
                                0 <= i < k + 1 && self@[i] is Some implies exists|t: int|
                                0 <= t < vals@.len() && vals@[t].m() == (#[trigger] self@[i])->0 by {
                                if i < k {
                                    let t0 = choose|t0: int|
                                        0 <= t0 < prev.len() && prev[t0].m() == self@[i]->0;
                                    assert(vals@[t0].m() == self@[i]->0);
                                } else {
                                    assert(vals@[vals@.len() - 1].m() == self@[i]->0);
                                }
                            }
                        }
                    }
                }
            }
            k = k + 1;
        }
        let present = vals.len();
        let ghost keys = vals@;
        let with_na = self.has_na();
        let mut values = vals;
        let mut na: Vec<bool> = Vec::new();
        let mut t: usize = 0;
        while t < present
            invariant
                t <= present,
                na@.len() == t,
                forall|u: int| 0 <= u < t ==> !(#[trigger] na@[u]),
            decreases present - t,
        {
            na.push(false);
            t = t + 1;
        }
        if with_na {
            values.push(T::na());
            na.push(true);
        }
        let out = UList { values, na };
        proof {
            assert forall|v: T::M| contains_value::<T>(out@, v) implies contains_value::<T>(
                self@,
                v,
            ) by {
                let i = choose|i: int| 0 <= i < out@.len() && out@[i] == Some(v);
                assert(i < present);
            }
            assert(forall|t: int| 0 <= t < present ==> out.values@[t] == keys[t]);
            assert forall|v: T::M| contains_value::<T>(self@, v) implies contains_value::<T>(
                out@,
                v,
            ) by {
                let i = choose|i: int| 0 <= i < self@.len() && self@[i] == Some(v);
                assert(exists|t: int| 0 <= t < keys.len() && keys[t].m() == self@[i]->0);
                let t2 = choose|t2: int| 0 <= t2 < keys.len() && keys[t2].m() == self@[i]->0;
                assert(out@[t2] == Some(v));
            }
        }
        out
    }

    /// The occurrence count of every distinct non-missing value: each pair
    /// holds a value and how many positions hold it. Missing positions are
    /// not counted and the sentinel does not appear as a key. The order of
    /// the pairs is not specified.
    pub fn counter(&self) -> (r: Vec<(T, usize)>)
        requires
            self.wf(),
        ensures
            forall|a: int, b: int|
                0 <= a < b < r@.len() ==> (#[trigger] r@[a].0.m()) != (#[trigger] r@[b].0.m()),
            forall|t: int|
                0 <= t < r@.len() ==> (#[trigger] r@[t].1) == count_eq::<T>(
                    self@,
                    r@[t].0.m(),
                ) && r@[t].1 > 0,
            forall|i: int|
                0 <= i < self@.len() && self@[i] is Some ==> exists|t: int|
                    0 <= t < r@.len() && r@[t].0.m() == (#[trigger] self@[i])->0,
    {
        let n = self.values.len();
        let mut r: Vec<(T, usize)> = Vec::new();
        let mut k: usize = 0;
        proof {
            assert(self@.take(0) =~= Seq::empty());
        }
        while k < n
            invariant
                self.wf(),
                n == self.values@.len(),
                n == self.na@.len(),
                k <= n,
                forall|a: int, b: int|
                    0 <= a < b < r@.len() ==> (#[trigger] r@[a].0.m()) != (
                    #[trigger] r@[b].0.m()),
                forall|t: int|
                    0 <= t < r@.len() ==> (#[trigger] r@[t].1) == count_eq::<T>(
                        self@.take(k as int),
                        r@[t].0.m(),
                    ) && r@[t].1 > 0,
                forall|i: int|
                    0 <= i < k && self@[i] is Some ==> exists|t: int|
                        0 <= t < r@.len() && r@[t].0.m() == (#[trigger] self@[i])->0,
            decreases n - k,
        {
            let ghost pre = r@;
            proof {
                assert(self@.take(k + 1).drop_last() =~= self@.take(k as int));
                assert(self@.take(k + 1).last() == self@[k as int]);
            }
            if !self.na[k] {
                proof {
                    assert(self@[k as int] == Some(self.values@[k as int].m()));
                }
                let x = &self.values[k];
                // a separate buffer view of the keys is not kept; scan r
                let mut pos: usize = 0;
                let mut found = false;
                while pos < r.len() && !found
                    invariant
                        pos <= r@.len(),
                        found ==> pos < r@.len() && r@[pos as int].0.m() == x.m(),
                        !found ==> forall|u: int|
                            0 <= u < pos ==> (#[trigger] r@[u].0.m()) != x.m(),
                    decreases r@.len() - pos + (if found {
                        0int
                    } else {
                        1int
                    }),
                {
                    if r[pos].0.eq_elem(x) {
                        found = true;
                    } else {
                        pos = pos + 1;
                    }
                }
                if found {
                    let c = r[pos].1;
                    proof {
                        lemma_count_eq_le_len::<T>(self@.take(k as int), r@[pos as int].0.m());
                    }
                    let key = r[pos].0.clone_elem();
                    r[pos] = (key, c + 1);
                    proof {
                        assert(r@[pos as int].0.m() == self@[k as int]->0);
                        assert forall|i: int|
                            0 <= i < k + 1 && self@[i] is Some implies exists|t: int|
                            0 <= t < r@.len() && r@[t].0.m() == (#[trigger] self@[i])->0 by {
                            if i < k {
                                let t0 = choose|t0: int|
                                    0 <= t0 < pre.len() && pre[t0].0.m() == self@[i]->0;
                                assert(r@[t0].0.m() == self@[i]->0);
                            } else {
                                assert(r@[pos as int].0.m() == self@[i]->0);
                            }
                        }
                    }
                    proof {
                        assert forall|t: int| 0 <= t < r@.len() implies (#[trigger] r@[t].1)
                            == count_eq::<T>(self@.take(k + 1), r@[t].0.m()) && r@[t].1 > 0 by {
                            if t == pos {
                                assert(self@.take(k + 1).last() == Some(r@[t].0.m()));
                            } else {
                                assert(r@[t] == pre[t]);
                                assert(r@[t].0.m() != x.m());
                                assert(self@.take(k + 1).last() != Some(r@[t].0.m()));
                            }
                        }
                    }
                } else {
                    r.push((x.clone_elem(), 1));
                    proof {
                        assert forall|i: int|
                            0 <= i < k + 1 && self@[i] is Some implies exists|t: int|
                            0 <= t < r@.len() && r@[t].0.m() == (#[trigger] self@[i])->0 by {
                            if i < k {
                                let t0 = choose|t0: int|
                                    0 <= t0 < pre.len() && pre[t0].0.m() == self@[i]->0;
                                assert(r@[t0].0.m() == self@[i]->0);
                            } else {
                                assert(r@[r@.len() - 1].0.m() == self@[i]->0);
                            }
                        }
                        assert forall|t: int| 0 <= t < r@.len() implies (#[trigger] r@[t].1)
                            == count_eq::<T>(self@.take(k + 1), r@[t].0.m()) && r@[t].1 > 0 by {
                            if t == pre.len() {
                                lemma_count_eq_pos::<T>(self@.take(k as int), r@[t].0.m());
                                if count_eq::<T>(self@.take(k as int), r@[t].0.m()) > 0 {
                                    let i = choose|i: int|
                                        0 <= i < k && self@.take(k as int)[i] == Some(
                                            r@[t].0.m(),
                                        );
                                    assert(self@[i] is Some);
                                }
                                assert(count_eq::<T>(self@.take(k as int), r@[t].0.m()) == 0);
                            } else {
                                assert(r@[t] == pre[t]);
                                assert(r@[t].0.m() != x.m());
                            }
                        }
                    }
                }
            } else {
                proof {
                    assert(self@[k as int] is None);
                    assert forall|t: int| 0 <= t < r@.len() implies (#[trigger] r@[t].1)
                        == count_eq::<T>(self@.take(k + 1), r@[t].0.m()) by {
                        assert(self@.take(k + 1).last() != Some(r@[t].0.m()));
                    }
                }
            }
            k = k + 1;
        }
        proof {
            assert(self@.take(n as int) =~= self@);
        }
        r
    }
}

} // verus!
