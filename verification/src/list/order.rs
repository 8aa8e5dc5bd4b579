//! Null-propagating order comparisons and order reductions.

use vstd::prelude::*;

use crate::elem::Elem;
use crate::list::UList;
use crate::UListError;

verus! {

/// The strict order induced by an element type's total order.
pub open spec fn lt_m<T: Elem>(a: T::M, b: T::M) -> bool {
    T::le_m(a, b) && a != b
}

/// The elementwise order comparisons.
pub enum CmpOp {
    Lt,
    Le,
    Gt,
    Ge,
}

/// The model result of one order comparison.
pub open spec fn cmp_m<T: Elem>(op: CmpOp, a: T::M, b: T::M) -> bool {
    match op {
        CmpOp::Lt => lt_m::<T>(a, b),
        CmpOp::Le => T::le_m(a, b),
        CmpOp::Gt => lt_m::<T>(b, a),
        CmpOp::Ge => T::le_m(b, a),
    }
}

/// One order comparison lifted to optional models: missing on either side
/// propagates.
pub open spec fn zip_cmp<T: Elem>(op: CmpOp, a: Option<T::M>, b: Option<T::M>) -> Option<bool> {
    match (a, b) {
        (Some(x), Some(y)) => Some(cmp_m::<T>(op, x, y)),
        _ => None,
    }
}

/// Null propagation: an order comparison result position is missing exactly
/// when either operand is missing there.
pub proof fn lemma_zip_cmp_null<T: Elem>(op: CmpOp, a: Option<T::M>, b: Option<T::M>)
    ensures
        zip_cmp::<T>(op, a, b) is None <==> (a is None || b is None),
{
}

fn cmp_el<T: Elem>(op: &CmpOp, a: &T, b: &T) -> (r: bool)
    ensures
        r == cmp_m::<T>(*op, a.m(), b.m()),
{
    match op {
        CmpOp::Lt => a.le_elem(b) && !a.eq_elem(b),
        CmpOp::Le => a.le_elem(b),
        CmpOp::Gt => b.le_elem(a) && !a.eq_elem(b),
        CmpOp::Ge => b.le_elem(a),
    }
}

impl<T: Elem> UList<T> {
    /// Shared body of the pairwise order comparisons.
    fn ord_with(&self, other: &Self, op: CmpOp) -> (r: Result<UList<bool>, UListError>)
        requires
            self.wf(),
            other.wf(),
        ensures
            match r {
                Ok(out) => {
                    &&& self@.len() == other@.len()
                    &&& out.wf()
                    &&& out@.len() == self@.len()
                    &&& forall|i: int|
                        0 <= i < self@.len() ==> #[trigger] out@[i] == zip_cmp::<T>(
                            op,
                            self@[i],
                            other@[i],
                        )
                },
                Err(e) => e == UListError::SizeMismatch && self@.len() != other@.len(),
            },
    {
        let n = self.values.len();
        if n != other.values.len() {
            return Err(UListError::SizeMismatch);
        }
        let mut vals: Vec<bool> = Vec::new();
        let mut nas: Vec<bool> = Vec::new();
        let mut k: usize = 0;
        while k < n
            invariant
                self.wf(),
                other.wf(),
                n == self.values@.len(),
                n == self.na@.len(),
                n == other.values@.len(),
                n == other.na@.len(),
                k <= n,
                vals@.len() == k,
                nas@.len() == k,
                forall|i: int| 0 <= i < k && nas@[i] ==> !(#[trigger] vals@[i]),
                forall|i: int|
                    #![trigger nas@[i]]
                    0 <= i < k ==> (if nas@[i] {
                        None
                    } else {
                        Some(vals@[i])
                    }) == zip_cmp::<T>(op, self@[i], other@[i]),
            decreases n - k,
        {
            if self.na[k] || other.na[k] {
                vals.push(false);
                nas.push(true);
            } else {
                vals.push(cmp_el(&op, &self.values[k], &other.values[k]));
                nas.push(false);
            }
            k = k + 1;
        }
        let out = UList { values: vals, na: nas };
        Ok(out)
    }

    /// Elementwise strict "greater than"; missing propagates. Fails with
    /// `SizeMismatch` when the lengths differ.
    pub fn greater_than(&self, other: &Self) -> (r: Result<UList<bool>, UListError>)
        requires
            self.wf(),
            other.wf(),
        ensures
            match r {
                Ok(out) => {
                    &&& self@.len() == other@.len()
                    &&& out.wf()
                    &&& out@.len() == self@.len()
                    &&& forall|i: int|
                        0 <= i < self@.len() ==> #[trigger] out@[i] == (match (
                            self@[i],
                            other@[i],
                        ) {
                            (Some(a), Some(b)) => Some(lt_m::<T>(b, a)),
                            _ => None,
                        })
                },
                Err(e) => e == UListError::SizeMismatch && self@.len() != other@.len(),
            },
    {
        self.ord_with(other, CmpOp::Gt)
    }

    /// Elementwise "greater than or equal"; missing propagates. Fails with
    /// `SizeMismatch` when the lengths differ.
    pub fn greater_than_or_equal(&self, other: &Self) -> (r: Result<UList<bool>, UListError>)
        requires
            self.wf(),
            other.wf(),
        ensures
            match r {
                Ok(out) => {
                    &&& self@.len() == other@.len()
                    &&& out.wf()
                    &&& out@.len() == self@.len()
                    &&& forall|i: int|
                        0 <= i < self@.len() ==> #[trigger] out@[i] == (match (
                            self@[i],
                            other@[i],
                        ) {
                            (Some(a), Some(b)) => Some(T::le_m(b, a)),
                            _ => None,
                        })
                },
                Err(e) => e == UListError::SizeMismatch && self@.len() != other@.len(),
            },
    {
        self.ord_with(other, CmpOp::Ge)
    }

    /// Elementwise strict "less than"; missing propagates. Fails with
    /// `SizeMismatch` when the lengths differ.
    pub fn less_than(&self, other: &Self) -> (r: Result<UList<bool>, UListError>)
        requires
            self.wf(),
            other.wf(),
        ensures
            match r {
                Ok(out) => {
                    &&& self@.len() == other@.len()
                    &&& out.wf()
                    &&& out@.len() == self@.len()
                    &&& forall|i: int|
                        0 <= i < self@.len() ==> #[trigger] out@[i] == (match (
                            self@[i],
                            other@[i],
                        ) {
                            (Some(a), Some(b)) => Some(lt_m::<T>(a, b)),
                            _ => None,
                        })
                },
                Err(e) => e == UListError::SizeMismatch && self@.len() != other@.len(),
            },
    {
        self.ord_with(other, CmpOp::Lt)
    }

    /// Elementwise "less than or equal"; missing propagates. Fails with
    /// `SizeMismatch` when the lengths differ.
    pub fn less_than_or_equal(&self, other: &Self) -> (r: Result<UList<bool>, UListError>)
        requires
            self.wf(),
            other.wf(),
        ensures
            match r {
                Ok(out) => {
                    &&& self@.len() == other@.len()
                    &&& out.wf()
                    &&& out@.len() == self@.len()
                    &&& forall|i: int|
                        0 <= i < self@.len() ==> #[trigger] out@[i] == (match (
                            self@[i],
                            other@[i],
                        ) {
                            (Some(a), Some(b)) => Some(T::le_m(a, b)),
                            _ => None,
                        })
                },
                Err(e) => e == UListError::SizeMismatch && self@.len() != other@.len(),
            },
    {
        self.ord_with(other, CmpOp::Le)
    }

    /// Shared body of the scalar order comparisons.
    fn ord_scala_with(&self, elem: &T, op: CmpOp) -> (out: UList<bool>)
        requires
            self.wf(),
        ensures
            out.wf(),
            out@.len() == self@.len(),
            forall|i: int|
                0 <= i < self@.len() ==> #[trigger] out@[i] == zip_cmp::<T>(
                    op,
                    self@[i],
                    Some(elem.m()),
                ),
    {
        let n = self.values.len();
        let mut vals: Vec<bool> = Vec::new();
        let mut nas: Vec<bool> = Vec::new();
        let mut k: usize = 0;
        while k < n
            invariant
                self.wf(),
                n == self.values@.len(),
                n == self.na@.len(),
                k <= n,
                vals@.len() == k,
                nas@.len() == k,
                forall|i: int| 0 <= i < k && nas@[i] ==> !(#[trigger] vals@[i]),
                forall|i: int|
                    #![trigger nas@[i]]
                    0 <= i < k ==> (if nas@[i] {
                        None
                    } else {
                        Some(vals@[i])
                    }) == zip_cmp::<T>(op, self@[i], Some(elem.m())),
            decreases n - k,
        {
            if self.na[k] {
                vals.push(false);
                nas.push(true);
            } else {
                vals.push(cmp_el(&op, &self.values[k], elem));
                nas.push(false);
            }
            k = k + 1;
        }
        UList { values: vals, na: nas }
    }

    /// Strict "greater than" against one constant; a missing source
    /// position gives a missing result position.
    pub fn greater_than_scala(&self, elem: &T) -> (out: UList<bool>)
        requires
            self.wf(),
        ensures
            out.wf(),
            out@.len() == self@.len(),
            forall|i: int|
                0 <= i < self@.len() ==> #[trigger] out@[i] == (match self@[i] {
                    Some(a) => Some(lt_m::<T>(elem.m(), a)),
                    None => None,
                }),
    {
        self.ord_scala_with(elem, CmpOp::Gt)
    }

    /// "Greater than or equal" against one constant; a missing source
    /// position gives a missing result position.
    pub fn greater_than_or_equal_scala(&self, elem: &T) -> (out: UList<bool>)
        requires
            self.wf(),
        ensures
            out.wf(),
            out@.len() == self@.len(),
            forall|i: int|
                0 <= i < self@.len() ==> #[trigger] out@[i] == (match self@[i] {
                    Some(a) => Some(T::le_m(elem.m(), a)),
                    None => None,
                }),
    {
        self.ord_scala_with(elem, CmpOp::Ge)
    }

    /// Strict "less than" against one constant; a missing source position
    /// gives a missing result position.
    pub fn less_than_scala(&self, elem: &T) -> (out: UList<bool>)
        requires
            self.wf(),
        ensures
            out.wf(),
            out@.len() == self@.len(),
            forall|i: int|
                0 <= i < self@.len() ==> #[trigger] out@[i] == (match self@[i] {
                    Some(a) => Some(lt_m::<T>(a, elem.m())),
                    None => None,
                }),
    {
        self.ord_scala_with(elem, CmpOp::Lt)
    }

    /// "Less than or equal" against one constant; a missing source position
    /// gives a missing result position.
    pub fn less_than_or_equal_scala(&self, elem: &T) -> (out: UList<bool>)
        requires
            self.wf(),
        ensures
            out.wf(),
            out@.len() == self@.len(),
            forall|i: int|
                0 <= i < self@.len() ==> #[trigger] out@[i] == (match self@[i] {
                    Some(a) => Some(T::le_m(a, elem.m())),
                    None => None,
                }),
    {
        self.ord_scala_with(elem, CmpOp::Le)
    }

    /// Shared body of `max` and `min`.
    fn extreme(&self, take_max: bool) -> (r: Result<T, UListError>)
        requires
            self.wf(),
        ensures
            match r {
                Ok(v) => {
                    &&& exists|i: int| 0 <= i < self@.len() && #[trigger] self@[i] == Some(v.m())
                    &&& forall|i: int|
                        0 <= i < self@.len() && self@[i] is Some ==> (if take_max {
                            T::le_m((#[trigger] self@[i])->0, v.m())
                        } else {
                            T::le_m(v.m(), (#[trigger] self@[i])->0)
                        })
                },
                Err(e) => e == UListError::AllMissing && forall|i: int|
                    0 <= i < self@.len() ==> #[trigger] self@[i] is None,
            },
    {
        let n = self.values.len();
        let mut best: Option<T> = None;
        let mut k: usize = 0;
        while k < n
            invariant
                self.wf(),
                n == self.values@.len(),
                n == self.na@.len(),
                k <= n,
                match best {
                    None => forall|i: int| 0 <= i < k ==> #[trigger] self@[i] is None,
                    Some(b) => {
                        &&& exists|i: int| 0 <= i < k && #[trigger] self@[i] == Some(b.m())
                        &&& forall|i: int|
                            0 <= i < k && self@[i] is Some ==> (if take_max {
                                T::le_m((#[trigger] self@[i])->0, b.m())
                            } else {
                                T::le_m(b.m(), (#[trigger] self@[i])->0)
                            })
                    },
                },
            decreases n - k,
        {
            if !self.na[k] {
                let x = &self.values[k];
                proof {
                    assert(self@[k as int] == Some(x.m()));
                }
                match &best {
                    None => {
                        proof {
                            T::le_m_reflexive(x.m());
                        }
                        best = Some(x.clone_elem());
                    }
                    Some(b) => {
                        let better = if take_max {
                            b.le_elem(x)
                        } else {
                            x.le_elem(b)
                        };
                        if better {
                            proof {
                                let bm = b.m();
                                let xm = x.m();
                                T::le_m_reflexive(xm);
                                assert forall|i: int|
                                    0 <= i < k && self@[i] is Some implies (if take_max {
                                    T::le_m((#[trigger] self@[i])->0, xm)
                                } else {
                                    T::le_m(xm, (#[trigger] self@[i])->0)
                                }) by {
                                    if take_max {
                                        T::le_m_transitive(self@[i]->0, bm, xm);
                                    } else {
                                        T::le_m_transitive(xm, bm, self@[i]->0);
                                    }
                                }
                            }
                            best = Some(x.clone_elem());
                        } else {
                            proof {
                                T::le_m_total(b.m(), x.m());
                            }
                        }
                    }
                }
            }
            k = k + 1;
        }
        match best {
            Some(v) => Ok(v),
            None => Err(UListError::AllMissing),
        }
    }

    /// The greatest non-missing value. Fails with `AllMissing` when no
    /// position holds a value.
    pub fn max(&self) -> (r: Result<T, UListError>)
        requires
            self.wf(),
        ensures
            match r {
                Ok(v) => {
                    &&& exists|i: int| 0 <= i < self@.len() && #[trigger] self@[i] == Some(v.m())
                    &&& forall|i: int|
                        0 <= i < self@.len() && self@[i] is Some ==> T::le_m(
                            (#[trigger] self@[i])->0,
                            v.m(),
                        )
                },
                Err(e) => e == UListError::AllMissing && forall|i: int|
                    0 <= i < self@.len() ==> #[trigger] self@[i] is None,
            },
    {
        self.extreme(true)
    }

    /// The least non-missing value. Fails with `AllMissing` when no
    /// position holds a value.
    pub fn min(&self) -> (r: Result<T, UListError>)
        requires
            self.wf(),
        ensures
            match r {
                Ok(v) => {
                    &&& exists|i: int| 0 <= i < self@.len() && #[trigger] self@[i] == Some(v.m())
                    &&& forall|i: int|
                        0 <= i < self@.len() && self@[i] is Some ==> T::le_m(
                            v.m(),
                            (#[trigger] self@[i])->0,
                        )
                },
                Err(e) => e == UListError::AllMissing && forall|i: int|
                    0 <= i < self@.len() ==> #[trigger] self@[i] is None,
            },
    {
        self.extreme(false)
    }

    /// Shared body of `argmax` and `argmin`.
    fn arg_extreme(&self, take_max: bool) -> (r: Result<usize, UListError>)
        requires
            self.wf(),
        ensures
            match r {
                Ok(idx) => {
                    &&& idx < self@.len()
                    &&& self@[idx as int] is Some
                    &&& forall|j: int|
                        0 <= j < self@.len() && self@[j] is Some ==> (if take_max {
                            T::le_m((#[trigger] self@[j])->0, self@[idx as int]->0)
                        } else {
                            T::le_m(self@[idx as int]->0, (#[trigger] self@[j])->0)
                        })
                    &&& forall|j: int|
                        0 <= j < idx && self@[j] is Some ==> (#[trigger] self@[j])->0 != self@[
                            idx as int]->0
                },
                Err(e) => e == UListError::AllMissing && forall|i: int|
                    0 <= i < self@.len() ==> #[trigger] self@[i] is None,
            },
    {
        let n = self.values.len();
        let mut best: Option<T> = None;
        let mut best_i: usize = 0;
        let mut k: usize = 0;
        while k < n
            invariant
                self.wf(),
                n == self.values@.len(),
                n == self.na@.len(),
                k <= n,
                match best {
                    None => forall|i: int| 0 <= i < k ==> #[trigger] self@[i] is None,
                    Some(b) => {
                        &&& best_i < k
                        &&& self@[best_i as int] == Some(b.m())
                        &&& forall|j: int|
                            0 <= j < k && self@[j] is Some ==> (if take_max {
                                T::le_m((#[trigger] self@[j])->0, b.m())
                            } else {
                                T::le_m(b.m(), (#[trigger] self@[j])->0)
                            })
                        &&& forall|j: int|
                            0 <= j < best_i && self@[j] is Some ==> (#[trigger] self@[j])->0
                                != b.m()
                    },
                },
            decreases n - k,
        {
            if !self.na[k] {
                let x = &self.values[k];
                proof {
                    assert(self@[k as int] == Some(x.m()));
                }
                match &best {
                    None => {
                        proof {
                            T::le_m_reflexive(x.m());
                        }
                        best = Some(x.clone_elem());
                        best_i = k;
                    }
                    Some(b) => {
                        let strictly_better = if take_max {
                            b.le_elem(x) && !b.eq_elem(x)
                        } else {
                            x.le_elem(b) && !x.eq_elem(b)
                        };
                        if strictly_better {
                            proof {
                                let bm = b.m();
                                let xm = x.m();
                                T::le_m_reflexive(xm);
                                assert forall|j: int|
                                    0 <= j < k && self@[j] is Some implies (if take_max {
                                    T::le_m((#[trigger] self@[j])->0, xm) && self@[j]->0 != xm
                                } else {
                                    T::le_m(xm, (#[trigger] self@[j])->0) && self@[j]->0 != xm
                                }) by {
                                    let jm = self@[j]->0;
                                    if take_max {
                                        T::le_m_transitive(jm, bm, xm);
                                        if jm == xm {
                                            T::le_m_antisymmetric(bm, xm);
                                        }
                                    } else {
                                        T::le_m_transitive(xm, bm, jm);
                                        if jm == xm {
                                            T::le_m_antisymmetric(xm, bm);
                                        }
                                    }
                                }
                            }
                            best = Some(x.clone_elem());
                            best_i = k;
                        } else {
                            proof {
                                let bm = b.m();
                                let xm = x.m();
                                T::le_m_total(bm, xm);
                                T::le_m_reflexive(xm);
                            }
                        }
                    }
                }
            }
            k = k + 1;
        }
        match best {
            Some(_) => Ok(best_i),
            None => Err(UListError::AllMissing),
        }
    }

    /// The first position whose value no non-missing value exceeds. Fails
    /// with `AllMissing` when no position holds a value.
    pub fn argmax(&self) -> (r: Result<usize, UListError>)
        requires
            self.wf(),
        ensures
            match r {
                Ok(idx) => {
                    &&& idx < self@.len()
                    &&& self@[idx as int] is Some
                    &&& forall|j: int|
                        0 <= j < self@.len() && self@[j] is Some ==> T::le_m(
                            (#[trigger] self@[j])->0,
                            self@[idx as int]->0,
                        )
                    &&& forall|j: int|
                        0 <= j < idx && self@[j] is Some ==> (#[trigger] self@[j])->0 != self@[
                            idx as int]->0
                },
                Err(e) => e == UListError::AllMissing && forall|i: int|
                    0 <= i < self@.len() ==> #[trigger] self@[i] is None,
            },
    {
        self.arg_extreme(true)
    }

    /// The first position whose value exceeds no non-missing value. Fails
    /// with `AllMissing` when no position holds a value.
    pub fn argmin(&self) -> (r: Result<usize, UListError>)
        requires
            self.wf(),
        ensures
            match r {
                Ok(idx) => {
                    &&& idx < self@.len()
                    &&& self@[idx as int] is Some
                    &&& forall|j: int|
                        0 <= j < self@.len() && self@[j] is Some ==> T::le_m(
                            self@[idx as int]->0,
                            (#[trigger] self@[j])->0,
                        )
                    &&& forall|j: int|
                        0 <= j < idx && self@[j] is Some ==> (#[trigger] self@[j])->0 != self@[
                            idx as int]->0
                },
                Err(e) => e == UListError::AllMissing && forall|i: int|
                    0 <= i < self@.len() ==> #[trigger] self@[i] is None,
            },
    {
        self.arg_extreme(false)
    }
}

} // verus!
