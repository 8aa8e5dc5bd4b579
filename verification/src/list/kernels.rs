//! Null-propagating arithmetic over numeric lists.
//!
//! Every binary operation demands equal lengths and produces a missing
//! position exactly where either operand is missing. All arithmetic is
//! exact: each operation requires that the mathematical results of the
//! non-missing positions fit the element type's machine range.

use vstd::prelude::*;

use crate::elem::{Elem, NumElem};
use crate::list::UList;
use crate::UListError;

verus! {

/// The elementwise arithmetic operations.
pub enum ArithOp {
    Add,
    Sub,
    Mul,
}

/// The exact model result of one arithmetic operation.
pub open spec fn arith_m<T: NumElem>(op: ArithOp, a: T::M, b: T::M) -> T::M {
    match op {
        ArithOp::Add => T::add_m(a, b),
        ArithOp::Sub => T::sub_m(a, b),
        ArithOp::Mul => T::mul_m(a, b),
    }
}

/// One arithmetic operation lifted to optional models: missing on either
/// side propagates.
pub open spec fn zip_arith<T: NumElem>(
    op: ArithOp,
    a: Option<T::M>,
    b: Option<T::M>,
) -> Option<T::M> {
    match (a, b) {
        (Some(x), Some(y)) => Some(arith_m::<T>(op, x, y)),
        _ => None,
    }
}

/// The exact sum of the models of the non-missing positions.
pub open spec fn sum_m<T: NumElem>(s: Seq<Option<T::M>>) -> T::M
    decreases s.len(),
{
    if s.len() == 0 {
        T::zero_m()
    } else {
        let rest = sum_m::<T>(s.drop_last());
        match s.last() {
            Some(x) => T::add_m(rest, x),
            None => rest,
        }
    }
}

/// The exact `k`-th power of a model.
pub open spec fn pow_m<T: NumElem>(b: T::M, k: nat) -> T::M
    decreases k,
{
    if k == 0 {
        T::one_m()
    } else {
        T::mul_m(pow_m::<T>(b, (k - 1) as nat), b)
    }
}

/// Null propagation: an arithmetic result position is missing exactly when
/// either operand is missing there.
pub proof fn lemma_zip_arith_null<T: NumElem>(op: ArithOp, a: Option<T::M>, b: Option<T::M>)
    ensures
        zip_arith::<T>(op, a, b) is None <==> (a is None || b is None),
{
}

fn arith_el<T: NumElem>(op: &ArithOp, a: &T, b: &T) -> (r: T)
    requires
        T::in_range(arith_m::<T>(*op, a.m(), b.m())),
    ensures
        r.m() == arith_m::<T>(*op, a.m(), b.m()),
{
    match op {
        ArithOp::Add => a.add_el(b),
        ArithOp::Sub => a.sub_el(b),
        ArithOp::Mul => a.mul_el(b),
    }
}

impl<T: NumElem> UList<T> {
    /// Shared body of the elementwise arithmetic operations.
    fn arith_with(&self, other: &Self, op: ArithOp) -> (r: Result<Self, UListError>)
        requires
            self.wf(),
            other.wf(),
            self@.len() == other@.len() ==> forall|i: int|
                0 <= i < self@.len() && self@[i] is Some && other@[i] is Some ==> T::in_range(
                    arith_m::<T>(op, (#[trigger] self@[i])->0, other@[i]->0),
                ),
        ensures
            match r {
                Ok(out) => {
                    &&& self@.len() == other@.len()
                    &&& out.wf()
                    &&& out@.len() == self@.len()
                    &&& forall|i: int|
                        0 <= i < self@.len() ==> #[trigger] out@[i] == zip_arith::<T>(
                            op,
                            self@[i],
                            other@[i],
                        )
                },
                Err(e) => e == UListError::SizeMismatch && self@.len() != other@.len(),
            },
    {
        let n = self.values.len();
        if n != other.values.len() {
            return Err(UListError::SizeMismatch);
        }
        let mut values: Vec<T> = Vec::new();
        let mut na: Vec<bool> = Vec::new();
        let mut k: usize = 0;
        while k < n
            invariant
                self.wf(),
                other.wf(),
                n == self.values@.len(),
                n == self.na@.len(),
                n == other.values@.len(),
                n == other.na@.len(),
                forall|i: int|
                    0 <= i < n && self@[i] is Some && other@[i] is Some ==> T::in_range(
                        arith_m::<T>(op, (#[trigger] self@[i])->0, other@[i]->0),
                    ),
                k <= n,
                values@.len() == k,
                na@.len() == k,
                forall|i: int|
                    #![trigger na@[i]]
                    0 <= i < k ==> (na@[i] ==> values@[i].m() == T::na_m()),
                forall|i: int|
                    #![trigger na@[i]]
                    0 <= i < k ==> (if na@[i] {
                        None
                    } else {
                        Some(values@[i].m())
                    }) == zip_arith::<T>(op, self@[i], other@[i]),
            decreases n - k,
        {
            if self.na[k] || other.na[k] {
                values.push(T::na());
                na.push(true);
            } else {
                proof {
                    assert(self@[k as int] is Some && other@[k as int] is Some);
                }
                values.push(arith_el(&op, &self.values[k], &other.values[k]));
                na.push(false);
            }
            k = k + 1;
        }
        let out = UList { values, na };
        Ok(out)
    }

    /// Elementwise exact addition; a missing position on either side gives
    /// a missing result position. Fails with `SizeMismatch` when the
    /// lengths differ.
    pub fn add(&self, other: &Self) -> (r: Result<Self, UListError>)
        requires
            self.wf(),
            other.wf(),
            self@.len() == other@.len() ==> forall|i: int|
                0 <= i < self@.len() && self@[i] is Some && other@[i] is Some ==> T::in_range(
                    T::add_m((#[trigger] self@[i])->0, other@[i]->0),
                ),
        ensures
            match r {
                Ok(out) => {
                    &&& self@.len() == other@.len()
                    &&& out.wf()
                    &&& out@.len() == self@.len()
                    &&& forall|i: int|
                        0 <= i < self@.len() ==> #[trigger] out@[i] == (match (
                            self@[i],
                            other@[i],
                        ) {
                            (Some(a), Some(b)) => Some(T::add_m(a, b)),
                            _ => None,
                        })
                },
                Err(e) => e == UListError::SizeMismatch && self@.len() != other@.len(),
            },
    {
        self.arith_with(other, ArithOp::Add)
    }

    /// Elementwise exact subtraction; a missing position on either side
    /// gives a missing result position. Fails with `SizeMismatch` when the
    /// lengths differ.
    pub fn sub(&self, other: &Self) -> (r: Result<Self, UListError>)
        requires
            self.wf(),
            other.wf(),
            self@.len() == other@.len() ==> forall|i: int|
                0 <= i < self@.len() && self@[i] is Some && other@[i] is Some ==> T::in_range(
                    T::sub_m((#[trigger] self@[i])->0, other@[i]->0),
                ),
        ensures
            match r {
                Ok(out) => {
                    &&& self@.len() == other@.len()
                    &&& out.wf()
                    &&& out@.len() == self@.len()
                    &&& forall|i: int|
                        0 <= i < self@.len() ==> #[trigger] out@[i] == (match (
                            self@[i],
                            other@[i],
                        ) {
                            (Some(a), Some(b)) => Some(T::sub_m(a, b)),
                            _ => None,
                        })
                },
                Err(e) => e == UListError::SizeMismatch && self@.len() != other@.len(),
            },
    {
        self.arith_with(other, ArithOp::Sub)
    }

    /// Elementwise exact multiplication; a missing position on either side
    /// gives a missing result position. Fails with `SizeMismatch` when the
    /// lengths differ.
    pub fn mul(&self, other: &Self) -> (r: Result<Self, UListError>)
        requires
            self.wf(),
            other.wf(),
            self@.len() == other@.len() ==> forall|i: int|
                0 <= i < self@.len() && self@[i] is Some && other@[i] is Some ==> T::in_range(
                    T::mul_m((#[trigger] self@[i])->0, other@[i]->0),
                ),
        ensures
            match r {
                Ok(out) => {
                    &&& self@.len() == other@.len()
                    &&& out.wf()
                    &&& out@.len() == self@.len()
                    &&& forall|i: int|
                        0 <= i < self@.len() ==> #[trigger] out@[i] == (match (
                            self@[i],
                            other@[i],
                        ) {
                            (Some(a), Some(b)) => Some(T::mul_m(a, b)),
                            _ => None,
                        })
                },
                Err(e) => e == UListError::SizeMismatch && self@.len() != other@.len(),
            },
    {
        self.arith_with(other, ArithOp::Mul)
    }

    /// Shared body of the scalar-broadcast arithmetic operations.
    fn arith_scala_with(&self, elem: &T, op: ArithOp) -> (out: Self)
        requires
            self.wf(),
            forall|i: int|
                0 <= i < self@.len() && self@[i] is Some ==> T::in_range(
                    arith_m::<T>(op, (#[trigger] self@[i])->0, elem.m()),
                ),
        ensures
            out.wf(),
            out@.len() == self@.len(),
            forall|i: int|
                0 <= i < self@.len() ==> #[trigger] out@[i] == zip_arith::<T>(
                    op,
                    self@[i],
                    Some(elem.m()),
                ),
    {
        let n = self.values.len();
        let mut values: Vec<T> = Vec::new();
        let mut na: Vec<bool> = Vec::new();
        let mut k: usize = 0;
        while k < n
            invariant
                self.wf(),
                n == self.values@.len(),
                n == self.na@.len(),
                forall|i: int|
                    0 <= i < n && self@[i] is Some ==> T::in_range(
                        arith_m::<T>(op, (#[trigger] self@[i])->0, elem.m()),
                    ),
                k <= n,
                values@.len() == k,
                na@.len() == k,
                forall|i: int|
                    #![trigger na@[i]]
                    0 <= i < k ==> (na@[i] ==> values@[i].m() == T::na_m()),
                forall|i: int|
                    #![trigger na@[i]]
                    0 <= i < k ==> (if na@[i] {
                        None
                    } else {
                        Some(values@[i].m())
                    }) == zip_arith::<T>(op, self@[i], Some(elem.m())),
            decreases n - k,
        {
            if self.na[k] {
                values.push(T::na());
                na.push(true);
            } else {
                proof {
                    assert(self@[k as int] is Some);
                }
                values.push(arith_el(&op, &self.values[k], elem));
                na.push(false);
            }
            k = k + 1;
        }
        UList { values, na }
    }

    /// Adds one constant to every non-missing position, exactly; missing
    /// positions stay missing.
    pub fn add_scala(&self, elem: &T) -> (out: Self)
        requires
            self.wf(),
            forall|i: int|
                0 <= i < self@.len() && self@[i] is Some ==> T::in_range(
                    T::add_m((#[trigger] self@[i])->0, elem.m()),
                ),
        ensures
            out.wf(),
            out@.len() == self@.len(),
            forall|i: int|
                0 <= i < self@.len() ==> #[trigger] out@[i] == (match self@[i] {
                    Some(a) => Some(T::add_m(a, elem.m())),
                    None => None,
                }),
    {
        self.arith_scala_with(elem, ArithOp::Add)
    }

    /// Subtracts one constant from every non-missing position, exactly;
    /// missing positions stay missing.
    pub fn sub_scala(&self, elem: &T) -> (out: Self)
        requires
            self.wf(),
            forall|i: int|
                0 <= i < self@.len() && self@[i] is Some ==> T::in_range(
                    T::sub_m((#[trigger] self@[i])->0, elem.m()),
                ),
        ensures
            out.wf(),
            out@.len() == self@.len(),
            forall|i: int|
                0 <= i < self@.len() ==> #[trigger] out@[i] == (match self@[i] {
                    Some(a) => Some(T::sub_m(a, elem.m())),
                    None => None,
                }),
    {
        self.arith_scala_with(elem, ArithOp::Sub)
    }

    /// Multiplies every non-missing position by one constant, exactly;
    /// missing positions stay missing.
    pub fn mul_scala(&self, elem: &T) -> (out: Self)
        requires
            self.wf(),
            forall|i: int|
                0 <= i < self@.len() && self@[i] is Some ==> T::in_range(
                    T::mul_m((#[trigger] self@[i])->0, elem.m()),
                ),
        ensures
            out.wf(),
            out@.len() == self@.len(),
            forall|i: int|
                0 <= i < self@.len() ==> #[trigger] out@[i] == (match self@[i] {
                    Some(a) => Some(T::mul_m(a, elem.m())),
                    None => None,
                }),
    {
        self.arith_scala_with(elem, ArithOp::Mul)
    }

    /// The exact sum of the non-missing positions; an all-missing or empty
    /// list sums to zero.
    pub fn sum(&self) -> (r: T)
        requires
            self.wf(),
            forall|k: int| 0 <= k <= self@.len() ==> T::in_range(sum_m::<T>(#[trigger] self@.take(k))),
        ensures
            r.m() == sum_m::<T>(self@),
    {
        let n = self.values.len();
        let mut acc = T::zero();
        let mut k: usize = 0;
        proof {
            assert(self@.take(0) =~= Seq::empty());
        }
        while k < n
            invariant
                self.wf(),
                n == self.values@.len(),
                n == self.na@.len(),
                forall|j: int|
                    0 <= j <= n ==> T::in_range(sum_m::<T>(#[trigger] self@.take(j))),
                k <= n,
                acc.m() == sum_m::<T>(self@.take(k as int)),
            decreases n - k,
        {
            proof {
                assert(self@.take(k + 1).drop_last() =~= self@.take(k as int));
                assert(self@.take(k + 1).last() == self@[k as int]);
            }
            if !self.na[k] {
                acc = acc.add_el(&self.values[k]);
            }
            k = k + 1;
        }
        proof {
            assert(self@.take(n as int) =~= self@);
        }
        acc
    }

    /// Raises every non-missing position to the power `exponent`, exactly;
    /// missing positions stay missing.
    pub fn pow_scala(&self, exponent: u32) -> (out: Self)
        requires
            self.wf(),
            forall|i: int, k: int|
                0 <= i < self@.len() && self@[i] is Some && 0 <= k <= exponent ==> T::in_range(
                    pow_m::<T>((#[trigger] self@[i])->0, #[trigger] (k as nat)),
                ),
        ensures
            out.wf(),
            out@.len() == self@.len(),
            forall|i: int|
                0 <= i < self@.len() ==> #[trigger] out@[i] == (match self@[i] {
                    Some(a) => Some(pow_m::<T>(a, exponent as nat)),
                    None => None,
                }),
    {
        let n = self.values.len();
        let mut values: Vec<T> = Vec::new();
        let mut na: Vec<bool> = Vec::new();
        let mut k: usize = 0;
        while k < n
            invariant
                self.wf(),
                n == self.values@.len(),
                n == self.na@.len(),
                forall|i: int, j: int|
                    0 <= i < n && self@[i] is Some && 0 <= j <= exponent ==> T::in_range(
                        pow_m::<T>((#[trigger] self@[i])->0, #[trigger] (j as nat)),
                    ),
                k <= n,
                values@.len() == k,
                na@.len() == k,
                forall|i: int|
                    #![trigger na@[i]]
                    0 <= i < k ==> (na@[i] ==> values@[i].m() == T::na_m()),
                forall|i: int|
                    #![trigger na@[i]]
                    0 <= i < k ==> (if na@[i] {
                        None
                    } else {
                        Some(values@[i].m())
                    }) == (match self@[i] {
                        Some(a) => Some(pow_m::<T>(a, exponent as nat)),
                        None => None,
                    }),
            decreases n - k,
        {
            if self.na[k] {
                values.push(T::na());
                na.push(true);
            } else {
                proof {
                    assert(self@[k as int] is Some && self@[k as int]->0 == self.values@[
                        k as int].m());
                }
                let base = &self.values[k];
                let mut acc = T::one();
                let mut j: u32 = 0;
                while j < exponent
                    invariant
                        self.wf(),
                        n == self.values@.len(),
                        k < n,
                        !self.na@[k as int],
                        self@[k as int] is Some,
                        self@[k as int]->0 == base.m(),
                        forall|t: int|
                            0 <= t <= exponent ==> T::in_range(
                                pow_m::<T>(base.m(), #[trigger] (t as nat)),
                            ),
                        j <= exponent,
                        acc.m() == pow_m::<T>(base.m(), j as nat),
                    decreases exponent - j,
                {
                    proof {
                        assert(T::in_range(pow_m::<T>(base.m(), (j + 1) as nat)));
                        assert(pow_m::<T>(base.m(), (j + 1) as nat) == T::mul_m(
                            pow_m::<T>(base.m(), j as nat),
                            base.m(),
                        ));
                    }
                    acc = acc.mul_el(base);
                    j = j + 1;
                }
                values.push(acc);
                na.push(false);
            }
            k = k + 1;
        }
        UList { values, na }
    }
}

} // verus!
