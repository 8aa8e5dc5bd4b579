//! The element kinds a list can hold.
//!
//! Every element type carries a mathematical model `M` (the value a
//! specification speaks about), a sentinel stored at missing positions, a
//! decidable equality and a total order on models. The list engine is
//! written once against this trait.

use vstd::prelude::*;

verus! {

/// An element type usable in a nullable list.
pub trait Elem: Sized {
    /// The mathematical model of an element value.
    type M;

    /// The model of this element value.
    spec fn m(&self) -> Self::M;

    /// The model of the sentinel stored at missing positions.
    spec fn na_m() -> Self::M;

    /// A total order on models (used by sorting and comparisons).
    spec fn le_m(a: Self::M, b: Self::M) -> bool;

    proof fn le_m_reflexive(a: Self::M)
        ensures
            Self::le_m(a, a),
    ;

    proof fn le_m_transitive(a: Self::M, b: Self::M, c: Self::M)
        requires
            Self::le_m(a, b),
            Self::le_m(b, c),
        ensures
            Self::le_m(a, c),
    ;

    proof fn le_m_antisymmetric(a: Self::M, b: Self::M)
        requires
            Self::le_m(a, b),
            Self::le_m(b, a),
        ensures
            a == b,
    ;

    proof fn le_m_total(a: Self::M, b: Self::M)
        ensures
            Self::le_m(a, b) || Self::le_m(b, a),
    ;

    /// The sentinel value written into the buffer at missing positions.
    fn na() -> (r: Self)
        ensures
            r.m() == Self::na_m(),
    ;

    /// Decides equality of models.
    fn eq_elem(&self, other: &Self) -> (r: bool)
        ensures
            r == (self.m() == other.m()),
    ;

    /// Decides the total order on models.
    fn le_elem(&self, other: &Self) -> (r: bool)
        ensures
            r == Self::le_m(self.m(), other.m()),
    ;

    /// A copy with the same model.
    fn clone_elem(&self) -> (r: Self)
        ensures
            r.m() == self.m(),
    ;
}

impl Elem for bool {
    type M = bool;

    open spec fn m(&self) -> bool {
        *self
    }

    open spec fn na_m() -> bool {
        false
    }

    open spec fn le_m(a: bool, b: bool) -> bool {
        !a || b
    }

    proof fn le_m_reflexive(a: bool) {
    }

    proof fn le_m_transitive(a: bool, b: bool, c: bool) {
    }

    proof fn le_m_antisymmetric(a: bool, b: bool) {
    }

    proof fn le_m_total(a: bool, b: bool) {
    }

    fn na() -> bool {
        false
    }

    fn eq_elem(&self, other: &Self) -> bool {
        *self == *other
    }

    fn le_elem(&self, other: &Self) -> bool {
        !*self || *other
    }

    fn clone_elem(&self) -> bool {
        *self
    }
}

impl Elem for i32 {
    type M = int;

    open spec fn m(&self) -> int {
        *self as int
    }

    open spec fn na_m() -> int {
        0
    }

    open spec fn le_m(a: int, b: int) -> bool {
        a <= b
    }

    proof fn le_m_reflexive(a: int) {
    }

    proof fn le_m_transitive(a: int, b: int, c: int) {
    }

    proof fn le_m_antisymmetric(a: int, b: int) {
    }

    proof fn le_m_total(a: int, b: int) {
    }

    fn na() -> i32 {
        0
    }

    fn eq_elem(&self, other: &Self) -> bool {
        *self == *other
    }

    fn le_elem(&self, other: &Self) -> bool {
        *self <= *other
    }

    fn clone_elem(&self) -> i32 {
        *self
    }
}

impl Elem for i64 {
    type M = int;

    open spec fn m(&self) -> int {
        *self as int
    }

    open spec fn na_m() -> int {
        0
    }

    open spec fn le_m(a: int, b: int) -> bool {
        a <= b
    }

    proof fn le_m_reflexive(a: int) {
    }

    proof fn le_m_transitive(a: int, b: int, c: int) {
    }

    proof fn le_m_antisymmetric(a: int, b: int) {
    }

    proof fn le_m_total(a: int, b: int) {
    }

    fn na() -> i64 {
        0
    }

    fn eq_elem(&self, other: &Self) -> bool {
        *self == *other
    }

    fn le_elem(&self, other: &Self) -> bool {
        *self <= *other
    }

    fn clone_elem(&self) -> i64 {
        *self
    }
}

/// An element type with null-aware arithmetic.
///
/// The model operations are exact integer arithmetic; each executable
/// operation demands that its exact result lies in the machine range, so no
/// operation ever wraps or panics.
pub trait NumElem: Elem {
    /// Whether a model value fits the machine representation.
    spec fn in_range(a: Self::M) -> bool;

    /// Exact addition of models.
    spec fn add_m(a: Self::M, b: Self::M) -> Self::M;

    /// Exact subtraction of models.
    spec fn sub_m(a: Self::M, b: Self::M) -> Self::M;

    /// Exact multiplication of models.
    spec fn mul_m(a: Self::M, b: Self::M) -> Self::M;

    /// The model of zero, the unit of addition.
    spec fn zero_m() -> Self::M;

    /// The model of one, the unit of multiplication.
    spec fn one_m() -> Self::M;

    fn zero() -> (r: Self)
        ensures
            r.m() == Self::zero_m(),
    ;

    fn one() -> (r: Self)
        ensures
            r.m() == Self::one_m(),
    ;

    fn add_el(&self, other: &Self) -> (r: Self)
        requires
            Self::in_range(Self::add_m(self.m(), other.m())),
        ensures
            r.m() == Self::add_m(self.m(), other.m()),
    ;

    fn sub_el(&self, other: &Self) -> (r: Self)
        requires
            Self::in_range(Self::sub_m(self.m(), other.m())),
        ensures
            r.m() == Self::sub_m(self.m(), other.m()),
    ;

    fn mul_el(&self, other: &Self) -> (r: Self)
        requires
            Self::in_range(Self::mul_m(self.m(), other.m())),
        ensures
            r.m() == Self::mul_m(self.m(), other.m()),
    ;
}

impl NumElem for i32 {
    open spec fn in_range(a: int) -> bool {
        i32::MIN <= a <= i32::MAX
    }

    open spec fn add_m(a: int, b: int) -> int {
        a + b
    }

    open spec fn sub_m(a: int, b: int) -> int {
        a - b
    }

    open spec fn mul_m(a: int, b: int) -> int {
        a * b
    }

    open spec fn zero_m() -> int {
        0
    }

    open spec fn one_m() -> int {
        1
    }

    fn zero() -> i32 {
        0
    }

    fn one() -> i32 {
        1
    }

    fn add_el(&self, other: &Self) -> i32 {
        *self + *other
    }

    fn sub_el(&self, other: &Self) -> i32 {
        *self - *other
    }

    fn mul_el(&self, other: &Self) -> i32 {
        *self * *other
    }
}

impl NumElem for i64 {
    open spec fn in_range(a: int) -> bool {
        i64::MIN <= a <= i64::MAX
    }

    open spec fn add_m(a: int, b: int) -> int {
        a + b
    }

    open spec fn sub_m(a: int, b: int) -> int {
        a - b
    }

    open spec fn mul_m(a: int, b: int) -> int {
        a * b
    }

    open spec fn zero_m() -> int {
        0
    }

    open spec fn one_m() -> int {
        1
    }

    fn zero() -> i64 {
        0
    }

    fn one() -> i64 {
        1
    }

    fn add_el(&self, other: &Self) -> i64 {
        *self + *other
    }

    fn sub_el(&self, other: &Self) -> i64 {
        *self - *other
    }

    fn mul_el(&self, other: &Self) -> i64 {
        *self * *other
    }
}

/// The model of an optional element: `None` stands for a missing position.
pub open spec fn opt_m<T: Elem>(o: Option<T>) -> Option<T::M> {
    match o {
        Some(x) => Some(x.m()),
        None => None,
    }
}

} // verus!
