//! The nullable list: a dense value buffer plus a missing mask.

use vstd::prelude::*;

pub mod boolean;
pub mod cast;
pub mod dedup;
pub mod kernels;
pub mod order;
pub mod select;
pub mod sort;
pub mod strings;

use crate::elem::{opt_m, Elem};
use crate::UListError;

verus! {

/// How many positions of a sequence of optional models are missing.
pub open spec fn count_none<A>(s: Seq<Option<A>>) -> nat
    decreases s.len(),
{
    if s.len() == 0 {
        0
    } else {
        count_none(s.drop_last()) + (if s.last() is None {
            1nat
        } else {
            0nat
        })
    }
}

/// Whether a sequence of optional models has a missing position.
pub open spec fn has_none<A>(s: Seq<Option<A>>) -> bool {
    exists|i: int| 0 <= i < s.len() && s[i] is None
}

/// Elementwise equality of two optional models: missing on either side
/// propagates.
pub open spec fn zip_eq<A>(a: Option<A>, b: Option<A>) -> Option<bool> {
    match (a, b) {
        (Some(x), Some(y)) => Some(x == y),
        _ => None,
    }
}

/// Elementwise inequality of two optional models: missing on either side
/// propagates.
pub open spec fn zip_ne<A>(a: Option<A>, b: Option<A>) -> Option<bool> {
    match (a, b) {
        (Some(x), Some(y)) => Some(x != y),
        _ => None,
    }
}

/// Equality of an optional model against one constant: missing propagates.
pub open spec fn scala_eq<A>(o: Option<A>, v: A) -> Option<bool> {
    match o {
        Some(x) => Some(x == v),
        None => None,
    }
}

/// Inequality of an optional model against one constant: missing propagates.
pub open spec fn scala_ne<A>(o: Option<A>, v: A) -> Option<bool> {
    match o {
        Some(x) => Some(x != v),
        None => None,
    }
}

/// What a whole-list equality check reports: `Some(false)` when the lengths
/// differ or some position holds differing values on the two sides,
/// `None` when nothing differs but some position is missing on either side,
/// `Some(true)` otherwise.
pub open spec fn all_equal_m<A>(a: Seq<Option<A>>, b: Seq<Option<A>>) -> Option<bool> {
    if a.len() != b.len() {
        Some(false)
    } else if exists|i: int|
        0 <= i < a.len() && a[i] is Some && b[i] is Some && a[i] != b[i] {
        Some(false)
    } else if exists|i: int| 0 <= i < a.len() && (a[i] is None || b[i] is None) {
        None
    } else {
        Some(true)
    }
}

/// The positions of `s` kept by a mask: those where the mask holds
/// `Some(true)`, in their original order.
pub open spec fn masked<A>(s: Seq<Option<A>>, c: Seq<Option<bool>>) -> Seq<Option<A>>
    decreases s.len(),
{
    if s.len() == 0 {
        Seq::empty()
    } else {
        let prefix = masked(s.drop_last(), c.drop_last());
        if c[s.len() - 1] == Some(true) {
            prefix.push(s.last())
        } else {
            prefix
        }
    }
}

/// Round trip: materializing a list and rebuilding one from the result
/// preserves the abstract value (that is what `to_list`'s and
/// `from_options`' contracts compose to), so the whole-list equality check
/// between a list and its reconstruction reports `Some(true)` whenever no
/// position is missing, and `None` — never `Some(false)` — otherwise.
pub proof fn lemma_round_trip_equal<A>(v: Seq<Option<A>>)
    ensures
        !has_none(v) ==> all_equal_m(v, v) == Some(true),
        has_none(v) ==> all_equal_m(v, v) is None,
{
}

/// Null propagation: an elementwise equality result is missing exactly when
/// either operand is missing there.
pub proof fn lemma_zip_eq_null<A>(a: Option<A>, b: Option<A>)
    ensures
        zip_eq(a, b) is None <==> (a is None || b is None),
        zip_ne(a, b) is None <==> (a is None || b is None),
{
}

/// A homogeneous list in which each position either holds a value or is
/// marked missing. Missing positions store the element type's sentinel in
/// the buffer so that the buffer stays densely populated; the sentinel never
/// leaks into a read.
///
/// The abstract value of a list is a sequence of `Option` models: `None` at
/// missing positions, `Some` of the element's model elsewhere.
#[derive(Debug)]
pub struct UList<T: Elem> {
    values: Vec<T>,
    na: Vec<bool>,
}

impl<T: Elem> View for UList<T> {
    type V = Seq<Option<T::M>>;

    closed spec fn view(&self) -> Seq<Option<T::M>> {
        Seq::new(
            self.values@.len(),
            |i: int|
                if self.na@[i] {
                    None
                } else {
                    Some(self.values@[i].m())
                },
        )
    }
}

impl<T: Elem> UList<T> {
    /// The structural invariant: the mask runs parallel to the buffer and
    /// every masked position stores the sentinel.
    pub closed spec fn wf(&self) -> bool {
        &&& self.values@.len() == self.na@.len()
        &&& forall|i: int|
            0 <= i < self.na@.len() && self.na@[i] ==> (#[trigger] self.values@[i].m())
                == T::na_m()
    }

    /// Builds a list from one optional value per position.
    pub fn from_options(v: Vec<Option<T>>) -> (r: Self)
        ensures
            r.wf(),
            r@.len() == v@.len(),
            forall|i: int| 0 <= i < v@.len() ==> r@[i] == opt_m(#[trigger] v@[i]),
    {
        let ghost orig = v@;
        let n = v.len();
        let mut values: Vec<T> = Vec::new();
        let mut na: Vec<bool> = Vec::new();
        let mut v = v;
        let mut k: usize = 0;
        while k < n
            invariant
                n == orig.len(),
                k <= n,
                v@ == orig.subrange(k as int, n as int),
                values@.len() == k,
                na@.len() == k,
                forall|i: int|
                    0 <= i < k && na@[i] ==> (#[trigger] values@[i].m()) == T::na_m(),
                forall|i: int|
                    0 <= i < k ==> (if na@[i] {
                        None
                    } else {
                        Some(values@[i].m())
                    }) == opt_m(#[trigger] orig[i]),
            decreases n - k,
        {
            let slot = v.remove(0);
            proof {
                assert(slot == orig[k as int]);
                assert(v@ =~= orig.subrange(k + 1, n as int));
            }
            match slot {
                Some(x) => {
                    values.push(x);
                    na.push(false);
                }
                None => {
                    values.push(T::na());
                    na.push(true);
                }
            }
            k = k + 1;
        }
        UList { values, na }
    }

    /// The number of positions.
    pub fn size(&self) -> (n: usize)
        ensures
            n == self@.len(),
    {
        self.values.len()
    }

    /// Reads position `index`: `None` if it is missing, its value otherwise.
    /// Fails with `IndexOutOfRange` when `index` is not below the size.
    pub fn get(&self, index: usize) -> (r: Result<Option<T>, UListError>)
        requires
            self.wf(),
        ensures
            match r {
                Ok(o) => index < self@.len() && opt_m(o) == self@[index as int],
                Err(e) => e == UListError::IndexOutOfRange && index >= self@.len(),
            },
    {
        if index >= self.values.len() {
            return Err(UListError::IndexOutOfRange);
        }
        if self.na[index] {
            Ok(None)
        } else {
            Ok(Some(self.values[index].clone_elem()))
        }
    }

    /// The number of missing positions.
    pub fn count_na(&self) -> (c: usize)
        requires
            self.wf(),
        ensures
            c == count_none(self@),
    {
        let n = self.na.len();
        let mut c: usize = 0;
        let mut k: usize = 0;
        while k < n
            invariant
                self.wf(),
                n == self.na@.len(),
                n == self.values@.len(),
                k <= n,
                c <= k,
                c == count_none(self@.take(k as int)),
            decreases n - k,
        {
            proof {
                assert(self@.take(k + 1).drop_last() =~= self@.take(k as int));
                assert(self@.take(k + 1).last() == self@[k as int]);
            }
            if self.na[k] {
                c = c + 1;
            }
            k = k + 1;
        }
        proof {
            assert(self@.take(n as int) =~= self@);
        }
        c
    }

    /// Whether any position is missing.
    pub fn has_na(&self) -> (r: bool)
        requires
            self.wf(),
        ensures
            r == has_none(self@),
    {
        let n = self.na.len();
        let mut k: usize = 0;
        while k < n
            invariant
                self.wf(),
                n == self.na@.len(),
                n == self.values@.len(),
                k <= n,
                forall|i: int| 0 <= i < k ==> !(self@[i] is None),
            decreases n - k,
        {
            if self.na[k] {
                assert(self@[k as int] is None);
                return true;
            }
            k = k + 1;
        }
        false
    }

    /// Writes position `index`: a value removes the missing mark, `None`
    /// sets it. Fails with `IndexOutOfRange`, mutating nothing, when `index`
    /// is not below the size.
    pub fn set(&mut self, index: usize, elem: Option<T>) -> (r: Result<(), UListError>)
        requires
            old(self).wf(),
        ensures
            final(self).wf(),
            match r {
                Ok(()) => index < old(self)@.len() && final(self)@ == old(self)@.update(
                    index as int,
                    opt_m(elem),
                ),
                Err(e) => e == UListError::IndexOutOfRange && index >= old(self)@.len()
                    && final(self)@ == old(self)@,
            },
    {
        if index >= self.values.len() {
            return Err(UListError::IndexOutOfRange);
        }
        match elem {
            Some(x) => {
                self.values[index] = x;
                self.na[index] = false;
            }
            None => {
                self.values[index] = T::na();
                self.na[index] = true;
            }
        }
        proof {
            assert(self@ =~= old(self)@.update(index as int, opt_m(elem)));
        }
        Ok(())
    }

    /// Appends one optional value at the tail.
    pub fn append(&mut self, elem: Option<T>)
        requires
            old(self).wf(),
        ensures
            final(self).wf(),
            final(self)@ == old(self)@.push(opt_m(elem)),
    {
        match elem {
            Some(x) => {
                self.values.push(x);
                self.na.push(false);
            }
            None => {
                self.values.push(T::na());
                self.na.push(true);
            }
        }
        proof {
            assert(self@ =~= old(self)@.push(opt_m(elem)));
        }
    }

    /// Removes the last position. Fails with `EmptyCollection`, mutating
    /// nothing, when the list is empty.
    pub fn pop(&mut self) -> (r: Result<(), UListError>)
        requires
            old(self).wf(),
        ensures
            final(self).wf(),
            match r {
                Ok(()) => old(self)@.len() > 0 && final(self)@ == old(self)@.drop_last(),
                Err(e) => e == UListError::EmptyCollection && old(self)@.len() == 0 && final(self)@
                    == old(self)@,
            },
    {
        if self.values.len() == 0 {
            return Err(UListError::EmptyCollection);
        }
        let _ = self.values.pop();
        let _ = self.na.pop();
        proof {
            assert(self@ =~= old(self)@.drop_last());
        }
        Ok(())
    }

    /// Shared body of `equal` and `not_equal`.
    fn cmp_eq_with(&self, other: &Self, neg: bool) -> (r: Result<UList<bool>, UListError>)
        requires
            self.wf(),
            other.wf(),
        ensures
            match r {
                Ok(out) => {
                    &&& self@.len() == other@.len()
                    &&& out.wf()
                    &&& out@.len() == self@.len()
                    &&& forall|i: int|
                        0 <= i < self@.len() ==> out@[i] == (if neg {
                            zip_ne(self@[i], other@[i])
                        } else {
                            zip_eq(self@[i], other@[i])
                        })
                },
                Err(e) => e == UListError::SizeMismatch && self@.len() != other@.len(),
            },
    {
        let n = self.values.len();
        if n != other.values.len() {
            return Err(UListError::SizeMismatch);
        }
        let mut vals: Vec<bool> = Vec::new();
        let mut nas: Vec<bool> = Vec::new();
        let mut k: usize = 0;
        while k < n
            invariant
                self.wf(),
                other.wf(),
                n == self.values@.len(),
                n == self.na@.len(),
                n == other.values@.len(),
                n == other.na@.len(),
                k <= n,
                vals@.len() == k,
                nas@.len() == k,
                forall|i: int| 0 <= i < k && nas@[i] ==> !(#[trigger] vals@[i]),
                forall|i: int|
                    0 <= i < k ==> (if nas@[i] {
                        None
                    } else {
                        Some(vals@[i])
                    }) == (if neg {
                        zip_ne(self@[i], other@[i])
                    } else {
                        zip_eq(#[trigger] self@[i], other@[i])
                    }),
            decreases n - k,
        {
            if self.na[k] || other.na[k] {
                vals.push(false);
                nas.push(true);
            } else {
                let e = self.values[k].eq_elem(&other.values[k]);
                vals.push(if neg {
                    !e
                } else {
                    e
                });
                nas.push(false);
            }
            k = k + 1;
        }
        let out = UList { values: vals, na: nas };
        Ok(out)
    }

    /// Elementwise equality against another list of the same length; a
    /// missing position on either side gives a missing result position.
    /// Fails with `SizeMismatch` when the lengths differ.
    pub fn equal(&self, other: &Self) -> (r: Result<UList<bool>, UListError>)
        requires
            self.wf(),
            other.wf(),
        ensures
            match r {
                Ok(out) => {
                    &&& self@.len() == other@.len()
                    &&& out.wf()
                    &&& out@.len() == self@.len()
                    &&& forall|i: int|
                        0 <= i < self@.len() ==> out@[i] == zip_eq(self@[i], other@[i])
                },
                Err(e) => e == UListError::SizeMismatch && self@.len() != other@.len(),
            },
    {
        self.cmp_eq_with(other, false)
    }

    /// Elementwise inequality against another list of the same length; a
    /// missing position on either side gives a missing result position.
    /// Fails with `SizeMismatch` when the lengths differ.
    pub fn not_equal(&self, other: &Self) -> (r: Result<UList<bool>, UListError>)
        requires
            self.wf(),
            other.wf(),
        ensures
            match r {
                Ok(out) => {
                    &&& self@.len() == other@.len()
                    &&& out.wf()
                    &&& out@.len() == self@.len()
                    &&& forall|i: int|
                        0 <= i < self@.len() ==> out@[i] == zip_ne(self@[i], other@[i])
                },
                Err(e) => e == UListError::SizeMismatch && self@.len() != other@.len(),
            },
    {
        self.cmp_eq_with(other, true)
    }

    /// Shared body of the scalar comparison pair.
    fn cmp_eq_scala_with(&self, elem: &T, neg: bool) -> (out: UList<bool>)
        requires
            self.wf(),
        ensures
            out.wf(),
            out@.len() == self@.len(),
            forall|i: int|
                0 <= i < self@.len() ==> out@[i] == (if neg {
                    scala_ne(self@[i], elem.m())
                } else {
                    scala_eq(self@[i], elem.m())
                }),
    {
        let n = self.values.len();
        let mut vals: Vec<bool> = Vec::new();
        let mut nas: Vec<bool> = Vec::new();
        let mut k: usize = 0;
        while k < n
            invariant
                self.wf(),
                n == self.values@.len(),
                n == self.na@.len(),
                k <= n,
                vals@.len() == k,
                nas@.len() == k,
                forall|i: int| 0 <= i < k && nas@[i] ==> !(#[trigger] vals@[i]),
                forall|i: int|
                    0 <= i < k ==> (if nas@[i] {
                        None
                    } else {
                        Some(vals@[i])
                    }) == (if neg {
                        scala_ne(self@[i], elem.m())
                    } else {
                        scala_eq(#[trigger] self@[i], elem.m())
                    }),
            decreases n - k,
        {
            if self.na[k] {
                vals.push(false);
                nas.push(true);
            } else {
                let e = self.values[k].eq_elem(elem);
                vals.push(if neg {
                    !e
                } else {
                    e
                });
                nas.push(false);
            }
            k = k + 1;
        }
        UList { values: vals, na: nas }
    }

    /// Elementwise equality against one constant; a missing source position
    /// gives a missing result position.
    pub fn equal_scala(&self, elem: &T) -> (out: UList<bool>)
        requires
            self.wf(),
        ensures
            out.wf(),
            out@.len() == self@.len(),
            forall|i: int| 0 <= i < self@.len() ==> out@[i] == scala_eq(self@[i], elem.m()),
    {
        self.cmp_eq_scala_with(elem, false)
    }

    /// Elementwise inequality against one constant; a missing source
    /// position gives a missing result position.
    pub fn not_equal_scala(&self, elem: &T) -> (out: UList<bool>)
        requires
            self.wf(),
        ensures
            out.wf(),
            out@.len() == self@.len(),
            forall|i: int| 0 <= i < self@.len() ==> out@[i] == scala_ne(self@[i], elem.m()),
    {
        self.cmp_eq_scala_with(elem, true)
    }

    /// Whole-list equality: `Some(false)` on a length mismatch or a
    /// differing non-missing pair, `None` when nothing differs but some
    /// position is missing on either side, `Some(true)` otherwise.
    pub fn all_equal(&self, other: &Self) -> (r: Option<bool>)
        requires
            self.wf(),
            other.wf(),
        ensures
            r == all_equal_m(self@, other@),
    {
        let n = self.values.len();
        if n != other.values.len() {
            return Some(false);
        }
        let mut seen_none = false;
        let mut k: usize = 0;
        while k < n
            invariant
                self.wf(),
                other.wf(),
                n == self.values@.len(),
                n == self.na@.len(),
                n == other.values@.len(),
                n == other.na@.len(),
                k <= n,
                forall|i: int|
                    0 <= i < k ==> !(self@[i] is Some && other@[i] is Some && #[trigger] self@[i]
                        != #[trigger] other@[i]),
                seen_none == exists|i: int|
                    0 <= i < k && (#[trigger] self@[i] is None || #[trigger] other@[i] is None),
            decreases n - k,
        {
            if self.na[k] || other.na[k] {
                proof {
                    assert(self@[k as int] is None || other@[k as int] is None);
                }
                seen_none = true;
            } else if !self.values[k].eq_elem(&other.values[k]) {
                proof {
                    assert(self@[k as int] is Some && other@[k as int] is Some && self@[k as int]
                        != other@[k as int]);
                }
                return Some(false);
            }
            k = k + 1;
        }
        if seen_none {
            None
        } else {
            Some(true)
        }
    }

    /// Substitutes values pointwise: every position whose optional value
    /// equals `old_elem` becomes `new_elem`; every other position is kept.
    /// With `old_elem == None` this fills the missing positions; with
    /// `new_elem == None` it marks the matching positions missing.
    pub fn replace(&mut self, old_elem: Option<T>, new_elem: Option<T>)
        requires
            old(self).wf(),
        ensures
            final(self).wf(),
            final(self)@.len() == old(self)@.len(),
            forall|i: int|
                0 <= i < old(self)@.len() ==> final(self)@[i] == (if old(self)@[i] == opt_m(
                    old_elem,
                ) {
                    opt_m(new_elem)
                } else {
                    (#[trigger] old(self)@[i])
                }),
    {
        let n = self.values.len();
        let ghost orig = self@;
        let ghost om = opt_m(old_elem);
        let ghost nm = opt_m(new_elem);
        match (&old_elem, &new_elem) {
            (Some(o), Some(nv)) => {
                let mut k: usize = 0;
                while k < n
                    invariant
                        self.wf(),
                        n == self.values@.len(),
                        n == self.na@.len(),
                        k <= n,
                        o.m() == om->0,
                        nv.m() == nm->0,
                        om is Some,
                        nm is Some,
                        orig.len() == n,
                        self@.len() == n,
                        forall|i: int|
                            #![trigger self.na@[i]]
                            0 <= i < k ==> self@[i] == (if orig[i] == om {
                                nm
                            } else {
                                orig[i]
                            }),
                        forall|i: int| #![trigger self.na@[i]] k <= i < n ==> self@[i] == orig[i],
                    decreases n - k,
                {
                    if !self.na[k] && self.values[k].eq_elem(o) {
                        self.values[k] = nv.clone_elem();
                    }
                    k = k + 1;
                }
            }
            (Some(o), None) => {
                let mut k: usize = 0;
                while k < n
                    invariant
                        self.wf(),
                        n == self.values@.len(),
                        n == self.na@.len(),
                        k <= n,
                        o.m() == om->0,
                        om is Some,
                        nm is None,
                        orig.len() == n,
                        self@.len() == n,
                        forall|i: int|
                            #![trigger self.na@[i]]
                            0 <= i < k ==> self@[i] == (if orig[i] == om {
                                nm
                            } else {
                                orig[i]
                            }),
                        forall|i: int| #![trigger self.na@[i]] k <= i < n ==> self@[i] == orig[i],
                    decreases n - k,
                {
                    if !self.na[k] && self.values[k].eq_elem(o) {
                        self.values[k] = T::na();
                        self.na[k] = true;
                    }
                    k = k + 1;
                }
            }
            (None, Some(nv)) => {
                let mut k: usize = 0;
                while k < n
                    invariant
                        self.wf(),
                        n == self.values@.len(),
                        n == self.na@.len(),
                        k <= n,
                        nv.m() == nm->0,
                        om is None,
                        nm is Some,
                        orig.len() == n,
                        self@.len() == n,
                        forall|i: int|
                            #![trigger self.na@[i]]
                            0 <= i < k ==> self@[i] == (if orig[i] == om {
                                nm
                            } else {
                                orig[i]
                            }),
                        forall|i: int| #![trigger self.na@[i]] k <= i < n ==> self@[i] == orig[i],
                    decreases n - k,
                {
                    if self.na[k] {
                        self.values[k] = nv.clone_elem();
                        self.na[k] = false;
                    }
                    k = k + 1;
                }
            }
            (None, None) => {}
        }
    }

    /// A list of `size` copies of one optional value.
    pub fn repeat(elem: Option<T>, size: usize) -> (r: Self)
        ensures
            r.wf(),
            r@.len() == size,
            forall|i: int| 0 <= i < size ==> r@[i] == opt_m(elem),
    {
        let mut values: Vec<T> = Vec::new();
        let mut na: Vec<bool> = Vec::new();
        let mut k: usize = 0;
        while k < size
            invariant
                k <= size,
                values@.len() == k,
                na@.len() == k,
                forall|i: int|
                    0 <= i < k && na@[i] ==> (#[trigger] values@[i].m()) == T::na_m(),
                forall|i: int|
                    #![trigger na@[i]]
                    0 <= i < k ==> (if na@[i] {
                        None
                    } else {
                        Some(values@[i].m())
                    }) == opt_m(elem),
            decreases size - k,
        {
            match &elem {
                Some(x) => {
                    values.push(x.clone_elem());
                    na.push(false);
                }
                None => {
                    values.push(T::na());
                    na.push(true);
                }
            }
            proof {
                assert((if na@[k as int] {
                    None
                } else {
                    Some(values@[k as int].m())
                }) == opt_m(elem));
            }
            k = k + 1;
        }
        UList { values, na }
    }

    /// Builds a list from a buffer and a set of positions to mark missing;
    /// a listed position that is not below the buffer's length is ignored.
    pub fn new(values: Vec<T>, na_indexes: Vec<usize>) -> (r: Self)
        ensures
            r.wf(),
            r@.len() == values@.len(),
            forall|i: int|
                0 <= i < values@.len() ==> #[trigger] r@[i] == (if na_indexes@.contains(
                    i as usize,
                ) {
                    None
                } else {
                    Some(values@[i].m())
                }),
    {
        let n = values.len();
        let p = na_indexes.len();
        let ghost orig_values = values@;
        let mut values = values;
        let mut na: Vec<bool> = Vec::new();
        let mut k: usize = 0;
        while k < n
            invariant
                k <= n,
                na@.len() == k,
                forall|i: int| 0 <= i < k ==> !(#[trigger] na@[i]),
            decreases n - k,
        {
            na.push(false);
            k = k + 1;
        }
        let mut j: usize = 0;
        while j < p
            invariant
                p == na_indexes@.len(),
                n == values@.len(),
                n == na@.len(),
                n == orig_values.len(),
                j <= p,
                forall|i: int|
                    #![trigger na@[i]]
                    0 <= i < n ==> (na@[i] <==> exists|t: int|
                        0 <= t < j && na_indexes@[t] == i),
                forall|i: int|
                    #![trigger na@[i]]
                    0 <= i < n ==> (if na@[i] {
                        values@[i].m() == T::na_m()
                    } else {
                        values@[i] == orig_values[i]
                    }),
            decreases p - j,
        {
            let idx = na_indexes[j];
            if idx < n {
                values[idx] = T::na();
                na[idx] = true;
            }
            proof {
                assert forall|i: int| 0 <= i < n implies (na@[i] <==> exists|t: int|
                    0 <= t < j + 1 && na_indexes@[t] == i) by {
                    if na@[i] {
                        if i == idx && idx < n {
                            assert(na_indexes@[j as int] == i);
                        }
                    }
                    if exists|t: int| 0 <= t < j + 1 && na_indexes@[t] == i {
                        let t = choose|t: int| 0 <= t < j + 1 && na_indexes@[t] == i;
                        if t < j {
                            assert(exists|t2: int| 0 <= t2 < j && na_indexes@[t2] == i);
                        }
                    }
                }
            }
            j = j + 1;
        }
        let r = UList { values, na };
        proof {
            assert forall|i: int| 0 <= i < n implies #[trigger] r@[i] == (if na_indexes@.contains(
                i as usize,
            ) {
                None
            } else {
                Some(orig_values[i].m())
            }) by {
                if na_indexes@.contains(i as usize) {
                    let t = choose|t: int| 0 <= t < p && na_indexes@[t] == i as usize;
                    assert(r.na@[i]);
                }
            }
        }
        r
    }

    /// A list of `size` positions cycling through the given values in
    /// order, none of them missing; with no values to cycle the result is
    /// empty.
    pub fn cycle(v: &Vec<T>, size: usize) -> (r: Self)
        ensures
            r.wf(),
            v@.len() == 0 ==> r@.len() == 0,
            v@.len() > 0 ==> r@.len() == size && forall|i: int|
                0 <= i < size ==> #[trigger] r@[i] == Some(v@[i % (v@.len() as int)].m()),
    {
        let n = v.len();
        let mut values: Vec<T> = Vec::new();
        let mut na: Vec<bool> = Vec::new();
        if n == 0 {
            return UList { values, na };
        }
        let mut k: usize = 0;
        let mut j: usize = 0;
        while k < size
            invariant
                n == v@.len(),
                0 < n,
                k <= size,
                j < n,
                j == k as int % (n as int),
                values@.len() == k,
                na@.len() == k,
                forall|i: int| 0 <= i < k ==> !(#[trigger] na@[i]),
                forall|i: int|
                    #![trigger values@[i]]
                    0 <= i < k ==> values@[i].m() == v@[i % (n as int)].m(),
            decreases size - k,
        {
            values.push(v[j].clone_elem());
            na.push(false);
            proof {
                vstd::arithmetic::div_mod::lemma_fundamental_div_mod(k as int, n as int);
                let q = k as int / n as int;
                if j + 1 < n {
                    vstd::arithmetic::div_mod::lemma_fundamental_div_mod_converse(
                        k + 1,
                        n as int,
                        q,
                        j + 1,
                    );
                } else {
                    assert((q + 1) * (n as int) == q * (n as int) + n) by (nonlinear_arith);
                    vstd::arithmetic::div_mod::lemma_fundamental_div_mod_converse(
                        k + 1,
                        n as int,
                        q + 1,
                        0,
                    );
                }
            }
            j = j + 1;
            if j == n {
                j = 0;
            }
            k = k + 1;
        }
        let r = UList { values, na };
        proof {
            assert forall|i: int| 0 <= i < size implies #[trigger] r@[i] == Some(
                v@[i % (n as int)].m(),
            ) by {
                assert(!r.na@[i]);
                assert(r.values@[i].m() == v@[i % (n as int)].m());
            }
        }
        r
    }

    /// Keeps the positions where a same-length, missing-free boolean mask
    /// is true, in their original order. Fails with `SizeMismatch` when the
    /// lengths differ, with `ContainsMissing` when the mask has a missing
    /// position.
    pub fn filter(&self, condition: &UList<bool>) -> (r: Result<Self, UListError>)
        requires
            self.wf(),
            condition.wf(),
        ensures
            match r {
                Ok(out) => {
                    &&& self@.len() == condition@.len()
                    &&& !has_none(condition@)
                    &&& out.wf()
                    &&& out@ == masked(self@, condition@)
                },
                Err(e) => (e == UListError::SizeMismatch && self@.len() != condition@.len()) || (e
                    == UListError::ContainsMissing && self@.len() == condition@.len() && has_none(
                    condition@,
                )),
            },
    {
        let n = self.values.len();
        if n != condition.values.len() {
            return Err(UListError::SizeMismatch);
        }
        if condition.has_na() {
            return Err(UListError::ContainsMissing);
        }
        let mut values: Vec<T> = Vec::new();
        let mut na: Vec<bool> = Vec::new();
        let mut k: usize = 0;
        while k < n
            invariant
                self.wf(),
                condition.wf(),
                n == self.values@.len(),
                n == self.na@.len(),
                n == condition.values@.len(),
                n == condition.na@.len(),
                !has_none(condition@),
                k <= n,
                values@.len() == na@.len(),
                forall|i: int|
                    #![trigger na@[i]]
                    0 <= i < na@.len() ==> (na@[i] ==> values@[i].m() == T::na_m()),
                Seq::new(
                    values@.len(),
                    |i: int|
                        if na@[i] {
                            None
                        } else {
                            Some(values@[i].m())
                        },
                ) == masked(self@.take(k as int), condition@.take(k as int)),
            decreases n - k,
        {
            let ghost prev = Seq::new(
                values@.len(),
                |i: int|
                    if na@[i] {
                        None
                    } else {
                        Some(values@[i].m())
                    },
            );
            proof {
                assert(self@.take(k + 1).drop_last() =~= self@.take(k as int));
                assert(condition@.take(k + 1).drop_last() =~= condition@.take(k as int));
                assert(condition@[k as int] is Some);
            }
            if condition.values[k] {
                values.push(self.values[k].clone_elem());
                na.push(self.na[k]);
                proof {
                    assert(Seq::new(
                        values@.len(),
                        |i: int|
                            if na@[i] {
                                None
                            } else {
                                Some(values@[i].m())
                            },
                    ) =~= prev.push(self@[k as int]));
                }
            } else {
                proof {
                    assert(condition@[k as int] == Some(false));
                }
            }
            k = k + 1;
        }
        proof {
            assert(self@.take(n as int) =~= self@);
            assert(condition@.take(n as int) =~= condition@);
        }
        let out = UList { values, na };
        proof {
            assert(out@ =~= masked(self@, condition@));
        }
        Ok(out)
    }

    /// Gathers the positions named by an index list, in that order; output
    /// position `k` is missing exactly when source position `indexes[k]` is.
    /// Fails with `IndexOutOfRange`, producing nothing, when any named
    /// position is not below the size.
    pub fn get_by_indexes(&self, indexes: &crate::IndexList) -> (r: Result<Self, UListError>)
        requires
            self.wf(),
        ensures
            match r {
                Ok(out) => {
                    &&& forall|k: int| 0 <= k < indexes@.len() ==> #[trigger] indexes@[k] < self@.len()
                    &&& out.wf()
                    &&& out@.len() == indexes@.len()
                    &&& forall|k: int|
                        0 <= k < indexes@.len() ==> #[trigger] out@[k] == self@[indexes@[k] as int]
                },
                Err(e) => e == UListError::IndexOutOfRange && exists|k: int|
                    0 <= k < indexes@.len() && #[trigger] indexes@[k] >= self@.len(),
            },
    {
        let n = self.values.len();
        let idx = indexes.values();
        let p = idx.len();
        let mut k: usize = 0;
        while k < p
            invariant
                p == idx@.len(),
                idx@ == indexes@,
                n == self@.len(),
                k <= p,
                forall|i: int| 0 <= i < k ==> #[trigger] idx@[i] < n,
            decreases p - k,
        {
            if idx[k] >= n {
                return Err(UListError::IndexOutOfRange);
            }
            k = k + 1;
        }
        let mut values: Vec<T> = Vec::new();
        let mut na: Vec<bool> = Vec::new();
        let mut k: usize = 0;
        while k < p
            invariant
                self.wf(),
                p == idx@.len(),
                idx@ == indexes@,
                n == self@.len(),
                n == self.values@.len(),
                n == self.na@.len(),
                forall|i: int| 0 <= i < p ==> #[trigger] idx@[i] < n,
                k <= p,
                values@.len() == k,
                na@.len() == k,
                forall|i: int|
                    #![trigger na@[i]]
                    0 <= i < k ==> (na@[i] ==> values@[i].m() == T::na_m()),
                forall|i: int|
                    #![trigger na@[i]]
                    0 <= i < k ==> (if na@[i] {
                        None
                    } else {
                        Some(values@[i].m())
                    }) == self@[idx@[i] as int],
            decreases p - k,
        {
            let j = idx[k];
            values.push(self.values[j].clone_elem());
            na.push(self.na[j]);
            k = k + 1;
        }
        let out = UList { values, na };
        proof {
            assert forall|k: int| 0 <= k < indexes@.len() implies #[trigger] out@[k]
                == self@[indexes@[k] as int] by {}
        }
        Ok(out)
    }

    /// A deep copy: same values, same missing positions.
    pub fn copy(&self) -> (r: Self)
        requires
            self.wf(),
        ensures
            r.wf(),
            r@ == self@,
    {
        let n = self.values.len();
        let mut values: Vec<T> = Vec::new();
        let mut na: Vec<bool> = Vec::new();
        let mut k: usize = 0;
        while k < n
            invariant
                n == self.values@.len(),
                n == self.na@.len(),
                k <= n,
                values@.len() == k,
                na@.len() == k,
                forall|i: int| 0 <= i < k ==> na@[i] == self.na@[i],
                forall|i: int|
                    0 <= i < k ==> (#[trigger] values@[i].m()) == self.values@[i].m(),
            decreases n - k,
        {
            values.push(self.values[k].clone_elem());
            na.push(self.na[k]);
            k = k + 1;
        }
        let r = UList { values, na };
        proof {
            assert(r@ =~= self@);
        }
        r
    }

    /// Materializes the list as one optional value per position, `None` at
    /// every missing position.
    pub fn to_list(&self) -> (r: Vec<Option<T>>)
        requires
            self.wf(),
        ensures
            r@.len() == self@.len(),
            forall|i: int| 0 <= i < r@.len() ==> opt_m(#[trigger] r@[i]) == self@[i],
    {
        let n = self.values.len();
        let mut r: Vec<Option<T>> = Vec::new();
        let mut k: usize = 0;
        while k < n
            invariant
                n == self.values@.len(),
                n == self.na@.len(),
                k <= n,
                r@.len() == k,
                forall|i: int| 0 <= i < k ==> opt_m(#[trigger] r@[i]) == self@[i],
            decreases n - k,
        {
            if self.na[k] {
                r.push(None);
            } else {
                r.push(Some(self.values[k].clone_elem()));
            }
            k = k + 1;
        }
        r
    }

    /// Round trip: materializing the list as optional values and rebuilding
    /// a list from them reproduces the abstract value exactly.
    pub fn rebuilt(&self) -> (r: Self)
        requires
            self.wf(),
        ensures
            r.wf(),
            r@ == self@,
    {
        let opts = self.to_list();
        let r = UList::from_options(opts);
        proof {
            assert forall|i: int| 0 <= i < self@.len() implies r@[i] == self@[i] by {
                assert(opt_m(opts@[i]) == self@[i]);
                assert(r@[i] == opt_m(opts@[i]));
            }
            assert(r@ =~= self@);
        }
        r
    }

    /// Concatenation: the other list's positions follow this list's, missing
    /// marks kept at their shifted indices.
    pub fn union_all(&self, other: &Self) -> (r: Self)
        requires
            self.wf(),
            other.wf(),
        ensures
            r.wf(),
            r@ == self@ + other@,
    {
        let mut r = self.copy();
        let n = other.values.len();
        let mut k: usize = 0;
        while k < n
            invariant
                n == other.values@.len(),
                n == other.na@.len(),
                other.wf(),
                k <= n,
                r.wf(),
                r@ == self@ + other@.take(k as int),
            decreases n - k,
        {
            let elem = if other.na[k] {
                None
            } else {
                Some(other.values[k].clone_elem())
            };
            r.append(elem);
            proof {
                assert(r@ =~= self@ + other@.take(k + 1));
            }
            k = k + 1;
        }
        proof {
            assert(self@ + other@.take(n as int) =~= self@ + other@);
        }
        r
    }
}

} // verus!
