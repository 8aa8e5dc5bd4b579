//! Boolean-specific operations: three-valued logic, negation, whole-list
//! tests, counting, and conversion to an index list.

use vstd::prelude::*;

use crate::list::{has_none, UList};
use crate::IndexList;
use crate::UListError;

verus! {

/// Three-valued conjunction: a missing operand stands for "unknown", and
/// the result is missing only when the known operand does not decide it.
pub open spec fn kleene_and(a: Option<bool>, b: Option<bool>) -> Option<bool> {
    match (a, b) {
        (Some(x), Some(y)) => Some(x && y),
        (None, Some(y)) => if y {
            None
        } else {
            Some(false)
        },
        (Some(x), None) => if x {
            None
        } else {
            Some(false)
        },
        (None, None) => None,
    }
}

/// Three-valued disjunction: a missing operand stands for "unknown", and
/// the result is missing only when the known operand does not decide it.
pub open spec fn kleene_or(a: Option<bool>, b: Option<bool>) -> Option<bool> {
    match (a, b) {
        (Some(x), Some(y)) => Some(x || y),
        (None, Some(y)) => if y {
            Some(true)
        } else {
            None
        },
        (Some(x), None) => if x {
            Some(true)
        } else {
            None
        },
        (None, None) => None,
    }
}

/// What a whole-list conjunction reports: `Some(false)` as soon as some
/// position holds `false`, `None` when none does but some position is
/// missing, `Some(true)` otherwise.
pub open spec fn all_m(s: Seq<Option<bool>>) -> Option<bool> {
    if exists|i: int| 0 <= i < s.len() && s[i] == Some(false) {
        Some(false)
    } else if has_none(s) {
        None
    } else {
        Some(true)
    }
}

/// What a whole-list disjunction reports: `Some(true)` as soon as some
/// position holds `true`, `None` when none does but some position is
/// missing, `Some(false)` otherwise.
pub open spec fn any_m(s: Seq<Option<bool>>) -> Option<bool> {
    if exists|i: int| 0 <= i < s.len() && s[i] == Some(true) {
        Some(true)
    } else if has_none(s) {
        None
    } else {
        Some(false)
    }
}

/// How many positions hold `true`.
pub open spec fn count_true(s: Seq<Option<bool>>) -> nat
    decreases s.len(),
{
    if s.len() == 0 {
        0
    } else {
        count_true(s.drop_last()) + (if s.last() == Some(true) {
            1nat
        } else {
            0nat
        })
    }
}

/// The positions holding `true`, in increasing order.
pub open spec fn true_indices(s: Seq<Option<bool>>) -> Seq<usize>
    decreases s.len(),
{
    if s.len() == 0 {
        Seq::empty()
    } else {
        let p = true_indices(s.drop_last());
        if s.last() == Some(true) {
            p.push((s.len() - 1) as usize)
        } else {
            p
        }
    }
}

impl UList<bool> {
    /// Shared body of the two Kleene connectives; `conj` picks conjunction.
    fn kleene_with(&self, other: &Self, conj: bool) -> (r: Result<Self, UListError>)
        requires
            self.wf(),
            other.wf(),
        ensures
            match r {
                Ok(out) => {
                    &&& self@.len() == other@.len()
                    &&& out.wf()
                    &&& out@.len() == self@.len()
                    &&& forall|i: int|
                        0 <= i < self@.len() ==> #[trigger] out@[i] == (if conj {
                            kleene_and(self@[i], other@[i])
                        } else {
                            kleene_or(self@[i], other@[i])
                        })
                },
                Err(e) => e == UListError::SizeMismatch && self@.len() != other@.len(),
            },
    {
        let n = self.values.len();
        if n != other.values.len() {
            return Err(UListError::SizeMismatch);
        }
        let mut vals: Vec<bool> = Vec::new();
        let mut nas: Vec<bool> = Vec::new();
        let mut k: usize = 0;
        while k < n
            invariant
                self.wf(),
                other.wf(),
                n == self.values@.len(),
                n == self.na@.len(),
                n == other.values@.len(),
                n == other.na@.len(),
                k <= n,
                vals@.len() == k,
                nas@.len() == k,
                forall|i: int| 0 <= i < k && nas@[i] ==> !(#[trigger] vals@[i]),
                forall|i: int|
                    #![trigger nas@[i]]
                    0 <= i < k ==> (if nas@[i] {
                        None
                    } else {
                        Some(vals@[i])
                    }) == (if conj {
                        kleene_and(self@[i], other@[i])
                    } else {
                        kleene_or(self@[i], other@[i])
                    }),
            decreases n - k,
        {
            let a_na = self.na[k];
            let b_na = other.na[k];
            let a_v = self.values[k];
            let b_v = other.values[k];
            proof {
                if a_na {
                    assert(self@[k as int] is None);
                } else {
                    assert(self@[k as int] == Some(a_v));
                }
                if b_na {
                    assert(other@[k as int] is None);
                } else {
                    assert(other@[k as int] == Some(b_v));
                }
            }
            if !a_na && !b_na {
                vals.push(if conj {
                    a_v && b_v
                } else {
                    a_v || b_v
                });
                nas.push(false);
            } else {
                // at least one side unknown: the known side may decide
                let decided = if conj {
                    (!a_na && !a_v) || (!b_na && !b_v)
                } else {
                    (!a_na && a_v) || (!b_na && b_v)
                };
                if decided {
                    vals.push(!conj);
                    nas.push(false);
                } else {
                    vals.push(false);
                    nas.push(true);
                }
            }
            k = k + 1;
        }
        let out = UList { values: vals, na: nas };
        Ok(out)
    }

    /// Elementwise three-valued conjunction (Kleene logic): a missing
    /// operand beside `false` still gives `false`; beside `true` it gives a
    /// missing result. Fails with `SizeMismatch` when the lengths differ.
    pub fn and_(&self, other: &Self) -> (r: Result<Self, UListError>)
        requires
            self.wf(),
            other.wf(),
        ensures
            match r {
                Ok(out) => {
                    &&& self@.len() == other@.len()
                    &&& out.wf()
                    &&& out@.len() == self@.len()
                    &&& forall|i: int|
                        0 <= i < self@.len() ==> #[trigger] out@[i] == kleene_and(
                            self@[i],
                            other@[i],
                        )
                },
                Err(e) => e == UListError::SizeMismatch && self@.len() != other@.len(),
            },
    {
        self.kleene_with(other, true)
    }

    /// Elementwise three-valued disjunction (Kleene logic): a missing
    /// operand beside `true` still gives `true`; beside `false` it gives a
    /// missing result. Fails with `SizeMismatch` when the lengths differ.
    pub fn or_(&self, other: &Self) -> (r: Result<Self, UListError>)
        requires
            self.wf(),
            other.wf(),
        ensures
            match r {
                Ok(out) => {
                    &&& self@.len() == other@.len()
                    &&& out.wf()
                    &&& out@.len() == self@.len()
                    &&& forall|i: int|
                        0 <= i < self@.len() ==> #[trigger] out@[i] == kleene_or(
                            self@[i],
                            other@[i],
                        )
                },
                Err(e) => e == UListError::SizeMismatch && self@.len() != other@.len(),
            },
    {
        self.kleene_with(other, false)
    }

    /// Elementwise negation; missing positions stay missing.
    pub fn not_(&self) -> (out: Self)
        requires
            self.wf(),
        ensures
            out.wf(),
            out@.len() == self@.len(),
            forall|i: int|
                0 <= i < self@.len() ==> #[trigger] out@[i] == (match self@[i] {
                    Some(b) => Some(!b),
                    None => None,
                }),
    {
        let n = self.values.len();
        let mut vals: Vec<bool> = Vec::new();
        let mut nas: Vec<bool> = Vec::new();
        let mut k: usize = 0;
        while k < n
            invariant
                self.wf(),
                n == self.values@.len(),
                n == self.na@.len(),
                k <= n,
                vals@.len() == k,
                nas@.len() == k,
                forall|i: int| 0 <= i < k && nas@[i] ==> !(#[trigger] vals@[i]),
                forall|i: int|
                    #![trigger nas@[i]]
                    0 <= i < k ==> (if nas@[i] {
                        None
                    } else {
                        Some(vals@[i])
                    }) == (match self@[i] {
                        Some(b) => Some(!b),
                        None => None,
                    }),
            decreases n - k,
        {
            if self.na[k] {
                vals.push(false);
                nas.push(true);
            } else {
                vals.push(!self.values[k]);
                nas.push(false);
            }
            k = k + 1;
        }
        UList { values: vals, na: nas }
    }

    /// Whole-list conjunction: `Some(false)` as soon as some position holds
    /// `false`, `None` when none does but some position is missing,
    /// `Some(true)` otherwise.
    pub fn all(&self) -> (r: Option<bool>)
        requires
            self.wf(),
        ensures
            r == all_m(self@),
    {
        let n = self.values.len();
        let mut seen_none = false;
        let mut k: usize = 0;
        while k < n
            invariant
                self.wf(),
                n == self.values@.len(),
                n == self.na@.len(),
                k <= n,
                forall|i: int| 0 <= i < k ==> #[trigger] self@[i] != Some(false),
                seen_none == exists|i: int| 0 <= i < k && #[trigger] self@[i] is None,
            decreases n - k,
        {
            if self.na[k] {
                proof {
                    assert(self@[k as int] is None);
                }
                seen_none = true;
            } else if !self.values[k] {
                proof {
                    assert(self@[k as int] == Some(false));
                }
                return Some(false);
            }
            k = k + 1;
        }
        if seen_none {
            None
        } else {
            Some(true)
        }
    }

    /// Whole-list disjunction: `Some(true)` as soon as some position holds
    /// `true`, `None` when none does but some position is missing,
    /// `Some(false)` otherwise.
    pub fn any(&self) -> (r: Option<bool>)
        requires
            self.wf(),
        ensures
            r == any_m(self@),
    {
        let n = self.values.len();
        let mut seen_none = false;
        let mut k: usize = 0;
        while k < n
            invariant
                self.wf(),
                n == self.values@.len(),
                n == self.na@.len(),
                k <= n,
                forall|i: int| 0 <= i < k ==> #[trigger] self@[i] != Some(true),
                seen_none == exists|i: int| 0 <= i < k && #[trigger] self@[i] is None,
            decreases n - k,
        {
            if self.na[k] {
                proof {
                    assert(self@[k as int] is None);
                }
                seen_none = true;
            } else if self.values[k] {
                proof {
                    assert(self@[k as int] == Some(true));
                }
                return Some(true);
            }
            k = k + 1;
        }
        if seen_none {
            None
        } else {
            Some(false)
        }
    }

    /// How many positions hold `true`; missing positions do not count.
    pub fn sum(&self) -> (c: usize)
        requires
            self.wf(),
        ensures
            c == count_true(self@),
    {
        let n = self.values.len();
        let mut c: usize = 0;
        let mut k: usize = 0;
        while k < n
            invariant
                self.wf(),
                n == self.values@.len(),
                n == self.na@.len(),
                k <= n,
                c <= k,
                c == count_true(self@.take(k as int)),
            decreases n - k,
        {
            proof {
                assert(self@.take(k + 1).drop_last() =~= self@.take(k as int));
                assert(self@.take(k + 1).last() == self@[k as int]);
            }
            if !self.na[k] && self.values[k] {
                c = c + 1;
            }
            k = k + 1;
        }
        proof {
            assert(self@.take(n as int) =~= self@);
        }
        c
    }

    /// The positions holding `true`, in increasing order, as an index list;
    /// missing positions are not included.
    pub fn to_index(&self) -> (r: IndexList)
        requires
            self.wf(),
        ensures
            r@ == true_indices(self@),
    {
        let n = self.values.len();
        let mut vec: Vec<usize> = Vec::new();
        let mut k: usize = 0;
        while k < n
            invariant
                self.wf(),
                n == self.values@.len(),
                n == self.na@.len(),
                k <= n,
                vec@ == true_indices(self@.take(k as int)),
            decreases n - k,
        {
            proof {
                assert(self@.take(k + 1).drop_last() =~= self@.take(k as int));
                assert(self@.take(k + 1).last() == self@[k as int]);
                assert(self@.take(k + 1).len() == k + 1);
            }
            if !self.na[k] && self.values[k] {
                vec.push(k);
            }
            k = k + 1;
        }
        proof {
            assert(self@.take(n as int) =~= self@);
        }
        IndexList::new(vec)
    }
}

} // verus!
