//! String-list predicates: substring, prefix and suffix tests.
//!
//! Each produces a plain boolean list with no missing positions: a missing
//! source position yields a stored `false`, as the sentinel is never read
//! as text.

use vstd::prelude::*;

use crate::list::UList;
use crate::text::{has_prefix, has_substring, has_suffix, str_contains, str_ends_with,
    str_starts_with};

verus! {

impl UList<String> {
    /// Shared body of the three text predicates; `mode` picks substring,
    /// prefix or suffix.
    fn text_pred(&self, elem: &str, mode: u8) -> (out: UList<bool>)
        requires
            self.wf(),
            mode < 3,
        ensures
            out.wf(),
            out@.len() == self@.len(),
            forall|i: int|
                0 <= i < self@.len() ==> #[trigger] out@[i] == Some(
                    match self@[i] {
                        Some(s) => if mode == 0 {
                            has_substring(s, elem@)
                        } else if mode == 1 {
                            has_prefix(s, elem@)
                        } else {
                            has_suffix(s, elem@)
                        },
                        None => false,
                    },
                ),
    {
        let n = self.values.len();
        let mut vals: Vec<bool> = Vec::new();
        let mut nas: Vec<bool> = Vec::new();
        let mut k: usize = 0;
        while k < n
            invariant
                self.wf(),
                n == self.values@.len(),
                n == self.na@.len(),
                mode < 3,
                k <= n,
                vals@.len() == k,
                nas@.len() == k,
                forall|i: int| 0 <= i < k ==> !(#[trigger] nas@[i]),
                forall|i: int|
                    #![trigger vals@[i]]
                    0 <= i < k ==> vals@[i] == (match self@[i] {
                        Some(s) => if mode == 0 {
                            has_substring(s, elem@)
                        } else if mode == 1 {
                            has_prefix(s, elem@)
                        } else {
                            has_suffix(s, elem@)
                        },
                        None => false,
                    }),
            decreases n - k,
        {
            if self.na[k] {
                vals.push(false);
                nas.push(false);
            } else {
                proof {
                    assert(self@[k as int] == Some(self.values@[k as int]@));
                }
                let s = self.values[k].as_str();
                let b = if mode == 0 {
                    str_contains(s, elem)
                } else if mode == 1 {
                    str_starts_with(s, elem)
                } else {
                    str_ends_with(s, elem)
                };
                vals.push(b);
                nas.push(false);
            }
            k = k + 1;
        }
        UList { values: vals, na: nas }
    }

    /// Whether each non-missing string contains the given text; a missing
    /// position yields `false`.
    pub fn contains(&self, elem: &str) -> (out: UList<bool>)
        requires
            self.wf(),
        ensures
            out.wf(),
            out@.len() == self@.len(),
            forall|i: int|
                0 <= i < self@.len() ==> #[trigger] out@[i] == Some(
                    match self@[i] {
                        Some(s) => has_substring(s, elem@),
                        None => false,
                    },
                ),
    {
        self.text_pred(elem, 0)
    }

    /// Whether each non-missing string starts with the given text; a
    /// missing position yields `false`.
    pub fn starts_with(&self, elem: &str) -> (out: UList<bool>)
        requires
            self.wf(),
        ensures
            out.wf(),
            out@.len() == self@.len(),
            forall|i: int|
                0 <= i < self@.len() ==> #[trigger] out@[i] == Some(
                    match self@[i] {
                        Some(s) => has_prefix(s, elem@),
                        None => false,
                    },
                ),
    {
        self.text_pred(elem, 1)
    }

    /// Whether each non-missing string ends with the given text; a missing
    /// position yields `false`.
    pub fn ends_with(&self, elem: &str) -> (out: UList<bool>)
        requires
            self.wf(),
        ensures
            out.wf(),
            out@.len() == self@.len(),
            forall|i: int|
                0 <= i < self@.len() ==> #[trigger] out@[i] == Some(
                    match self@[i] {
                        Some(s) => has_suffix(s, elem@),
                        None => false,
                    },
                ),
    {
        self.text_pred(elem, 2)
    }
}

} // verus!
