//! Schema-driven ingestion of raw text cells into typed lists.
//!
//! An empty cell always maps to a missing position, whatever the type; a
//! non-empty cell that fails to parse is a hard error, never silently
//! coerced to missing.

use vstd::prelude::*;

use crate::list::UList;
use crate::text::{bool_text_val, int_text_val, is_int_text, parse_bool, parse_i32, parse_i64};
use crate::UListError;

verus! {

/// Builds a boolean list out of text cells: an empty cell is missing, any
/// other cell must be canonical boolean text. Fails with `ParseError` when
/// a non-empty cell is not.
pub fn from_text_bool(cells: &Vec<String>) -> (r: Result<UList<bool>, UListError>)
    ensures
        match r {
            Ok(out) => {
                &&& out.wf()
                &&& out@.len() == cells@.len()
                &&& forall|i: int|
                    0 <= i < cells@.len() ==> #[trigger] out@[i] == (if cells@[i]@.len() == 0 {
                        None
                    } else {
                        bool_text_val(cells@[i]@)
                    })
                &&& forall|i: int|
                    0 <= i < cells@.len() && (#[trigger] cells@[i])@.len() > 0 ==> bool_text_val(
                        cells@[i]@,
                    ) is Some
            },
            Err(e) => e == UListError::ParseError && exists|i: int|
                0 <= i < cells@.len() && (#[trigger] cells@[i])@.len() > 0 && bool_text_val(
                    cells@[i]@,
                ) is None,
        },
{
    let n = cells.len();
    let mut opts: Vec<Option<bool>> = Vec::new();
    let mut k: usize = 0;
    while k < n
        invariant
            n == cells@.len(),
            k <= n,
            opts@.len() == k,
            forall|i: int|
                0 <= i < k ==> #[trigger] opts@[i] == (if cells@[i]@.len() == 0 {
                    None
                } else {
                    bool_text_val(cells@[i]@)
                }),
            forall|i: int|
                0 <= i < k && (#[trigger] cells@[i])@.len() > 0 ==> bool_text_val(
                    cells@[i]@,
                ) is Some,
        decreases n - k,
    {
        let cell = cells[k].as_str();
        if cell.unicode_len() == 0 {
            opts.push(None);
        } else {
            match parse_bool(cell) {
                Ok(b) => {
                    opts.push(Some(b));
                }
                Err(e) => {
                    return Err(e);
                }
            }
        }
        k = k + 1;
    }
    let out = UList::from_options(opts);
    proof {
        assert forall|i: int| 0 <= i < cells@.len() implies #[trigger] out@[i] == (if cells@[
            i]@.len() == 0 {
            None
        } else {
            bool_text_val(cells@[i]@)
        }) by {
            assert(out@[i] == crate::elem::opt_m(opts@[i]));
        }
    }
    Ok(out)
}

/// Builds a 32-bit integer list out of text cells: an empty cell is
/// missing, any other cell must be integer text that fits. Fails with
/// `ParseError` when a non-empty cell is not.
pub fn from_text_i32(cells: &Vec<String>) -> (r: Result<UList<i32>, UListError>)
    ensures
        match r {
            Ok(out) => {
                &&& out.wf()
                &&& out@.len() == cells@.len()
                &&& forall|i: int|
                    0 <= i < cells@.len() ==> #[trigger] out@[i] == (if cells@[i]@.len() == 0 {
                        None
                    } else {
                        Some(int_text_val(cells@[i]@))
                    })
                &&& forall|i: int|
                    0 <= i < cells@.len() && (#[trigger] cells@[i])@.len() > 0 ==> is_int_text(
                        cells@[i]@,
                    ) && i32::MIN <= int_text_val(cells@[i]@) <= i32::MAX
            },
            Err(e) => e == UListError::ParseError && exists|i: int|
                0 <= i < cells@.len() && (#[trigger] cells@[i])@.len() > 0 && (!is_int_text(
                    cells@[i]@,
                ) || int_text_val(cells@[i]@) > i32::MAX as int || int_text_val(cells@[i]@)
                    < i32::MIN as int),
        },
{
    let n = cells.len();
    let mut opts: Vec<Option<i32>> = Vec::new();
    let mut k: usize = 0;
    while k < n
        invariant
            n == cells@.len(),
            k <= n,
            opts@.len() == k,
            forall|i: int|
                0 <= i < k ==> #[trigger] crate::elem::opt_m(opts@[i]) == (if cells@[i]@.len()
                    == 0 {
                    None
                } else {
                    Some(int_text_val(cells@[i]@))
                }),
            forall|i: int|
                0 <= i < k && (#[trigger] cells@[i])@.len() > 0 ==> is_int_text(cells@[i]@)
                    && i32::MIN <= int_text_val(cells@[i]@) <= i32::MAX,
        decreases n - k,
    {
        let cell = cells[k].as_str();
        if cell.unicode_len() == 0 {
            opts.push(None);
        } else {
            match parse_i32(cell) {
                Ok(v) => {
                    opts.push(Some(v));
                }
                Err(e) => {
                    return Err(e);
                }
            }
        }
        k = k + 1;
    }
    let out = UList::from_options(opts);
    proof {
        assert forall|i: int| 0 <= i < cells@.len() implies #[trigger] out@[i] == (if cells@[
            i]@.len() == 0 {
            None
        } else {
            Some(int_text_val(cells@[i]@))
        }) by {
            assert(out@[i] == crate::elem::opt_m(opts@[i]));
        }
    }
    Ok(out)
}

/// Builds a 64-bit integer list out of text cells: an empty cell is
/// missing, any other cell must be integer text that fits. Fails with
/// `ParseError` when a non-empty cell is not.
pub fn from_text_i64(cells: &Vec<String>) -> (r: Result<UList<i64>, UListError>)
    ensures
        match r {
            Ok(out) => {
                &&& out.wf()
                &&& out@.len() == cells@.len()
                &&& forall|i: int|
                    0 <= i < cells@.len() ==> #[trigger] out@[i] == (if cells@[i]@.len() == 0 {
                        None
                    } else {
                        Some(int_text_val(cells@[i]@))
                    })
                &&& forall|i: int|
                    0 <= i < cells@.len() && (#[trigger] cells@[i])@.len() > 0 ==> is_int_text(
                        cells@[i]@,
                    ) && i64::MIN <= int_text_val(cells@[i]@) <= i64::MAX
            },
            Err(e) => e == UListError::ParseError && exists|i: int|
                0 <= i < cells@.len() && (#[trigger] cells@[i])@.len() > 0 && (!is_int_text(
                    cells@[i]@,
                ) || int_text_val(cells@[i]@) > i64::MAX as int || int_text_val(cells@[i]@)
                    < i64::MIN as int),
        },
{
    let n = cells.len();
    let mut opts: Vec<Option<i64>> = Vec::new();
    let mut k: usize = 0;
    while k < n
        invariant
            n == cells@.len(),
            k <= n,
            opts@.len() == k,
            forall|i: int|
                0 <= i < k ==> #[trigger] crate::elem::opt_m(opts@[i]) == (if cells@[i]@.len()
                    == 0 {
                    None
                } else {
                    Some(int_text_val(cells@[i]@))
                }),
            forall|i: int|
                0 <= i < k && (#[trigger] cells@[i])@.len() > 0 ==> is_int_text(cells@[i]@)
                    && i64::MIN <= int_text_val(cells@[i]@) <= i64::MAX,
        decreases n - k,
    {
        let cell = cells[k].as_str();
        if cell.unicode_len() == 0 {
            opts.push(None);
        } else {
            match parse_i64(cell) {
                Ok(v) => {
                    opts.push(Some(v));
                }
                Err(e) => {
                    return Err(e);
                }
            }
        }
        k = k + 1;
    }
    let out = UList::from_options(opts);
    proof {
        assert forall|i: int| 0 <= i < cells@.len() implies #[trigger] out@[i] == (if cells@[
            i]@.len() == 0 {
            None
        } else {
            Some(int_text_val(cells@[i]@))
        }) by {
            assert(out@[i] == crate::elem::opt_m(opts@[i]));
        }
    }
    Ok(out)
}

/// Builds a string list out of text cells: an empty cell is missing, any
/// other cell is taken as it stands.
pub fn from_text_string(cells: &Vec<String>) -> (out: UList<String>)
    ensures
        out.wf(),
        out@.len() == cells@.len(),
        forall|i: int|
            0 <= i < cells@.len() ==> #[trigger] out@[i] == (if cells@[i]@.len() == 0 {
                None
            } else {
                Some(cells@[i]@)
            }),
{
    let n = cells.len();
    let mut opts: Vec<Option<String>> = Vec::new();
    let mut k: usize = 0;
    while k < n
        invariant
            n == cells@.len(),
            k <= n,
            opts@.len() == k,
            forall|i: int|
                0 <= i < k ==> #[trigger] crate::elem::opt_m(opts@[i]) == (if cells@[i]@.len()
                    == 0 {
                    None
                } else {
                    Some(cells@[i]@)
                }),
        decreases n - k,
    {
        let cell = &cells[k];
        if cell.as_str().unicode_len() == 0 {
            opts.push(None);
        } else {
            opts.push(Some(cell.clone()));
        }
        k = k + 1;
    }
    let out = UList::from_options(opts);
    proof {
        assert forall|i: int| 0 <= i < cells@.len() implies #[trigger] out@[i] == (if cells@[
            i]@.len() == 0 {
            None
        } else {
            Some(cells@[i]@)
        }) by {
            assert(out@[i] == crate::elem::opt_m(opts@[i]));
        }
    }
    out
}

} // verus!
