//! A typed, null-aware columnar vector library.
//!
//! Each list type stores a dense buffer of values together with a mask of
//! positions that hold no logical value ("missing"). All operations keep the
//! buffer and the mask consistent and propagate missing positions according
//! to the rules stated in each function's contract.

use vstd::prelude::*;

pub mod elem;
pub mod index_list;
pub mod ingest;
pub mod list;
pub mod text;

pub use elem::{Elem, NumElem};
pub use index_list::IndexList;
pub use ingest::{from_text_bool, from_text_i32, from_text_i64, from_text_string};
pub use list::select::{select, select_bool, select_int, select_string};
pub use list::UList;

verus! {

/// The failures an operation can report. Every operation either fully
/// succeeds or fails with one of these without mutating its inputs.
#[derive(Clone, Copy, Debug, PartialEq, Eq, Structural)]
pub enum UListError {
    /// A positional access, assignment or gather index was >= the size.
    IndexOutOfRange,
    /// An elementwise operation received arrays of unequal length.
    SizeMismatch,
    /// A missing value appeared where none is permitted (filter mask,
    /// selection conditions).
    ContainsMissing,
    /// A reduction was requested on an array with no non-missing position.
    AllMissing,
    /// `pop` was requested on an empty array.
    EmptyCollection,
    /// A non-missing textual value failed to convert to the target type.
    ParseError,
}

/// Nullable lists of booleans.
pub type BooleanList = UList<bool>;

/// Nullable lists of 32-bit integers.
pub type IntegerList32 = UList<i32>;

/// Nullable lists of 64-bit integers.
pub type IntegerList64 = UList<i64>;

/// Nullable lists of strings.
pub type StringList = UList<String>;

} // verus!
