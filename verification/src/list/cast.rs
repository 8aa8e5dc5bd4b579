//! The type coercion matrix: every list type casts to every other, with
//! missing positions mapping to missing positions. The sentinel is never
//! converted.

use vstd::prelude::*;

use crate::elem::Elem;
use crate::list::UList;
use crate::text::{
    bool_text, bool_text_val, dec_str, int_text_val, is_int_text, parse_bool, parse_i32,
    parse_i64, i64_to_dec_string, bool_to_string,
};
use crate::UListError;

verus! {

impl UList<bool> {
    /// Casts booleans to 32-bit integers: `true` becomes 1, `false` 0;
    /// missing positions stay missing.
    pub fn as_int32(&self) -> (out: UList<i32>)
        requires
            self.wf(),
        ensures
            out.wf(),
            out@.len() == self@.len(),
            forall|i: int|
                0 <= i < self@.len() ==> #[trigger] out@[i] == (match self@[i] {
                    Some(b) => Some(if b {
                        1int
                    } else {
                        0int
                    }),
                    None => None,
                }),
    {
        let n = self.values.len();
        let mut values: Vec<i32> = Vec::new();
        let mut na: Vec<bool> = Vec::new();
        let mut k: usize = 0;
        while k < n
            invariant
                self.wf(),
                n == self.values@.len(),
                n == self.na@.len(),
                k <= n,
                values@.len() == k,
                na@.len() == k,
                forall|i: int|
                    #![trigger na@[i]]
                    0 <= i < k ==> (na@[i] ==> values@[i] == 0i32),
                forall|i: int|
                    #![trigger na@[i]]
                    0 <= i < k ==> (if na@[i] {
                        None
                    } else {
                        Some(values@[i] as int)
                    }) == (match self@[i] {
                        Some(b) => Some(if b {
                            1int
                        } else {
                            0int
                        }),
                        None => None,
                    }),
            decreases n - k,
        {
            if self.na[k] {
                values.push(0);
                na.push(true);
            } else {
                values.push(if self.values[k] {
                    1
                } else {
                    0
                });
                na.push(false);
            }
            k = k + 1;
        }
        UList { values, na }
    }

    /// Casts booleans to 64-bit integers: `true` becomes 1, `false` 0;
    /// missing positions stay missing.
    pub fn as_int64(&self) -> (out: UList<i64>)
        requires
            self.wf(),
        ensures
            out.wf(),
            out@.len() == self@.len(),
            forall|i: int|
                0 <= i < self@.len() ==> #[trigger] out@[i] == (match self@[i] {
                    Some(b) => Some(if b {
                        1int
                    } else {
                        0int
                    }),
                    None => None,
                }),
    {
        let n = self.values.len();
        let mut values: Vec<i64> = Vec::new();
        let mut na: Vec<bool> = Vec::new();
        let mut k: usize = 0;
        while k < n
            invariant
                self.wf(),
                n == self.values@.len(),
                n == self.na@.len(),
                k <= n,
                values@.len() == k,
                na@.len() == k,
                forall|i: int|
                    #![trigger na@[i]]
                    0 <= i < k ==> (na@[i] ==> values@[i] == 0i64),
                forall|i: int|
                    #![trigger na@[i]]
                    0 <= i < k ==> (if na@[i] {
                        None
                    } else {
                        Some(values@[i] as int)
                    }) == (match self@[i] {
                        Some(b) => Some(if b {
                            1int
                        } else {
                            0int
                        }),
                        None => None,
                    }),
            decreases n - k,
        {
            if self.na[k] {
                values.push(0);
                na.push(true);
            } else {
                values.push(if self.values[k] {
                    1
                } else {
                    0
                });
                na.push(false);
            }
            k = k + 1;
        }
        UList { values, na }
    }

    /// Casts booleans to their canonical text; missing positions stay
    /// missing.
    pub fn as_str(&self) -> (out: UList<String>)
        requires
            self.wf(),
        ensures
            out.wf(),
            out@.len() == self@.len(),
            forall|i: int|
                0 <= i < self@.len() ==> #[trigger] out@[i] == (match self@[i] {
                    Some(b) => Some(bool_text(b)),
                    None => None,
                }),
    {
        let n = self.values.len();
        let mut values: Vec<String> = Vec::new();
        let mut na: Vec<bool> = Vec::new();
        let mut k: usize = 0;
        while k < n
            invariant
                self.wf(),
                n == self.values@.len(),
                n == self.na@.len(),
                k <= n,
                values@.len() == k,
                na@.len() == k,
                forall|i: int|
                    #![trigger na@[i]]
                    0 <= i < k ==> (na@[i] ==> values@[i]@ == Seq::<char>::empty()),
                forall|i: int|
                    #![trigger na@[i]]
                    0 <= i < k ==> (if na@[i] {
                        None
                    } else {
                        Some(values@[i]@)
                    }) == (match self@[i] {
                        Some(b) => Some(bool_text(b)),
                        None => None,
                    }),
            decreases n - k,
        {
            if self.na[k] {
                values.push(String::new());
                na.push(true);
            } else {
                values.push(bool_to_string(self.values[k]));
                na.push(false);
            }
            k = k + 1;
        }
        UList { values, na }
    }
}

impl UList<i32> {
    /// Casts 32-bit integers to booleans: nonzero becomes `true`; missing
    /// positions stay missing.
    pub fn as_bool(&self) -> (out: UList<bool>)
        requires
            self.wf(),
        ensures
            out.wf(),
            out@.len() == self@.len(),
            forall|i: int|
                0 <= i < self@.len() ==> #[trigger] out@[i] == (match self@[i] {
                    Some(a) => Some(a != 0),
                    None => None,
                }),
    {
        let n = self.values.len();
        let mut values: Vec<bool> = Vec::new();
        let mut na: Vec<bool> = Vec::new();
        let mut k: usize = 0;
        while k < n
            invariant
                self.wf(),
                n == self.values@.len(),
                n == self.na@.len(),
                k <= n,
                values@.len() == k,
                na@.len() == k,
                forall|i: int| #![trigger na@[i]] 0 <= i < k ==> (na@[i] ==> !values@[i]),
                forall|i: int|
                    #![trigger na@[i]]
                    0 <= i < k ==> (if na@[i] {
                        None
                    } else {
                        Some(values@[i])
                    }) == (match self@[i] {
                        Some(a) => Some(a != 0),
                        None => None,
                    }),
            decreases n - k,
        {
            if self.na[k] {
                values.push(false);
                na.push(true);
            } else {
                values.push(self.values[k] != 0);
                na.push(false);
            }
            k = k + 1;
        }
        UList { values, na }
    }

    /// Widens 32-bit integers to 64 bits: the abstract value is unchanged.
    pub fn as_int64(&self) -> (out: UList<i64>)
        requires
            self.wf(),
        ensures
            out.wf(),
            out@ == self@,
    {
        let n = self.values.len();
        let mut values: Vec<i64> = Vec::new();
        let mut na: Vec<bool> = Vec::new();
        let mut k: usize = 0;
        while k < n
            invariant
                self.wf(),
                n == self.values@.len(),
                n == self.na@.len(),
                k <= n,
                values@.len() == k,
                na@.len() == k,
                forall|i: int| #![trigger na@[i]] 0 <= i < k ==> (na@[i] ==> values@[i] == 0i64),
                forall|i: int|
                    #![trigger na@[i]]
                    0 <= i < k ==> (if na@[i] {
                        None
                    } else {
                        Some(values@[i] as int)
                    }) == self@[i],
            decreases n - k,
        {
            if self.na[k] {
                values.push(0);
                na.push(true);
            } else {
                values.push(self.values[k] as i64);
                na.push(false);
            }
            k = k + 1;
        }
        let out = UList { values, na };
        proof {
            assert(out@ =~= self@);
        }
        out
    }

    /// Casts 32-bit integers to their canonical decimal text; missing
    /// positions stay missing.
    pub fn as_str(&self) -> (out: UList<String>)
        requires
            self.wf(),
        ensures
            out.wf(),
            out@.len() == self@.len(),
            forall|i: int|
                0 <= i < self@.len() ==> #[trigger] out@[i] == (match self@[i] {
                    Some(a) => Some(dec_str(a)),
                    None => None,
                }),
    {
        let n = self.values.len();
        let mut values: Vec<String> = Vec::new();
        let mut na: Vec<bool> = Vec::new();
        let mut k: usize = 0;
        while k < n
            invariant
                self.wf(),
                n == self.values@.len(),
                n == self.na@.len(),
                k <= n,
                values@.len() == k,
                na@.len() == k,
                forall|i: int|
                    #![trigger na@[i]]
                    0 <= i < k ==> (na@[i] ==> values@[i]@ == Seq::<char>::empty()),
                forall|i: int|
                    #![trigger na@[i]]
                    0 <= i < k ==> (if na@[i] {
                        None
                    } else {
                        Some(values@[i]@)
                    }) == (match self@[i] {
                        Some(a) => Some(dec_str(a)),
                        None => None,
                    }),
            decreases n - k,
        {
            if self.na[k] {
                values.push(String::new());
                na.push(true);
            } else {
                values.push(i64_to_dec_string(self.values[k] as i64));
                na.push(false);
            }
            k = k + 1;
        }
        UList { values, na }
    }
}

impl UList<i64> {
    /// Casts 64-bit integers to booleans: nonzero becomes `true`; missing
    /// positions stay missing.
    pub fn as_bool(&self) -> (out: UList<bool>)
        requires
            self.wf(),
        ensures
            out.wf(),
            out@.len() == self@.len(),
            forall|i: int|
                0 <= i < self@.len() ==> #[trigger] out@[i] == (match self@[i] {
                    Some(a) => Some(a != 0),
                    None => None,
                }),
    {
        let n = self.values.len();
        let mut values: Vec<bool> = Vec::new();
        let mut na: Vec<bool> = Vec::new();
        let mut k: usize = 0;
        while k < n
            invariant
                self.wf(),
                n == self.values@.len(),
                n == self.na@.len(),
                k <= n,
                values@.len() == k,
                na@.len() == k,
                forall|i: int| #![trigger na@[i]] 0 <= i < k ==> (na@[i] ==> !values@[i]),
                forall|i: int|
                    #![trigger na@[i]]
                    0 <= i < k ==> (if na@[i] {
                        None
                    } else {
                        Some(values@[i])
                    }) == (match self@[i] {
                        Some(a) => Some(a != 0),
                        None => None,
                    }),
            decreases n - k,
        {
            if self.na[k] {
                values.push(false);
                na.push(true);
            } else {
                values.push(self.values[k] != 0);
                na.push(false);
            }
            k = k + 1;
        }
        UList { values, na }
    }

    /// Narrows 64-bit integers to 32 bits by truncation, the meaning Rust
    /// gives an `as` cast; a value already in 32-bit range is unchanged.
    /// Missing positions stay missing.
    pub fn as_int32(&self) -> (out: UList<i32>)
        requires
            self.wf(),
        ensures
            out.wf(),
            out@.len() == self@.len(),
            forall|i: int|
                0 <= i < self@.len() ==> #[trigger] out@[i] == (match self@[i] {
                    Some(a) => Some(((a as i32) as int)),
                    None => None,
                }),
    {
        let n = self.values.len();
        let mut values: Vec<i32> = Vec::new();
        let mut na: Vec<bool> = Vec::new();
        let mut k: usize = 0;
        while k < n
            invariant
                self.wf(),
                n == self.values@.len(),
                n == self.na@.len(),
                k <= n,
                values@.len() == k,
                na@.len() == k,
                forall|i: int| #![trigger na@[i]] 0 <= i < k ==> (na@[i] ==> values@[i] == 0i32),
                forall|i: int|
                    #![trigger na@[i]]
                    0 <= i < k ==> (if na@[i] {
                        None
                    } else {
                        Some(values@[i] as int)
                    }) == (match self@[i] {
                        Some(a) => Some(((a as i32) as int)),
                        None => None,
                    }),
            decreases n - k,
        {
            if self.na[k] {
                values.push(0);
                na.push(true);
            } else {
                let v = self.values[k];
                proof {
                    assert(self@[k as int] == Some(v as int));
                }
                values.push(#[verifier::truncate] (v as i32));
                na.push(false);
            }
            k = k + 1;
        }
        UList { values, na }
    }

    /// Casts 64-bit integers to their canonical decimal text; missing
    /// positions stay missing.
    pub fn as_str(&self) -> (out: UList<String>)
        requires
            self.wf(),
        ensures
            out.wf(),
            out@.len() == self@.len(),
            forall|i: int|
                0 <= i < self@.len() ==> #[trigger] out@[i] == (match self@[i] {
                    Some(a) => Some(dec_str(a)),
                    None => None,
                }),
    {
        let n = self.values.len();
        let mut values: Vec<String> = Vec::new();
        let mut na: Vec<bool> = Vec::new();
        let mut k: usize = 0;
        while k < n
            invariant
                self.wf(),
                n == self.values@.len(),
                n == self.na@.len(),
                k <= n,
                values@.len() == k,
                na@.len() == k,
                forall|i: int|
                    #![trigger na@[i]]
                    0 <= i < k ==> (na@[i] ==> values@[i]@ == Seq::<char>::empty()),
                forall|i: int|
                    #![trigger na@[i]]
                    0 <= i < k ==> (if na@[i] {
                        None
                    } else {
                        Some(values@[i]@)
                    }) == (match self@[i] {
                        Some(a) => Some(dec_str(a)),
                        None => None,
                    }),
            decreases n - k,
        {
            if self.na[k] {
                values.push(String::new());
                na.push(true);
            } else {
                values.push(i64_to_dec_string(self.values[k]));
                na.push(false);
            }
            k = k + 1;
        }
        UList { values, na }
    }
}

impl UList<String> {
    /// Parses every non-missing string as canonical boolean text; missing
    /// positions stay missing, never parsed. Fails with `ParseError`,
    /// producing nothing, when some non-missing string is not boolean text.
    pub fn as_bool(&self) -> (r: Result<UList<bool>, UListError>)
        requires
            self.wf(),
        ensures
            match r {
                Ok(out) => {
                    &&& out.wf()
                    &&& out@.len() == self@.len()
                    &&& forall|i: int|
                        0 <= i < self@.len() ==> #[trigger] out@[i] == (match self@[i] {
                            Some(s) => bool_text_val(s),
                            None => None,
                        })
                    &&& forall|i: int|
                        0 <= i < self@.len() && self@[i] is Some ==> bool_text_val(
                            (#[trigger] self@[i])->0,
                        ) is Some
                },
                Err(e) => e == UListError::ParseError && exists|i: int|
                    0 <= i < self@.len() && self@[i] is Some && bool_text_val(
                        (#[trigger] self@[i])->0,
                    ) is None,
            },
    {
        let n = self.values.len();
        let mut values: Vec<bool> = Vec::new();
        let mut na: Vec<bool> = Vec::new();
        let mut k: usize = 0;
        while k < n
            invariant
                self.wf(),
                n == self.values@.len(),
                n == self.na@.len(),
                k <= n,
                values@.len() == k,
                na@.len() == k,
                forall|i: int| #![trigger na@[i]] 0 <= i < k ==> (na@[i] ==> !values@[i]),
                forall|i: int|
                    #![trigger na@[i]]
                    0 <= i < k ==> (if na@[i] {
                        None
                    } else {
                        Some(values@[i])
                    }) == (match self@[i] {
                        Some(s) => bool_text_val(s),
                        None => None,
                    }),
                forall|i: int|
                    0 <= i < k && self@[i] is Some ==> bool_text_val(
                        (#[trigger] self@[i])->0,
                    ) is Some,
            decreases n - k,
        {
            if self.na[k] {
                values.push(false);
                na.push(true);
            } else {
                proof {
                    assert(self@[k as int] == Some(self.values@[k as int]@));
                }
                match parse_bool(self.values[k].as_str()) {
                    Ok(b) => {
                        values.push(b);
                        na.push(false);
                    }
                    Err(e) => {
                        return Err(e);
                    }
                }
            }
            k = k + 1;
        }
        Ok(UList { values, na })
    }

    /// Parses every non-missing string as integer text that fits 32 bits;
    /// missing positions stay missing, never parsed. Fails with
    /// `ParseError`, producing nothing, when some non-missing string is not
    /// integer text or does not fit.
    pub fn as_int32(&self) -> (r: Result<UList<i32>, UListError>)
        requires
            self.wf(),
        ensures
            match r {
                Ok(out) => {
                    &&& out.wf()
                    &&& out@.len() == self@.len()
                    &&& forall|i: int|
                        0 <= i < self@.len() ==> #[trigger] out@[i] == (match self@[i] {
                            Some(s) => Some(int_text_val(s)),
                            None => None,
                        })
                    &&& forall|i: int|
                        0 <= i < self@.len() && self@[i] is Some ==> is_int_text(
                            (#[trigger] self@[i])->0,
                        ) && i32::MIN <= int_text_val(self@[i]->0) <= i32::MAX
                },
                Err(e) => e == UListError::ParseError && exists|i: int|
                    0 <= i < self@.len() && self@[i] is Some && (!is_int_text(
                        (#[trigger] self@[i])->0,
                    ) || int_text_val(self@[i]->0) > i32::MAX as int || int_text_val(self@[i]->0)
                        < i32::MIN as int),
            },
    {
        let n = self.values.len();
        let mut values: Vec<i32> = Vec::new();
        let mut na: Vec<bool> = Vec::new();
        let mut k: usize = 0;
        while k < n
            invariant
                self.wf(),
                n == self.values@.len(),
                n == self.na@.len(),
                k <= n,
                values@.len() == k,
                na@.len() == k,
                forall|i: int| #![trigger na@[i]] 0 <= i < k ==> (na@[i] ==> values@[i] == 0i32),
                forall|i: int|
                    #![trigger na@[i]]
                    0 <= i < k ==> (if na@[i] {
                        None
                    } else {
                        Some(values@[i] as int)
                    }) == (match self@[i] {
                        Some(s) => Some(int_text_val(s)),
                        None => None,
                    }),
                forall|i: int|
                    0 <= i < k && self@[i] is Some ==> is_int_text((#[trigger] self@[i])->0)
                        && i32::MIN <= int_text_val(self@[i]->0) <= i32::MAX,
            decreases n - k,
        {
            if self.na[k] {
                values.push(0);
                na.push(true);
            } else {
                proof {
                    assert(self@[k as int] == Some(self.values@[k as int]@));
                }
                match parse_i32(self.values[k].as_str()) {
                    Ok(v) => {
                        values.push(v);
                        na.push(false);
                    }
                    Err(e) => {
                        return Err(e);
                    }
                }
            }
            k = k + 1;
        }
        Ok(UList { values, na })
    }

    /// Parses every non-missing string as integer text that fits 64 bits;
    /// missing positions stay missing, never parsed. Fails with
    /// `ParseError`, producing nothing, when some non-missing string is not
    /// integer text or does not fit.
    pub fn as_int64(&self) -> (r: Result<UList<i64>, UListError>)
        requires
            self.wf(),
        ensures
            match r {
                Ok(out) => {
                    &&& out.wf()
                    &&& out@.len() == self@.len()
                    &&& forall|i: int|
                        0 <= i < self@.len() ==> #[trigger] out@[i] == (match self@[i] {
                            Some(s) => Some(int_text_val(s)),
                            None => None,
                        })
                    &&& forall|i: int|
                        0 <= i < self@.len() && self@[i] is Some ==> is_int_text(
                            (#[trigger] self@[i])->0,
                        ) && i64::MIN <= int_text_val(self@[i]->0) <= i64::MAX
                },
                Err(e) => e == UListError::ParseError && exists|i: int|
                    0 <= i < self@.len() && self@[i] is Some && (!is_int_text(
                        (#[trigger] self@[i])->0,
                    ) || int_text_val(self@[i]->0) > i64::MAX as int || int_text_val(self@[i]->0)
                        < i64::MIN as int),
            },
    {
        let n = self.values.len();
        let mut values: Vec<i64> = Vec::new();
        let mut na: Vec<bool> = Vec::new();
        let mut k: usize = 0;
        while k < n
            invariant
                self.wf(),
                n == self.values@.len(),
                n == self.na@.len(),
                k <= n,
                values@.len() == k,
                na@.len() == k,
                forall|i: int| #![trigger na@[i]] 0 <= i < k ==> (na@[i] ==> values@[i] == 0i64),
                forall|i: int|
                    #![trigger na@[i]]
                    0 <= i < k ==> (if na@[i] {
                        None
                    } else {
                        Some(values@[i] as int)
                    }) == (match self@[i] {
                        Some(s) => Some(int_text_val(s)),
                        None => None,
                    }),
                forall|i: int|
                    0 <= i < k && self@[i] is Some ==> is_int_text((#[trigger] self@[i])->0)
                        && i64::MIN <= int_text_val(self@[i]->0) <= i64::MAX,
            decreases n - k,
        {
            if self.na[k] {
                values.push(0);
                na.push(true);
            } else {
                proof {
                    assert(self@[k as int] == Some(self.values@[k as int]@));
                }
                match parse_i64(self.values[k].as_str()) {
                    Ok(v) => {
                        values.push(v);
                        na.push(false);
                    }
                    Err(e) => {
                        return Err(e);
                    }
                }
            }
            k = k + 1;
        }
        Ok(UList { values, na })
    }
}
} // verus!
