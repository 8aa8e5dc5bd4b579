//! A non-nullable ordered list of positions, used to specify a gather.

use vstd::prelude::*;

verus! {

/// An ordered sequence of unsigned positions. Unlike the nullable lists it
/// has no missing mask; every stored position must be revalidated against
/// the target list's length before a gather uses it.
pub struct IndexList {
    values: Vec<usize>,
}

impl View for IndexList {
    type V = Seq<usize>;

    closed spec fn view(&self) -> Seq<usize> {
        self.values@
    }
}

impl IndexList {
    /// Wraps a plain list of positions.
    pub fn new(vec: Vec<usize>) -> (r: Self)
        ensures
            r@ == vec@,
    {
        IndexList { values: vec }
    }

    /// The stored positions, in order.
    pub fn values(&self) -> (r: &Vec<usize>)
        ensures
            r@ == self@,
    {
        &self.values
    }

    /// The last stored position.
    pub fn back(&self) -> (r: usize)
        requires
            self@.len() > 0,
        ensures
            r == self@.last(),
    {
        self.values[self.values.len() - 1]
    }

    /// The number of stored positions.
    pub fn size(&self) -> (n: usize)
        ensures
            n == self@.len(),
    {
        self.values.len()
    }

    /// A plain copy of the stored positions.
    pub fn to_list(&self) -> (r: Vec<usize>)
        ensures
            r@ == self@,
    {
        let n = self.values.len();
        let mut r: Vec<usize> = Vec::new();
        let mut k: usize = 0;
        while k < n
            invariant
                n == self.values@.len(),
                k <= n,
                r@ == self.values@.take(k as int),
            decreases n - k,
        {
            r.push(self.values[k]);
            proof {
                assert(r@ =~= self.values@.take(k + 1));
            }
            k = k + 1;
        }
        proof {
            assert(self.values@.take(n as int) =~= self.values@);
        }
        r
    }
}

} // verus!
