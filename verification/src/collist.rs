//! The backpointer list of the strip search: an immutable list of column
//! masks, extended by one column per frontier step.

use vstd::prelude::*;

verus! {

/// A list of column bitmasks, one per swept column of a strip.
pub struct ColList {
    pub cols: Vec<u64>,
}

impl View for ColList {
    type V = Seq<u64>;

    open spec fn view(&self) -> Seq<u64> {
        self.cols@
    }
}

/// An element-wise copy of a column vector.
pub fn clone_cols(v: &Vec<u64>) -> (r: Vec<u64>)
    ensures
        r@ == v@,
{
    let mut r: Vec<u64> = Vec::new();
    let mut k: usize = 0;
    while k < v.len()
        invariant
            k <= v@.len(),
            r@ == v@.subrange(0, k as int),
        decreases v@.len() - k,
    {
        r.push(v[k]);
        proof {
            assert(r@ =~= v@.subrange(0, k + 1 as int));
        }
        k += 1;
    }
    proof {
        assert(r@ =~= v@);
    }
    r
}

impl ColList {
    /// The empty list.
    pub fn new() -> (r: ColList)
        ensures
            r@.len() == 0,
    {
        ColList { cols: Vec::new() }
    }

    /// The list extended by one column; the receiver is unchanged.
    pub fn append(&self, col: u64) -> (r: ColList)
        ensures
            r@ == self@.push(col),
    {
        let mut cols = clone_cols(&self.cols);
        cols.push(col);
        ColList { cols }
    }

    /// The columns as a vector, oldest first.
    pub fn materialize(&self) -> (r: Vec<u64>)
        ensures
            r@ == self@,
    {
        clone_cols(&self.cols)
    }
}

} // verus!
