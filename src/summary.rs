//! Integer summaries of an outcome collection.

use vstd::prelude::*;

verus! {

/// The largest and the smallest outcome of a non-empty collection, in that order.
pub fn max_min(data: &Vec<i32>) -> (r: (i32, i32))
    requires
        data@.len() > 0,
    ensures
        data@.contains(r.0),
        data@.contains(r.1),
        forall|i: int| 0 <= i < data@.len() ==> r.1 <= #[trigger] data@[i] <= r.0,
{
    let mut hi = data[0];
    let mut lo = data[0];
    let mut i: usize = 1;
    while i < data.len()
        invariant
            1 <= i <= data@.len(),
            data@.contains(hi),
            data@.contains(lo),
            forall|k: int| 0 <= k < i ==> lo <= #[trigger] data@[k] <= hi,
        decreases data@.len() - i,
    {
        if data[i] > hi {
            hi = data[i];
        }
        if data[i] < lo {
            lo = data[i];
        }
        i = i + 1;
    }
    (hi, lo)
}

} // verus!
