//! Small helpers over slices.

use vstd::prelude::*;

verus! {

/// The largest element of a nonempty slice: it occurs in the slice and no
/// element exceeds it.
pub fn largest(list: &[i32]) -> (r: i32)
    requires
        list@.len() > 0,
    ensures
        exists|i: int| 0 <= i < list@.len() && r == list@[i],
        forall|i: int| 0 <= i < list@.len() ==> list@[i] <= r,
{
    let mut best: i32 = list[0];
    let mut j: usize = 1;
    while j < list.len()
        invariant
            1 <= j <= list@.len(),
            exists|i: int| 0 <= i < j && best == list@[i],
            forall|i: int| 0 <= i < j ==> list@[i] <= best,
        decreases list@.len() - j,
    {
        if list[j] > best {
            best = list[j];
        }
        j += 1;
    }
    best
}

} // verus!
