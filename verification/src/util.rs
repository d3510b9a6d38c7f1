use vstd::prelude::*;
use vstd::pervasive::VecAdditionalExecFns;

verus! {

/// Copies as much of `src` as fits into the front of `dst`, leaving the
/// tail untouched, and reports how many values were written.
pub fn slice_copy_from<T: Copy>(dst: &mut Vec<T>, src: &Vec<T>) -> (r: usize)
    ensures
        r == vstd::math::min(old(dst)@.len() as int, src@.len() as int),
        final(dst)@.len() == old(dst)@.len(),
        forall|i: int| 0 <= i < r ==> #[trigger] final(dst)@[i] == src@[i],
        forall|i: int| r <= i < final(dst)@.len() ==> #[trigger] final(dst)@[i] == old(dst)@[i],
{
    let n = if dst.len() < src.len() {
        dst.len()
    } else {
        src.len()
    };
    let mut i: usize = 0;
    while i < n
        invariant
            n == vstd::math::min(old(dst)@.len() as int, src@.len() as int),
            i <= n,
            dst@.len() == old(dst)@.len(),
            forall|j: int| 0 <= j < i ==> #[trigger] dst@[j] == src@[j],
            forall|j: int| i <= j < dst@.len() ==> #[trigger] dst@[j] == old(dst)@[j],
        decreases n - i,
    {
        dst.set(i, src[i]);
        i = i + 1;
    }
    n
}

} // verus!
