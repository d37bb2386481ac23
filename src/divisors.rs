//! Divisors of an integer within a bounded range.

use vstd::prelude::*;

verus! {

/// Returns the divisors of `x` that lie in `[lo, hi]`, in increasing order.
pub fn factors(x: usize, lo: usize, hi: usize) -> (v: Vec<usize>)
    requires
        lo >= 1,
    ensures
        forall|i: int| 0 <= i < v.len() ==> lo <= #[trigger] v[i] <= hi && x % v[i] == 0,
        forall|i: int, j: int| 0 <= i < j < v.len() ==> v[i] < v[j],
        forall|d: usize| lo <= d <= hi && x % d == 0 ==> v@.contains(d),
{
    let mut v: Vec<usize> = Vec::new();
    if lo > hi {
        return v;
    }
    let mut i: usize = lo;
    loop
        invariant_except_break
            lo <= i <= hi,
            forall|k: int| 0 <= k < v.len() ==> lo <= #[trigger] v[k] < i && x % v[k] == 0,
            forall|a: int, b: int| 0 <= a < b < v.len() ==> v[a] < v[b],
            forall|d: usize| lo <= d < i && x % d == 0 ==> v@.contains(d),
        invariant
            lo >= 1,
        ensures
            forall|k: int| 0 <= k < v.len() ==> lo <= #[trigger] v[k] <= hi && x % v[k] == 0,
            forall|a: int, b: int| 0 <= a < b < v.len() ==> v[a] < v[b],
            forall|d: usize| lo <= d <= hi && x % d == 0 ==> v@.contains(d),
        decreases hi - i,
    {
        let ghost before = v@;
        if x % i == 0 {
            v.push(i);
            assert(v@ == before.push(i));
            assert(v@[v.len() - 1] == i);
            assert forall|d: usize| lo <= d <= i && x % d == 0 implies v@.contains(d) by {
                if d < i {
                    assert(before.contains(d));
                    let j = choose|j: int| 0 <= j < before.len() && before[j] == d;
                    assert(v@[j] == d);
                }
            }
        }
        if i == hi {
            break;
        }
        i = i + 1;
    }
    v
}

} // verus!
