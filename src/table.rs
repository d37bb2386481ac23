//! The progress table: one entry per candidate length in `[min, max]`,
//! `None` once the length is ruled out, `Some(x)` while the first `x`
//! positions of the length have been checked.

use vstd::prelude::*;

verus! {

/// Returns a table for the lengths `min..=max`, every entry at progress zero.
pub fn new_table(min: usize, max: usize) -> (t: Vec<Option<usize>>)
    requires
        1 <= min <= max,
    ensures
        t.len() == max - min + 1,
        forall|i: int| 0 <= i < t.len() ==> #[trigger] t[i] == Some(0usize),
{
    let n: usize = max - min + 1;
    let mut t: Vec<Option<usize>> = Vec::with_capacity(n);
    let mut k: usize = 0;
    while k < n
        invariant
            k <= n,
            t.len() == k,
            forall|i: int| 0 <= i < t.len() ==> #[trigger] t[i] == Some(0usize),
        decreases n - k,
    {
        t.push(Some(0));
        k = k + 1;
    }
    t
}

/// Returns the largest length in `[min, max]` that is not ruled out.
pub fn max_len(table: &[Option<usize>], min: usize, max: usize) -> (r: Option<usize>)
    requires
        1 <= min <= max,
        table@.len() == max - min + 1,
    ensures
        r matches Some(len) ==> min <= len <= max && table@[len - min] is Some && forall|j: int|
            len < j <= max ==> #[trigger] table@[j - min] is None,
        r is None ==> forall|j: int| min <= j <= max ==> #[trigger] table@[j - min] is None,
{
    let mut i: usize = max;
    loop
        invariant
            min <= i <= max,
            table@.len() == max - min + 1,
            forall|j: int| i < j <= max ==> #[trigger] table@[j - min] is None,
        decreases i,
    {
        if table[i - min].is_some() {
            return Some(i);
        }
        if i == min {
            return None;
        }
        i = i - 1;
    }
}

} // verus!
