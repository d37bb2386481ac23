//! Building sequences by repeating a block.

use vstd::prelude::*;

verus! {

/// Returns a vector consisting of `n` copies of `pattern`.
pub fn build_vec<T: Clone>(pattern: Vec<T>, n: usize) -> (v: Vec<T>)
    requires
        pattern.len() * n <= usize::MAX,
    ensures
        v.len() == pattern.len() * n,
        forall|k: int, j: int|
            0 <= k < n && 0 <= j < pattern.len() ==> cloned::<T>(
                pattern[j],
                #[trigger] v[k * pattern.len() + j],
            ),
{
    let m = pattern.len();
    let mut v: Vec<T> = Vec::with_capacity(m * n);
    let mut c: usize = 0;
    while c < n
        invariant
            c <= n,
            m == pattern.len(),
            m * n <= usize::MAX,
            v.len() == c * m,
            forall|k: int, j: int|
                0 <= k < c && 0 <= j < m ==> cloned::<T>(pattern[j], #[trigger] v[k * m + j]),
        decreases n - c,
    {
        let ghost before = v@;
        assert(c * m + m <= m * n) by (nonlinear_arith)
            requires c < n;
        v.extend_from_slice(pattern.as_slice());
        assert forall|k: int, j: int| 0 <= k < c + 1 && 0 <= j < m implies cloned::<T>(
            pattern[j],
            #[trigger] v[k * m + j],
        ) by {
            if k < c {
                assert(k * m + j < c * m) by (nonlinear_arith)
                    requires k < c, j < m;
                assert(v[k * m + j] == before[k * m + j]);
            } else {
                assert(k * m + j - before.len() == j);
            }
        }
        c = c + 1;
        assert(v.len() == c * m) by (nonlinear_arith)
            requires v.len() == (c - 1) * m + m;
    }
    assert(v.len() == m * n) by (nonlinear_arith)
        requires v.len() == c * m, c == n;
    v
}

} // verus!
