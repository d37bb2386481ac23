//! Mathematical model of start-anchored periodicity and of the length that
//! the detector settles on.

use vstd::prelude::*;

verus! {

/// Position `i` agrees with the position one period `len` further on,
/// or that further position lies past the end.
pub open spec fn step_agrees<T>(s: Seq<T>, len: int, i: int) -> bool {
    i + len < s.len() ==> s[i] == s[i + len]
}

/// Every element is equal to the element `len` positions later.
pub open spec fn period_holds<T>(s: Seq<T>, len: int) -> bool {
    forall|i: int| 0 <= i ==> #[trigger] step_agrees(s, len, i)
}

/// `len` is a valid pattern length: the block `s[0..len]` is followed by at
/// least one full copy, and the sequence repeats it until the end.
pub open spec fn is_period<T>(s: Seq<T>, len: int) -> bool {
    &&& 1 <= len
    &&& 2 * len <= s.len()
    &&& period_holds(s, len)
}

/// Position `p` agrees with the position `k` periods later, or that position
/// lies past the end.
pub open spec fn column_agrees<T>(s: Seq<T>, len: int, p: int, k: int) -> bool {
    p + k * len < s.len() ==> s[p] == s[p + k * len]
}

/// The first `x` positions of a period of length `len` have been checked
/// against every later repetition.
pub open spec fn progress_ok<T>(s: Seq<T>, len: int, x: int) -> bool {
    forall|p: int, k: int| 0 <= p < x && 1 <= k ==> #[trigger] column_agrees(s, len, p, k)
}

/// The least length in `[lo, hi]` that is a period of `s`, or `None` when
/// the range holds no period.
pub open spec fn pattern_length<T>(s: Seq<T>, lo: int, hi: int) -> Option<int>
    decreases hi - lo + 1,
{
    if hi < lo {
        None
    } else if is_period(s, lo) {
        Some(lo)
    } else {
        pattern_length(s, lo + 1, hi)
    }
}

/// Whether some length in `[lo, hi]` is a period of `s`.
pub open spec fn has_period_in<T>(s: Seq<T>, lo: int, hi: int) -> bool {
    exists|d: int| lo <= d <= hi && #[trigger] is_period(s, d)
}

/// `k` is the least period of `s` in `[lo, hi]`.
pub open spec fn is_least_period_in<T>(s: Seq<T>, lo: int, hi: int, k: int) -> bool {
    &&& lo <= k <= hi
    &&& is_period(s, k)
    &&& forall|j: int| lo <= j < k ==> !#[trigger] is_period(s, j)
}

/// `pattern_length` is the least period in range, and is `None` exactly when
/// the range holds no period.
pub proof fn lemma_pattern_length<T>(s: Seq<T>, lo: int, hi: int)
    ensures
        pattern_length(s, lo, hi) matches Some(k) ==> is_least_period_in(s, lo, hi, k),
        pattern_length(s, lo, hi) is None <==> !has_period_in(s, lo, hi),
    decreases hi - lo + 1,
{
    if hi >= lo {
        lemma_pattern_length(s, lo + 1, hi);
        if !is_period(s, lo) {
            if has_period_in(s, lo, hi) {
                let d = choose|d: int| lo <= d <= hi && #[trigger] is_period(s, d);
                assert(has_period_in(s, lo + 1, hi));
            }
            if let Some(k) = pattern_length(s, lo + 1, hi) {
                assert forall|j: int| lo <= j < k implies !#[trigger] is_period(s, j) by {
                    if j > lo {
                        assert(lo + 1 <= j < k);
                    }
                }
            }
        }
    } else {
        if has_period_in(s, lo, hi) {
            let d = choose|d: int| lo <= d <= hi && #[trigger] is_period(s, d);
        }
    }
}

/// The least period in range is the value of `pattern_length`.
pub proof fn lemma_pattern_length_is<T>(s: Seq<T>, lo: int, hi: int, k: int)
    requires
        is_least_period_in(s, lo, hi, k),
    ensures
        pattern_length(s, lo, hi) == Some(k),
{
    lemma_pattern_length(s, lo, hi);
    assert(has_period_in(s, lo, hi));
    let r = pattern_length(s, lo, hi)->Some_0;
    if r < k {
        assert(!is_period(s, r));
    } else if r > k {
        assert(!is_period(s, k));
    }
}

/// A period repeats at every multiple of itself.
pub proof fn lemma_period_multiple<T>(s: Seq<T>, d: int, i: int, m: int)
    requires
        period_holds(s, d),
        0 <= i,
        0 <= m,
        0 <= d,
        i + m * d < s.len(),
    ensures
        s[i] == s[i + m * d],
    decreases m,
{
    if m > 0 {
        assert(i + (m - 1) * d + d == i + m * d) by (nonlinear_arith);
        assert((m - 1) * d >= 0) by (nonlinear_arith)
            requires m >= 1, d >= 0;
        lemma_period_multiple(s, d, i, m - 1);
        assert(step_agrees(s, d, i + (m - 1) * d));
    } else {
        assert(m * d == 0) by (nonlinear_arith)
            requires m == 0;
    }
}

/// A mismatch between `p` and `p + k * len` refutes every divisor of `len`.
pub proof fn lemma_mismatch_refutes_divisor<T>(s: Seq<T>, len: int, p: int, k: int, d: int)
    requires
        0 <= p,
        1 <= k,
        1 <= d,
        1 <= len,
        len % d == 0,
        p + k * len < s.len(),
        s[p] != s[p + k * len],
    ensures
        !period_holds(s, d),
{
    if period_holds(s, d) {
        let c = len / d;
        vstd::arithmetic::div_mod::lemma_fundamental_div_mod(len, d);
        assert(len == d * c);
        assert(c >= 0) by {
            vstd::arithmetic::div_mod::lemma_div_pos_is_pos(len, d);
        }
        assert(k * len == (k * c) * d) by (nonlinear_arith)
            requires len == d * c;
        assert(k * c >= 0) by (nonlinear_arith)
            requires k >= 1, c >= 0;
        lemma_period_multiple(s, d, p, k * c);
    }
}

/// Full progress over one period proves that period.
pub proof fn lemma_progress_full<T>(s: Seq<T>, len: int)
    requires
        1 <= len,
        progress_ok(s, len, len),
    ensures
        period_holds(s, len),
{
    assert forall|i: int| 0 <= i implies #[trigger] step_agrees(s, len, i) by {
        if i + len < s.len() {
            let p = i % len;
            let q = i / len;
            vstd::arithmetic::div_mod::lemma_fundamental_div_mod(i, len);
            vstd::arithmetic::div_mod::lemma_mod_bound(i, len);
            vstd::arithmetic::div_mod::lemma_div_pos_is_pos(i, len);
            assert(i == len * q + p);
            assert(p + (q + 1) * len == i + len) by (nonlinear_arith)
                requires i == len * q + p;
            assert(column_agrees(s, len, p, q + 1));
            if q >= 1 {
                assert(p + q * len == i) by (nonlinear_arith)
                    requires i == len * q + p;
                assert(column_agrees(s, len, p, q));
            } else {
                assert(p == i);
            }
        }
    }
}

} // verus!
