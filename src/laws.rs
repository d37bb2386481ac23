//! General properties of the reported pattern length.

use vstd::prelude::*;
use crate::period::{
    is_period, step_agrees, pattern_length, has_period_in, is_least_period_in,
    lemma_pattern_length, lemma_pattern_length_is,
};

verus! {

/// A sequence shorter than two blocks of the smallest candidate length has
/// no reported length.
pub proof fn law_short_sequence_has_none<T>(s: Seq<T>, min: int, max: int)
    requires
        1 <= min <= max,
        s.len() < 2 * min,
    ensures
        pattern_length(s, min, max) is None,
        !has_period_in(s, min, max),
{
    lemma_pattern_length(s, min, max);
}

/// A reported length lies in `[min, max]`, every element of the sequence
/// equals the element one reported length later, and no shorter length in
/// range has that property.
pub proof fn law_reported_length_is_period<T>(s: Seq<T>, min: int, max: int)
    requires
        1 <= min <= max,
    ensures
        pattern_length(s, min, max) matches Some(k) ==> {
            &&& is_least_period_in(s, min, max, k)
            &&& forall|i: int| 0 <= i && i + k < s.len() ==> #[trigger] s[i] == s[i + k]
        },
        pattern_length(s, min, max) is None <==> !has_period_in(s, min, max),
{
    lemma_pattern_length(s, min, max);
    if let Some(k) = pattern_length(s, min, max) {
        assert forall|i: int| 0 <= i && i + k < s.len() implies #[trigger] s[i] == s[i + k] by {
            assert(step_agrees(s, k, i));
        }
    }
}

/// Two results that each equal the reported length for the same sequence
/// and range are the same: detection does not depend on earlier runs.
pub proof fn law_detection_is_repeatable<T>(
    s: Seq<T>,
    min: int,
    max: int,
    r1: Option<int>,
    r2: Option<int>,
)
    requires
        r1 == pattern_length(s, min, max),
        r2 == pattern_length(s, min, max),
    ensures
        r1 == r2,
{
}

/// A sequence made of at least two copies of a block of length `L` (the last
/// copy possibly cut short), searched over a range that holds `L`, reports a
/// period of at most `L`.
pub proof fn law_repeated_block_is_found<T>(s: Seq<T>, block: Seq<T>, min: int, max: int)
    requires
        1 <= min <= block.len() <= max,
        2 * block.len() <= s.len(),
        forall|i: int| 0 <= i < s.len() ==> s[i] == block[i % (block.len() as int)],
    ensures
        pattern_length(s, min, max) matches Some(k) && k <= block.len() && is_period(s, k),
{
    let l = block.len() as int;
    assert forall|i: int| 0 <= i implies #[trigger] step_agrees(s, l, i) by {
        if i + l < s.len() {
            vstd::arithmetic::div_mod::lemma_mod_add_multiples_vanish(i, l);
        }
    }
    assert(is_period(s, l));
    lemma_pattern_length(s, min, max);
}

/// Narrowing the range around a reported length `k` reports `k` again, so
/// never a larger length.
pub proof fn law_narrower_range_reports_no_larger<T>(
    s: Seq<T>,
    min: int,
    max: int,
    min2: int,
    max2: int,
    k: int,
)
    requires
        min <= min2 <= k <= max2 <= max,
        pattern_length(s, min, max) == Some(k),
    ensures
        pattern_length(s, min2, max2) matches Some(k2) && k2 <= k,
        pattern_length(s, min2, max2) == Some(k),
{
    lemma_pattern_length(s, min, max);
    lemma_pattern_length_is(s, min2, max2, k);
}

} // verus!
