//! The pattern-length detector: a widest-first scan over the candidate
//! lengths, a refinement through the divisors of each confirmed length, and
//! a new scan below the length reached, until no shorter period is left.

use vstd::prelude::*;
use std::collections::VecDeque;
use vstd::laws_eq::obeys_concrete_eq;
use crate::divisors::factors;
use crate::period::{
    is_period, period_holds, column_agrees, progress_ok, pattern_length, has_period_in,
    is_least_period_in, lemma_pattern_length, lemma_pattern_length_is,
    lemma_mismatch_refutes_divisor, lemma_progress_full,
};
use crate::table::{max_len, new_table};

verus! {

/// How the checks on one candidate length ended.
enum Outcome {
    /// Every position of one period agrees with all its later repetitions.
    Confirmed,
    /// The next position to check has no later repetition.
    NoRoom,
    /// Some position differs from one of its later repetitions.
    Mismatch,
}

/// What a table entry for length `len` records is true of `s`.
pub open spec fn entry_ok<T>(s: Seq<T>, e: Option<usize>, len: int) -> bool {
    match e {
        None => !is_period(s, len),
        Some(x) => {
            &&& x <= len
            &&& (x >= 1 ==> x + len <= s.len())
            &&& progress_ok(s, len, x as int)
        },
    }
}

/// Every entry of the table for `[min, max]` is true of `s`.
pub open spec fn table_ok<T>(s: Seq<T>, t: Seq<Option<usize>>, min: int, max: int) -> bool {
    &&& t.len() == max - min + 1
    &&& forall|len: int| min <= len <= max ==> #[trigger] entry_ok(s, t[len - min], len)
}

/// The queue holds divisors of `c` below `c` and at least `min`, largest first.
pub open spec fn queue_shape(q: Seq<usize>, min: int, c: int) -> bool {
    &&& forall|i: int| 0 <= i < q.len() ==> min <= #[trigger] q[i] < c && c % (q[i] as int) == 0
    &&& forall|i: int, j: int| 0 <= i < j < q.len() ==> q[i] > q[j]
}

/// Runs the check on length `len` from its recorded progress until the length
/// is confirmed or ruled out.
fn check_length<T: PartialEq>(
    s: &Vec<T>,
    table: &mut Vec<Option<usize>>,
    min: usize,
    max: usize,
    len: usize,
) -> (o: Outcome)
    requires
        obeys_concrete_eq::<T>(),
        1 <= min <= len <= max,
        table_ok(s@, old(table)@, min as int, max as int),
        old(table)@[len - min] is Some,
    ensures
        table_ok(s@, final(table)@, min as int, max as int),
        forall|j: int|
            0 <= j < final(table)@.len() && j != len - min ==> final(table)@[j] == old(table)@[j],
        o is Confirmed ==> final(table)@[len - min] == Some(len) && is_period(s@, len as int),
        !(o is Confirmed) ==> final(table)@[len - min] is None,
        o is Mismatch ==> forall|d: int| 1 <= d && (len as int) % d == 0 ==> !#[trigger] period_holds(s@, d),
{
    let idx = len - min;
    let mut x: usize = table[idx].unwrap();
    loop
        invariant
            obeys_concrete_eq::<T>(),
            1 <= min <= len <= max,
            idx == len - min,
            table_ok(s@, table@, min as int, max as int),
            table@[idx as int] == Some(x),
            forall|j: int| 0 <= j < table@.len() && j != idx ==> table@[j] == old(table)@[j],
        decreases len - x,
    {
        assert(entry_ok(s@, table@[len - min], len as int));
        if x >= len {
            proof {
                lemma_progress_full(s@, len as int);
            }
            return Outcome::Confirmed;
        }
        let n = s.len();
        if len >= n || x >= n - len {
            table.set(idx, None);
            assert(entry_ok(s@, table@[len - min], len as int));
            return Outcome::NoRoom;
        }
        let mut y: usize = x + len;
        let ghost mut k: int = 1;
        loop
            invariant
                obeys_concrete_eq::<T>(),
                1 <= min <= len <= max,
                idx == len - min,
                table_ok(s@, table@, min as int, max as int),
                table@[idx as int] == Some(x),
                forall|j: int| 0 <= j < table@.len() && j != idx ==> table@[j] == old(table)@[j],
                x < len,
                n == s.len(),
                x + len < n,
                y == x + k * len,
                1 <= k,
                y < n,
                forall|j: int| 1 <= j < k ==> #[trigger] column_agrees(s@, len as int, x as int, j),
            ensures
                y == x + k * len,
                1 <= k,
                y + len >= n,
                forall|j: int| 1 <= j <= k ==> #[trigger] column_agrees(s@, len as int, x as int, j),
            decreases n - y,
        {
            let same = s[x] == s[y];
            proof {
                reveal(obeys_concrete_eq);
            }
            if !same {
                proof {
                    assert forall|d: int| 1 <= d && (len as int) % d == 0 implies !#[trigger] period_holds(
                        s@,
                        d,
                    ) by {
                        lemma_mismatch_refutes_divisor(s@, len as int, x as int, k, d);
                    }
                    vstd::arithmetic::div_mod::lemma_mod_self_0(len as int);
                    assert(!period_holds(s@, len as int));
                }
                table.set(idx, None);
                assert(entry_ok(s@, table@[len - min], len as int));
                return Outcome::Mismatch;
            }
            assert(column_agrees(s@, len as int, x as int, k));
            if y >= n - len {
                break;
            }
            y = y + len;
            proof {
                k = k + 1;
                assert(y == x + k * len) by (nonlinear_arith)
                    requires y == x + (k - 1) * len + len;
            }
        }
        proof {
            assert forall|p: int, j: int| 0 <= p < x + 1 && 1 <= j implies #[trigger] column_agrees(
                s@,
                len as int,
                p,
                j,
            ) by {
                if p < x {
                    assert(progress_ok(s@, len as int, x as int));
                } else if j > k {
                    assert(j * len >= (k + 1) * len) by (nonlinear_arith)
                        requires j >= k + 1, len >= 1;
                    assert((k + 1) * len == k * len + len) by (nonlinear_arith);
                }
            }
        }
        table.set(idx, Some(x + 1));
        x = x + 1;
        assert(entry_ok(s@, table@[len - min], len as int));
    }
}

/// Replaces the queue's contents by the divisors of `len` in `[min, len - 1]`,
/// largest at the front.
fn seed_queue(queue: &mut VecDeque<usize>, len: usize, min: usize)
    requires
        1 <= min <= len,
    ensures
        queue_shape(final(queue)@, min as int, len as int),
        forall|d: int|
            min <= d < len && (len as int) % d == 0 ==> #[trigger] final(queue)@.contains(d as usize),
{
    queue.clear();
    let fs = factors(len, min, len - 1);
    let mut i: usize = 0;
    while i < fs.len()
        invariant
            1 <= min <= len,
            i <= fs.len(),
            queue@.len() == i,
            forall|a: int| 0 <= a < i ==> #[trigger] queue@[a] == fs[i - 1 - a],
            forall|a: int| 0 <= a < fs.len() ==> min <= #[trigger] fs[a] <= len - 1 && len % fs[a] == 0,
            forall|a: int, b: int| 0 <= a < b < fs.len() ==> fs[a] < fs[b],
        decreases fs.len() - i,
    {
        queue.push_front(fs[i]);
        i = i + 1;
    }
    assert forall|a: int, b: int| 0 <= a < b < queue@.len() implies queue@[a] > queue@[b] by {
        assert(queue@[a] == fs[i - 1 - a]);
        assert(queue@[b] == fs[i - 1 - b]);
    }
    assert forall|a: int| 0 <= a < queue@.len() implies min <= #[trigger] queue@[a] < len && (
    len as int) % (queue@[a] as int) == 0 by {
        assert(queue@[a] == fs[i - 1 - a]);
    }
    assert forall|d: int| min <= d < len && (len as int) % d == 0 implies #[trigger] queue@.contains(
        d as usize,
    ) by {
        let du = d as usize;
        assert(fs@.contains(du));
        let j = choose|j: int| 0 <= j < fs.len() && fs@[j] == du;
        assert(queue@[i - 1 - j] == fs[j]);
    }
}

/// Returns the smallest length in `[min, max]` whose progress equals the
/// length itself.
fn first_confirmed(table: &Vec<Option<usize>>, min: usize, max: usize) -> (r: Option<usize>)
    requires
        1 <= min <= max,
        table@.len() == max - min + 1,
    ensures
        r matches Some(i) ==> min <= i <= max && table@[i - min] == Some(i) && forall|j: int|
            min <= j < i ==> #[trigger] table@[j - min] != Some(j as usize),
        r is None ==> forall|j: int| min <= j <= max ==> #[trigger] table@[j - min] != Some(j as usize),
{
    let mut i: usize = min;
    loop
        invariant
            1 <= min <= i <= max,
            table@.len() == max - min + 1,
            forall|j: int| min <= j < i ==> #[trigger] table@[j - min] != Some(j as usize),
        decreases max - i,
    {
        if let Some(x) = table[i - min] {
            if x == i {
                return Some(i);
            }
        }
        if i == max {
            return None;
        }
        i = i + 1;
    }
}

/// Every entry for a length in `[lo, hi]` is ruled out or has no progress yet.
pub open spec fn untouched_in(t: Seq<Option<usize>>, min: int, lo: int, hi: int) -> bool {
    forall|j: int| lo <= j <= hi ==> #[trigger] t[j - min] is None || t[j - min] == Some(0usize)
}

/// Widest-first scan over `[min, hi]`: checks the largest length that is not
/// ruled out until one is confirmed, or none is left.
fn widest_scan<T: PartialEq>(
    s: &Vec<T>,
    table: &mut Vec<Option<usize>>,
    min: usize,
    max: usize,
    hi: usize,
) -> (r: Option<usize>)
    requires
        obeys_concrete_eq::<T>(),
        1 <= min <= hi <= max,
        table_ok(s@, old(table)@, min as int, max as int),
        untouched_in(old(table)@, min as int, min as int, hi as int),
    ensures
        table_ok(s@, final(table)@, min as int, max as int),
        r matches Some(p) ==> {
            &&& min <= p <= hi
            &&& final(table)@[p - min] == Some(p)
            &&& untouched_in(final(table)@, min as int, min as int, p - 1)
        },
        r is None ==> forall|j: int| min <= j <= hi ==> #[trigger] final(table)@[j - min] is None,
        forall|j: int| hi < j <= max ==> #[trigger] final(table)@[j - min] == old(table)@[j - min],
{
    let ghost mut bound: int = hi as int;
    loop
        invariant
            obeys_concrete_eq::<T>(),
            1 <= min <= hi <= max,
            table_ok(s@, table@, min as int, max as int),
            min - 1 <= bound <= hi,
            forall|j: int| bound < j <= hi ==> #[trigger] table@[j - min] is None,
            untouched_in(table@, min as int, min as int, bound),
            forall|j: int| hi < j <= max ==> #[trigger] table@[j - min] == old(table)@[j - min],
        decreases bound + 1 - min,
    {
        let (front, _) = table.as_slice().split_at(hi - min + 1);
        match max_len(front, min, hi) {
            None => {
                assert forall|j: int| min <= j <= hi implies #[trigger] table@[j - min] is None by {
                    assert(front@[j - min] is None);
                }
                return None;
            },
            Some(len) => {
                assert(table@[len - min] is Some);
                assert forall|j: int| len < j <= hi implies #[trigger] table@[j - min] is None by {
                    assert(front@[j - min] is None);
                }
                let o = check_length(s, table, min, max, len);
                match o {
                    Outcome::Confirmed => {
                        return Some(len);
                    },
                    Outcome::NoRoom => {},
                    Outcome::Mismatch => {
                        // A mismatch at `len` is a mismatch at each of its divisors.
                        let fs = factors(len, min, len);
                        let ghost mid = table@;
                        let mut i: usize = 0;
                        while i < fs.len()
                            invariant
                                1 <= min <= len <= hi <= max,
                                forall|j: int|
                                    hi < j <= max ==> #[trigger] table@[j - min] == old(table)@[j
                                        - min],
                                forall|j: int|
                                    hi < j <= max ==> #[trigger] mid[j - min] == old(table)@[j
                                        - min],
                                table_ok(s@, table@, min as int, max as int),
                                forall|a: int|
                                    0 <= a < fs.len() ==> min <= #[trigger] fs[a] <= len && len
                                        % fs[a] == 0,
                                forall|d: int|
                                    1 <= d && (len as int) % d == 0 ==> !#[trigger] period_holds(
                                        s@,
                                        d,
                                    ),
                                forall|j: int|
                                    0 <= j < table@.len() ==> #[trigger] table@[j] == mid[j]
                                        || table@[j] is None,
                            decreases fs.len() - i,
                        {
                            let f = fs[i];
                            let ghost pre = table@;
                            table.set(f - min, None);
                            assert forall|j: int| hi < j <= max implies #[trigger] table@[j - min]
                                == old(table)@[j - min] by {
                                assert(table@[j - min] == pre[j - min]);
                            }
                            assert(entry_ok(s@, table@[f - min], f as int));
                            i = i + 1;
                        }
                        assert forall|j: int| min <= j <= max implies #[trigger] entry_ok(
                            s@,
                            table@[j - min],
                            j,
                        ) by {
                            assert(entry_ok(s@, table@[j - min], j));
                        }
                    },
                }
                proof {
                    bound = len - 1;
                }
            },
        }
    }
}

/// Divisor refinement from the confirmed length `p`: tries the divisors of the
/// current length, largest first, and on each confirmation starts over from
/// the divisors of the new length. Returns the last length confirmed.
fn refine_down<T: PartialEq>(
    s: &Vec<T>,
    table: &mut Vec<Option<usize>>,
    min: usize,
    max: usize,
    p: usize,
) -> (c: usize)
    requires
        obeys_concrete_eq::<T>(),
        1 <= min <= p <= max,
        table_ok(s@, old(table)@, min as int, max as int),
        old(table)@[p - min] == Some(p),
        untouched_in(old(table)@, min as int, min as int, p - 1),
    ensures
        table_ok(s@, final(table)@, min as int, max as int),
        min <= c <= p,
        final(table)@[c - min] == Some(c),
        untouched_in(final(table)@, min as int, min as int, c - 1),
{
    let mut queue: VecDeque<usize> = VecDeque::new();
    seed_queue(&mut queue, p, min);
    let mut cur: usize = p;
    while queue.len() > 0
        invariant
            1 <= min <= cur <= p <= max,
            obeys_concrete_eq::<T>(),
            table_ok(s@, table@, min as int, max as int),
            table@[cur - min] == Some(cur),
            untouched_in(table@, min as int, min as int, cur - 1),
            queue_shape(queue@, min as int, cur as int),
        decreases cur, queue@.len(),
    {
        let ghost q0 = queue@;
        let d = queue.pop_front().unwrap();
        assert(queue@ == q0.subrange(1, q0.len() as int));
        assert(min <= d < cur);
        if table[d - min].is_some() {
            let o = check_length(s, table, min, max, d);
            if let Outcome::Confirmed = o {
                cur = d;
                seed_queue(&mut queue, d, min);
            } else {
                assert forall|i: int| 0 <= i < queue@.len() implies min <= #[trigger] queue@[i]
                    < cur && (cur as int) % (queue@[i] as int) == 0 by {
                    assert(queue@[i] == q0[i + 1]);
                }
            }
        } else {
            assert forall|i: int| 0 <= i < queue@.len() implies min <= #[trigger] queue@[i] < cur
                && (cur as int) % (queue@[i] as int) == 0 by {
                assert(queue@[i] == q0[i + 1]);
            }
        }
    }
    cur
}

/// Returns the least length in `[min, max]` for which `s` repeats its first
/// block of that length, start-anchored, with at least one full further copy
/// and a possibly partial last copy; `None` when no length in range does.
///
/// Each round scans widest-first for a period, refines it through its
/// divisors, and then searches again below the length it settled on, reusing
/// the progress table, until no shorter period is left.
pub fn detect_pattern<T: PartialEq>(s: Vec<T>, min: usize, max: usize) -> (r: Option<usize>)
    requires
        1 <= min <= max,
        obeys_concrete_eq::<T>(),
    ensures
        r is None <==> pattern_length(s@, min as int, max as int) is None,
        r matches Some(k) ==> pattern_length(s@, min as int, max as int) == Some(k as int),
        r is None <==> !has_period_in(s@, min as int, max as int),
        r matches Some(k) ==> is_least_period_in(s@, min as int, max as int, k as int),
{
    let mut table = new_table(min, max);
    assert forall|len: int| min <= len <= max implies #[trigger] entry_ok(
        s@,
        table@[len - min],
        len,
    ) by {
        assert(table@[len - min] == Some(0usize));
    }
    let mut hi: usize = max;
    let mut best: Option<usize> = None;
    loop
        invariant_except_break
            min <= hi <= max,
            untouched_in(table@, min as int, min as int, hi as int),
            best matches Some(c) ==> c == hi + 1 && c <= max && table@[c - min] == Some(c),
            best is None ==> hi == max,
        invariant
            1 <= min <= max,
            obeys_concrete_eq::<T>(),
            table_ok(s@, table@, min as int, max as int),
        ensures
            best matches Some(c) ==> {
                &&& min <= c <= max
                &&& table@[c - min] == Some(c)
                &&& forall|j: int| min <= j < c ==> #[trigger] table@[j - min] is None
            },
            best is None ==> forall|j: int| min <= j <= max ==> #[trigger] table@[j - min] is None,
        decreases hi,
    {
        let ghost before = table@;
        match widest_scan(&s, &mut table, min, max, hi) {
            None => {
                if let Some(c) = best {
                    assert(table@[c - min] == before[c - min]);
                    assert forall|j: int| min <= j < c implies #[trigger] table@[j - min] is None by {
                        assert(min <= j <= hi);
                    }
                }
                break;
            },
            Some(p) => {
                let c = refine_down(&s, &mut table, min, max, p);
                best = Some(c);
                if c == min {
                    break;
                }
                hi = c - 1;
            },
        }
    }
    let r = first_confirmed(&table, min, max);
    proof {
        if let Some(c) = best {
            assert(entry_ok(s@, table@[c - min], c as int));
            lemma_progress_full(s@, c as int);
            assert forall|j: int| min <= j < c implies !#[trigger] is_period(s@, j) by {
                assert(entry_ok(s@, table@[j - min], j));
            }
            if let Some(i) = r {
                if i < c {
                    assert(table@[i - min] is None);
                } else if c < i {
                    assert(table@[c - min] != Some(c));
                }
            }
            lemma_pattern_length_is(s@, min as int, max as int, c as int);
        } else {
            assert forall|e: int| min <= e <= max implies !#[trigger] is_period(s@, e) by {
                assert(entry_ok(s@, table@[e - min], e));
            }
            if let Some(i) = r {
                assert(table@[i - min] is None);
            }
            lemma_pattern_length(s@, min as int, max as int);
        }
    }
    r
}

} // verus!
