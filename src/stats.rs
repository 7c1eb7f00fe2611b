use vstd::prelude::*;
use vstd::arithmetic::div_mod::{lemma_fundamental_div_mod, lemma_fundamental_div_mod_converse};

use crate::processor::{
    lemma_reduction_bounded, reduction_of, reduction_percent_of, ProcessingResult, REDUCTION_BOUND,
};

verus! {

/// Totals and averages over the results of one batch. Percentages are in
/// millionths of a percent.
#[derive(Debug, Clone)]
pub struct BatchStats {
    pub total_files: usize,
    pub processed_files: usize,
    pub successful_files: usize,
    pub failed_files: usize,
    /// Summed input sizes of the successful items.
    pub total_original_size: u64,
    /// Summed output sizes of the successful items.
    pub total_output_size: u64,
    /// Reduction from the summed sizes, not from the per-item percentages.
    pub overall_reduction_percent: i128,
    /// Mean of the successful items' reductions, rounded down.
    pub average_reduction_percent: i128,
    /// Median of the successful items' reductions, rounded down.
    pub median_reduction_percent: i128,
}

/// How many results succeeded.
pub open spec fn count_successes(rs: Seq<ProcessingResult>) -> nat
    decreases rs.len(),
{
    if rs.len() == 0 {
        0
    } else {
        count_successes(rs.drop_last()) + if rs.last().success {
            1nat
        } else {
            0nat
        }
    }
}

/// Summed input sizes of the successful results.
pub open spec fn sum_original(rs: Seq<ProcessingResult>) -> nat
    decreases rs.len(),
{
    if rs.len() == 0 {
        0
    } else {
        sum_original(rs.drop_last()) + if rs.last().success {
            rs.last().original_size as nat
        } else {
            0nat
        }
    }
}

/// Summed output sizes of the successful results.
pub open spec fn sum_output(rs: Seq<ProcessingResult>) -> nat
    decreases rs.len(),
{
    if rs.len() == 0 {
        0
    } else {
        sum_output(rs.drop_last()) + if rs.last().success {
            rs.last().output_size as nat
        } else {
            0nat
        }
    }
}

/// The reductions of the successful results, in order.
pub open spec fn success_reductions(rs: Seq<ProcessingResult>) -> Seq<i128>
    decreases rs.len(),
{
    if rs.len() == 0 {
        Seq::<i128>::empty()
    } else {
        let rest = success_reductions(rs.drop_last());
        if rs.last().success {
            rest.push(reduction_of(rs.last().original_size, rs.last().output_size) as i128)
        } else {
            rest
        }
    }
}

pub open spec fn sum_of(s: Seq<i128>) -> int
    decreases s.len(),
{
    if s.len() == 0 {
        0
    } else {
        sum_of(s.drop_last()) + s.last()
    }
}

/// Arithmetic mean rounded down; zero for no values.
pub open spec fn mean_of(s: Seq<i128>) -> int {
    if s.len() == 0 {
        0
    } else {
        sum_of(s) / (s.len() as int)
    }
}

pub open spec fn is_sorted(s: Seq<i128>) -> bool {
    forall|i: int, j: int| 0 <= i < j < s.len() ==> s[i] <= s[j]
}

/// The values of `s` in ascending order.
pub open spec fn sorted_of(s: Seq<i128>) -> Seq<i128> {
    choose|t: Seq<i128>| is_sorted(t) && t.to_multiset() == s.to_multiset()
}

/// Middle value of an ascending sequence; the two middle values averaged
/// (rounded down) when the length is even; zero for no values.
pub open spec fn median_of_sorted(t: Seq<i128>) -> int {
    if t.len() == 0 {
        0
    } else if t.len() % 2 == 1 {
        t[(t.len() / 2) as int] as int
    } else {
        (t[t.len() / 2 - 1] + t[(t.len() / 2) as int]) / 2
    }
}

/// Median of the values, taken over them in ascending order.
pub open spec fn median_of(s: Seq<i128>) -> int {
    median_of_sorted(sorted_of(s))
}

/// Two ascending sequences with the same elements are equal.
pub proof fn lemma_sorted_unique(t1: Seq<i128>, t2: Seq<i128>)
    requires
        is_sorted(t1),
        is_sorted(t2),
        t1.to_multiset() == t2.to_multiset(),
    ensures
        t1 == t2,
    decreases t1.len(),
{
    broadcast use vstd::seq_lib::group_to_multiset_ensures;

    assert(t1.len() == t1.to_multiset().len());
    assert(t2.len() == t2.to_multiset().len());
    if t1.len() == 0 {
        assert(t1 =~= t2);
    } else {
        assert(t1.to_multiset().count(t1[0]) > 0) by {
            assert(t1.contains(t1[0]));
        }
        assert(t2.contains(t1[0]));
        let k2 = choose|k: int| 0 <= k < t2.len() && t2[k] == t1[0];
        assert(t1.to_multiset().count(t2[0]) > 0) by {
            assert(t2.contains(t2[0]));
        }
        assert(t1.contains(t2[0]));
        let k1 = choose|k: int| 0 <= k < t1.len() && t1[k] == t2[0];
        if k1 > 0 {
            assert(t1[0] <= t1[k1]);
        }
        if k2 > 0 {
            assert(t2[0] <= t2[k2]);
        }
        assert(t1[0] == t2[0]);
        let r1 = t1.remove(0);
        let r2 = t2.remove(0);
        assert(r1.to_multiset() == t1.to_multiset().remove(t1[0]));
        assert(r2.to_multiset() == t2.to_multiset().remove(t2[0]));
        assert(is_sorted(r1));
        assert(is_sorted(r2));
        lemma_sorted_unique(r1, r2);
        assert(t1 =~= seq![t1[0]] + r1);
        assert(t2 =~= seq![t2[0]] + r2);
    }
}

/// Relies on `slice::sort`: it leaves the same elements in ascending order.
#[verifier::external_body]
fn sort_ascending(v: &mut Vec<i128>)
    ensures
        is_sorted(final(v)@),
        final(v)@.to_multiset() == old(v)@.to_multiset(),
{
    v.sort();
}

/// Median of the values, rounded down; zero for no values.
pub fn median_value(values: &Vec<i128>) -> (r: i128)
    requires
        forall|i: int| 0 <= i < values@.len() ==> -REDUCTION_BOUND <= #[trigger] values@[i]
            <= REDUCTION_BOUND,
    ensures
        r == median_of(values@),
{
    let mut t = values.clone();
    assert(t@ == values@);
    sort_ascending(&mut t);
    proof {
        let s = sorted_of(values@);
        assert(is_sorted(s) && s.to_multiset() == values@.to_multiset());
        lemma_sorted_unique(s, t@);
    }
    let n = t.len();
    assert forall|i: int| 0 <= i < n implies -REDUCTION_BOUND <= #[trigger] t@[i]
        <= REDUCTION_BOUND by {
        broadcast use vstd::seq_lib::group_to_multiset_ensures;

        assert(t@.to_multiset().count(t@[i]) > 0) by {
            assert(t@.contains(t@[i]));
        }
        assert(values@.contains(t@[i]));
    }
    if n == 0 {
        0
    } else if n % 2 == 1 {
        t[n / 2]
    } else {
        let a = t[n / 2 - 1] + REDUCTION_BOUND;
        let b = t[n / 2] + REDUCTION_BOUND;
        (a + b) / 2 - REDUCTION_BOUND
    }
}

/// Mean of the values, rounded down; zero for no values.
pub fn mean_value(values: &Vec<i128>) -> (r: i128)
    requires
        forall|i: int| 0 <= i < values@.len() ==> -REDUCTION_BOUND <= #[trigger] values@[i]
            <= REDUCTION_BOUND,
    ensures
        r == mean_of(values@),
{
    let n = values.len();
    if n == 0 {
        return 0;
    }
    let d: i128 = n as i128;
    let mut q: i128 = 0;
    let mut rem: i128 = 0;
    let mut i: usize = 0;
    assert(values@.take(0) =~= Seq::<i128>::empty());
    while i < n
        invariant
            n == values@.len(),
            n > 0,
            d == n,
            i <= n,
            forall|k: int| 0 <= k < values@.len() ==> -REDUCTION_BOUND <= #[trigger] values@[k]
                <= REDUCTION_BOUND,
            -(i * REDUCTION_BOUND) <= sum_of(values@.take(i as int)) <= i * REDUCTION_BOUND,
            sum_of(values@.take(i as int)) + i * REDUCTION_BOUND == q * d + rem,
            0 <= rem < d,
            0 <= q <= 2 * REDUCTION_BOUND,
        decreases n - i,
    {
        let x: i128 = values[i] + REDUCTION_BOUND;
        let xu = x as u128;
        let du = d as u128;
        let xq = (xu / du) as i128;
        let xr = (xu % du) as i128;
        proof {
            lemma_fundamental_div_mod(xu as int, du as int);
        }
        assert(x == xq * d + xr) by (nonlinear_arith)
            requires
                xu == du * (xu / du) + xu % du,
                xq == xu / du,
                xr == xu % du,
                x == xu,
                d == du,
        ;
        assert(0 <= xr < d);
        assert(0 <= xq <= x) by (nonlinear_arith)
            requires
                x >= 0,
                d >= 1,
                x == xq * d + xr,
                0 <= xr < d,
        ;
        assert(values@.take(i + 1).drop_last() =~= values@.take(i as int));
        assert(sum_of(values@.take(i + 1)) == sum_of(values@.take(i as int)) + values@[i as int]);
        let ghost old_q = q;
        let ghost old_rem = rem;
        q = q + xq;
        rem = rem + xr;
        if rem >= d {
            rem = rem - d;
            q = q + 1;
            assert(q * d + rem == (old_q + xq) * d + (old_rem + xr)) by (nonlinear_arith)
                requires
                    q == old_q + xq + 1,
                    rem == old_rem + xr - d,
            ;
        }
        assert(q * d + rem == old_q * d + old_rem + xq * d + xr) by (nonlinear_arith)
            requires
                q * d + rem == (old_q + xq) * d + (old_rem + xr),
        ;
        i = i + 1;
        assert(-(i * REDUCTION_BOUND) <= sum_of(values@.take(i as int)) <= i * REDUCTION_BOUND);
        assert(q <= 2 * REDUCTION_BOUND) by (nonlinear_arith)
            requires
                q * d + rem <= 2 * i * REDUCTION_BOUND,
                i <= d,
                d >= 1,
                rem >= 0,
        ;
    }
    assert(values@.take(n as int) =~= values@);
    proof {
        let s = sum_of(values@);
        assert(s == (q - REDUCTION_BOUND) * d + rem) by (nonlinear_arith)
            requires
                s + n * REDUCTION_BOUND == q * d + rem,
                d == n,
        ;
        lemma_fundamental_div_mod_converse(s, d as int, q - REDUCTION_BOUND, rem as int);
    }
    q - REDUCTION_BOUND
}

/// Every reduction of a successful result lies within `REDUCTION_BOUND`.
proof fn lemma_success_reductions_bounded(rs: Seq<ProcessingResult>)
    ensures
        forall|i: int| 0 <= i < success_reductions(rs).len() ==> -REDUCTION_BOUND
            <= #[trigger] success_reductions(rs)[i] <= REDUCTION_BOUND,
    decreases rs.len(),
{
    if rs.len() > 0 {
        let rest = success_reductions(rs.drop_last());
        lemma_success_reductions_bounded(rs.drop_last());
        lemma_reduction_bounded(rs.last().original_size, rs.last().output_size);
        let x = reduction_of(rs.last().original_size, rs.last().output_size) as i128;
        if rs.last().success {
            assert forall|i: int| 0 <= i < rest.push(x).len() implies -REDUCTION_BOUND
                <= #[trigger] rest.push(x)[i] <= REDUCTION_BOUND by {
                if i < rest.len() {
                    assert(rest.push(x)[i] == rest[i]);
                }
            }
        }
    }
}

/// Reduces the results of a batch to its statistics. Only successful items
/// count towards sizes and percentages.
pub fn calculate_batch_stats(results: &Vec<ProcessingResult>) -> (r: BatchStats)
    requires
        sum_original(results@) <= u64::MAX,
        sum_output(results@) <= u64::MAX,
    ensures
        r.total_files == results@.len(),
        r.processed_files == results@.len(),
        r.successful_files == count_successes(results@),
        r.failed_files == results@.len() - count_successes(results@),
        r.successful_files + r.failed_files == r.total_files,
        r.total_original_size == sum_original(results@),
        r.total_output_size == sum_output(results@),
        r.overall_reduction_percent == reduction_of(r.total_original_size, r.total_output_size),
        r.average_reduction_percent == mean_of(success_reductions(results@)),
        r.median_reduction_percent == median_of(success_reductions(results@)),
{
    let n = results.len();
    let mut successes: usize = 0;
    let mut original: u128 = 0;
    let mut output: u128 = 0;
    let mut reductions: Vec<i128> = Vec::new();
    let mut i: usize = 0;
    assert(results@.take(0) =~= Seq::<ProcessingResult>::empty());
    while i < n
        invariant
            n == results@.len(),
            i <= n,
            successes == count_successes(results@.take(i as int)),
            successes <= i,
            original == sum_original(results@.take(i as int)),
            output == sum_output(results@.take(i as int)),
            original <= i * 0xffff_ffff_ffff_ffff,
            output <= i * 0xffff_ffff_ffff_ffff,
            reductions@ == success_reductions(results@.take(i as int)),
        decreases n - i,
    {
        let r = &results[i];
        assert(results@.take(i + 1).drop_last() =~= results@.take(i as int));
        assert(results@.take(i + 1).last() == results@[i as int]);
        if r.success {
            successes = successes + 1;
            original = original + r.original_size as u128;
            output = output + r.output_size as u128;
            let red = r.reduction_percent();
            reductions.push(red);
        }
        i = i + 1;
    }
    assert(results@.take(n as int) =~= results@);
    proof {
        lemma_success_reductions_bounded(results@);
    }
    let total_original_size = original as u64;
    let total_output_size = output as u64;
    let average_reduction_percent = mean_value(&reductions);
    let median_reduction_percent = median_value(&reductions);
    BatchStats {
        total_files: n,
        processed_files: n,
        successful_files: successes,
        failed_files: n - successes,
        total_original_size,
        total_output_size,
        overall_reduction_percent: reduction_percent_of(total_original_size, total_output_size),
        average_reduction_percent,
        median_reduction_percent,
    }
}

/// How many workers a batch uses on a machine with `cpu_count` logical
/// processors: half of them, rounded up, and from 2 to 8.
pub open spec fn worker_count(cpu_count: nat) -> nat {
    let half = (cpu_count + 1) / 2;
    if half < 2 {
        2
    } else if half > 8 {
        8
    } else {
        half
    }
}

/// How many workers a batch uses on a machine with `cpu_count` logical
/// processors: half of them, rounded up, and from 2 to 8.
pub fn calculate_optimal_threads(cpu_count: usize) -> (r: usize)
    ensures
        r == worker_count(cpu_count as nat),
        2 <= r <= 8,
{
    let half = cpu_count / 2 + cpu_count % 2;
    if half < 2 {
        2
    } else if half > 8 {
        8
    } else {
        half
    }
}

} // verus!
