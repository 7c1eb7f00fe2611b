use vstd::prelude::*;
use vstd::arithmetic::div_mod::lemma_div_is_ordered;

use crate::formats::{output_extension, OutputFormat};
use crate::processor::{error_text, reduction_of, ProcessError, ProcessingResult, FULL_PERCENT};
use crate::stats::{
    calculate_batch_stats, count_successes, mean_of, median_of, success_reductions, sum_original,
    sum_output, BatchStats,
};

verus! {

/// Progress after one more item of a batch has completed.
#[derive(Debug, Clone)]
pub struct ProgressUpdate {
    /// How many items have completed, this one included.
    pub current: usize,
    /// How many items the batch has.
    pub total: usize,
    /// The input path of the item that completed.
    pub current_file: String,
    /// `current / total` as a percentage, in millionths of a percent, rounded
    /// down.
    pub percent: i128,
}

/// `current / total` as a percentage, in millionths of a percent, rounded
/// down.
pub open spec fn progress_percent(current: nat, total: nat) -> int {
    if total == 0 {
        0
    } else {
        current * FULL_PERCENT / (total as int)
    }
}

/// `r` records the failure `e` of the item read from `input_path`: sizes zero,
/// not successful, and the error's text.
pub open spec fn is_failure_of(
    r: ProcessingResult,
    input_path: Seq<char>,
    output_path: Seq<char>,
    e: ProcessError,
) -> bool {
    &&& r.original_path@ == input_path
    &&& r.output_path@ == output_path
    &&& r.original_size == 0
    &&& r.output_size == 0
    &&& !r.success
    &&& r.error matches Some(m) && m@ == error_text(e)
}

/// `r` is what an item's outcome becomes: the transform's result when it
/// succeeded, a failed result when it did not.
pub open spec fn settles(
    r: ProcessingResult,
    input_path: Seq<char>,
    output_path: Seq<char>,
    outcome: Result<ProcessingResult, ProcessError>,
) -> bool {
    match outcome {
        Ok(x) => r == x,
        Err(e) => is_failure_of(r, input_path, output_path, e),
    }
}

/// Turns an item's outcome into its result, so that an error never leaves
/// the item without one.
pub fn settle(
    input_path: String,
    output_path: String,
    outcome: Result<ProcessingResult, ProcessError>,
) -> (r: ProcessingResult)
    ensures
        settles(r, input_path@, output_path@, outcome),
{
    match outcome {
        Ok(x) => x,
        Err(e) => ProcessingResult::failed(input_path, output_path, &e),
    }
}

/// The decimal digit `d`.
pub open spec fn digit_char(d: nat) -> char {
    seq!['0', '1', '2', '3', '4', '5', '6', '7', '8', '9'][d as int]
}

/// `n` in decimal, without leading zeros.
pub open spec fn decimal(n: nat) -> Seq<char>
    decreases n,
{
    if n < 10 {
        seq![digit_char(n)]
    } else {
        decimal(n / 10).push(digit_char(n % 10))
    }
}

fn digit_text(d: usize) -> (r: &'static str)
    requires
        d < 10,
    ensures
        r@ == seq![digit_char(d as nat)],
{
    proof {
        reveal_strlit("0");
        reveal_strlit("1");
        reveal_strlit("2");
        reveal_strlit("3");
        reveal_strlit("4");
        reveal_strlit("5");
        reveal_strlit("6");
        reveal_strlit("7");
        reveal_strlit("8");
        reveal_strlit("9");
    }
    let r = match d {
        0 => "0",
        1 => "1",
        2 => "2",
        3 => "3",
        4 => "4",
        5 => "5",
        6 => "6",
        7 => "7",
        8 => "8",
        _ => "9",
    };
    assert(r@ =~= seq![digit_char(d as nat)]);
    r
}

fn append_decimal(s: &mut String, n: usize)
    ensures
        final(s)@ == old(s)@ + decimal(n as nat),
    decreases n,
{
    if n >= 10 {
        append_decimal(s, n / 10);
    }
    s.append(digit_text(n % 10));
    assert(n >= 10 ==> decimal(n as nat) == decimal((n / 10) as nat).push(digit_char(
        (n % 10) as nat,
    )));
    assert(final(s)@ =~= old(s)@ + decimal(n as nat));
}

/// The name of the file written for an input: its stem and the format's
/// extension, or `image_<index>` in place of a stem that cannot be had.
pub open spec fn output_name(stem: Option<Seq<char>>, index: nat, format: OutputFormat) -> Seq<
    char,
> {
    let base = match stem {
        Some(s) => s,
        None => "image_"@ + decimal(index),
    };
    base + "."@ + output_extension(format)
}

/// The name of the file written for an input: its stem and the format's
/// extension, or `image_<index>` in place of a stem that cannot be had.
pub fn output_file_name(stem: Option<&str>, index: usize, format: OutputFormat) -> (r: String)
    ensures
        r@ == output_name(
            match stem {
                Some(s) => Some(s@),
                None => None,
            },
            index as nat,
            format,
        ),
{
    let mut name = match stem {
        Some(s) => String::from_str(s),
        None => {
            let mut n = String::from_str("image_");
            append_decimal(&mut n, index);
            n
        },
    };
    name.append(".");
    name.append(format.extension());
    name
}

/// The bookkeeping of a running batch: how many items it has and the results
/// of those that completed, in order of completion.
pub struct BatchProgress {
    total: usize,
    results: Vec<ProcessingResult>,
}

impl BatchProgress {
    /// How many items the batch has.
    pub closed spec fn total_items(&self) -> nat {
        self.total as nat
    }

    /// The results of the completed items, in order of completion.
    pub closed spec fn completed(&self) -> Seq<ProcessingResult> {
        self.results@
    }

    pub open spec fn wf(&self) -> bool {
        self.completed().len() <= self.total_items()
    }

    /// A batch of `total` items, none completed.
    pub fn new(total: usize) -> (r: BatchProgress)
        ensures
            r.wf(),
            r.total_items() == total,
            r.completed() == Seq::<ProcessingResult>::empty(),
    {
        BatchProgress { total, results: Vec::new() }
    }

    /// Whether every item has completed.
    pub fn is_complete(&self) -> (r: bool)
        requires
            self.wf(),
        ensures
            r == (self.completed().len() == self.total_items()),
    {
        self.results.len() == self.total
    }

    /// The results of the completed items, in order of completion.
    pub fn results(&self) -> (r: &Vec<ProcessingResult>)
        ensures
            r@ == self.completed(),
    {
        &self.results
    }

    /// Records that the item read from `input_path` completed with `outcome`:
    /// one result more, whatever the outcome, and the progress that this
    /// makes, counted from 1 in order of completion.
    pub fn record(
        &mut self,
        input_path: String,
        output_path: String,
        outcome: Result<ProcessingResult, ProcessError>,
    ) -> (u: ProgressUpdate)
        requires
            old(self).wf(),
            old(self).completed().len() < old(self).total_items(),
        ensures
            final(self).wf(),
            recorded(*old(self), *final(self), u),
            u.current_file@ == input_path@,
            settles(final(self).completed().last(), input_path@, output_path@, outcome),
    {
        let current = self.results.len() + 1;
        let total = self.total;
        assert(current as int * FULL_PERCENT <= 0xffff_ffff_ffff_ffff * FULL_PERCENT);
        let percent = ((current as u128 * 100_000_000) / total as u128) as i128;
        assert(percent <= FULL_PERCENT) by (nonlinear_arith)
            requires
                percent == current * FULL_PERCENT / (total as int),
                current <= total,
                total > 0,
        {
            assert(current * FULL_PERCENT <= total * FULL_PERCENT);
            assert((total * FULL_PERCENT) / (total as int) == FULL_PERCENT);
        }
        let file = input_path.clone();
        let r = settle(input_path, output_path, outcome);
        self.results.push(r);
        assert(self.results@.drop_last() =~= old(self).results@);
        ProgressUpdate { current, total, current_file: file, percent }
    }

    /// The statistics of the items recorded so far.
    pub fn stats(&self) -> (r: BatchStats)
        requires
            sum_original(self.completed()) <= u64::MAX,
            sum_output(self.completed()) <= u64::MAX,
        ensures
            r.total_files == self.completed().len(),
            r.processed_files == self.completed().len(),
            r.successful_files == count_successes(self.completed()),
            r.failed_files == self.completed().len() - count_successes(self.completed()),
            r.successful_files + r.failed_files == r.total_files,
            r.total_original_size == sum_original(self.completed()),
            r.total_output_size == sum_output(self.completed()),
            r.overall_reduction_percent == reduction_of(r.total_original_size, r.total_output_size),
            r.average_reduction_percent == mean_of(success_reductions(self.completed())),
            r.median_reduction_percent == median_of(success_reductions(self.completed())),
    {
        calculate_batch_stats(&self.results)
    }
}

/// One recording step: the same batch with one result more, reported as
/// completed item number `after.completed().len()`.
pub open spec fn recorded(before: BatchProgress, after: BatchProgress, u: ProgressUpdate) -> bool {
    &&& after.total_items() == before.total_items()
    &&& after.completed().len() == before.completed().len() + 1
    &&& after.completed().drop_last() == before.completed()
    &&& u.current == after.completed().len()
    &&& u.total == after.total_items()
    &&& u.percent == progress_percent(u.current as nat, u.total as nat)
}

/// Over a run of recordings from a fresh batch, the reported counts are
/// 1, 2, ..., in order, the reported percentages never decrease, and each
/// step adds exactly one result; once every item is in, there were as many
/// recordings as items, the last reported count is the total, and its
/// percentage is exactly 100%.
pub proof fn lemma_progress_counts(states: Seq<BatchProgress>, updates: Seq<ProgressUpdate>)
    requires
        states.len() == updates.len() + 1,
        states[0].completed().len() == 0,
        forall|i: int|
            0 <= i < updates.len() ==> recorded(states[i], #[trigger] states[i + 1], updates[i]),
    ensures
        forall|i: int| 0 <= i < updates.len() ==> (#[trigger] updates[i]).current == i + 1,
        forall|i: int, j: int|
            0 <= i < j < updates.len() ==> updates[i].current < updates[j].current,
        forall|i: int| 0 <= i < updates.len() ==> (#[trigger] updates[i]).total == states[0].total_items(),
        forall|i: int, j: int|
            0 <= i < j < updates.len() ==> updates[i].percent <= updates[j].percent,
        states.last().completed().len() == updates.len(),
        states.last().total_items() == states[0].total_items(),
        states.last().completed().len() == states.last().total_items() && updates.len() > 0
            ==> updates.last().current == updates.last().total && updates.last().percent
            == FULL_PERCENT,
    decreases updates.len(),
{
    if updates.len() > 0 {
        let k = updates.len() - 1;
        let s0 = states.drop_last();
        let u0 = updates.drop_last();
        assert forall|i: int| 0 <= i < u0.len() implies recorded(
            s0[i],
            #[trigger] s0[i + 1],
            u0[i],
        ) by {
            assert(recorded(states[i], states[i + 1], updates[i]));
        }
        lemma_progress_counts(s0, u0);
        assert(recorded(states[k], states[k + 1], updates[k]));
        assert forall|i: int| 0 <= i < updates.len() implies (#[trigger] updates[i]).current
            == i + 1 && updates[i].total == states[0].total_items() by {
            if i < k {
                assert(u0[i] == updates[i]);
            }
        }
        assert forall|i: int, j: int|
            0 <= i < j < updates.len() implies updates[i].percent <= updates[j].percent by {
            let t = states[0].total_items() as int;
            assert(recorded(states[i], states[i + 1], updates[i]));
            assert(recorded(states[j], states[j + 1], updates[j]));
            assert(updates[i].total == t && updates[j].total == t);
            assert(updates[i].current < updates[j].current);
            if t > 0 {
                assert(updates[i].current * FULL_PERCENT <= updates[j].current * FULL_PERCENT);
                lemma_div_is_ordered(
                    updates[i].current * FULL_PERCENT,
                    updates[j].current * FULL_PERCENT,
                    t,
                );
            }
        }
        let t = updates.last().total as int;
        if states.last().completed().len() == states.last().total_items() {
            assert(t * FULL_PERCENT / t == FULL_PERCENT) by (nonlinear_arith)
                requires
                    t > 0,
            ;
        }
    }
}

} // verus!
