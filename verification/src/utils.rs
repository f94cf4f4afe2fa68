//! The grid of rates that a sweep walks, and the plan that hands its trials out to workers.

use vstd::prelude::*;
use crate::fixed_point::quotient;

verus! {

/// The value at position `i` of `count` values spread evenly from `first` to `last`: the
/// offset from `first` is `i` times the distance, over `count - 1`, rounded toward zero.
pub open spec fn spaced_value(first: int, last: int, count: int, i: int) -> int
    recommends
        count >= 2,
{
    first + quotient(i * (last - first), count - 1)
}

/// What [`generate_equally_spaced_values`] returns.
pub open spec fn equally_spaced(min_val: i64, max_val: i64, length: nat, invert: bool) -> Seq<i64> {
    if length <= 1 {
        seq![min_val]
    } else if invert {
        Seq::new(length, |i: int| spaced_value(max_val as int, min_val as int, length as int, i) as i64)
    } else {
        Seq::new(length, |i: int| spaced_value(min_val as int, max_val as int, length as int, i) as i64)
    }
}

/// Every evenly spaced value lies between the two ends, and the first and the last are the
/// ends themselves.
pub proof fn lemma_spaced_value_between(first: int, last: int, count: int, i: int)
    requires
        count >= 2,
        0 <= i < count,
    ensures
        first <= last ==> first <= spaced_value(first, last, count, i) <= last,
        last <= first ==> last <= spaced_value(first, last, count, i) <= first,
        i == 0 ==> spaced_value(first, last, count, i) == first,
        i == count - 1 ==> spaced_value(first, last, count, i) == last,
{
    let d = count - 1;
    if last >= first {
        let span = last - first;
        assert(0 <= i * span <= d * span) by (nonlinear_arith)
            requires
                0 <= i <= d,
                span >= 0,
        ;
        assert(0 <= (i * span) / d <= span) by (nonlinear_arith)
            requires
                0 <= i * span <= d * span,
                d > 0,
        ;
        if i == d {
            assert((d * span) / d == span) by (nonlinear_arith)
                requires
                    d > 0,
            ;
        }
    } else {
        let span = first - last;
        assert(i * (last - first) == -(i * span)) by (nonlinear_arith)
            requires
                span == first - last,
        ;
        assert(0 <= i * span <= d * span) by (nonlinear_arith)
            requires
                0 <= i <= d,
                span >= 0,
        ;
        assert(0 <= (i * span) / d <= span) by (nonlinear_arith)
            requires
                0 <= i * span <= d * span,
                d > 0,
        ;
        if i == d {
            assert((d * span) / d == span) by (nonlinear_arith)
                requires
                    d > 0,
            ;
        }
    }
}

/// Spreads `length` values evenly from `min_val` to `max_val`, both ends included, or from
/// `max_val` down to `min_val` when `invert` is set. A `length` of zero or one gives the single
/// value `min_val`, whatever `max_val` and `invert` are.
pub fn generate_equally_spaced_values(min_val: i64, max_val: i64, length: usize, invert: bool) -> (values: Vec<i64>)
    ensures
        values@ == equally_spaced(min_val, max_val, length as nat, invert),
{
    if length <= 1 {
        let mut single: Vec<i64> = Vec::new();
        single.push(min_val);
        assert(single@ =~= seq![min_val]);
        return single;
    }
    let first: i64 = if invert { max_val } else { min_val };
    let last: i64 = if invert { min_val } else { max_val };
    let rising: bool = last >= first;
    let span: u128 = if rising {
        (last as i128 - first as i128) as u128
    } else {
        (first as i128 - last as i128) as u128
    };
    let steps: u128 = (length - 1) as u128;
    let mut values: Vec<i64> = Vec::new();
    let mut i: usize = 0;
    while i < length
        invariant
            length >= 2,
            steps == length - 1,
            i <= length,
            rising == (last >= first),
            rising ==> span == last - first,
            !rising ==> span == first - last,
            values.len() == i,
            forall|j: int| 0 <= j < i ==> values[j] == spaced_value(first as int, last as int, length as int, j),
        decreases length - i,
    {
        proof {
            lemma_spaced_value_between(first as int, last as int, length as int, i as int);
            assert(0 <= i * span <= steps * span) by (nonlinear_arith)
                requires
                    0 <= i <= steps,
                    span >= 0,
            ;
            assert(steps * span <= 0xffff_ffff_ffff_ffff * 0xffff_ffff_ffff_ffff) by (nonlinear_arith)
                requires
                    0 <= steps <= 0xffff_ffff_ffff_ffff,
                    0 <= span <= 0xffff_ffff_ffff_ffff,
            ;
            if !rising {
                assert(i * (last - first) == -(i * span)) by (nonlinear_arith)
                    requires
                        span == first - last,
                ;
            }
        }
        let offset: u128 = (i as u128 * span) / steps;
        let value: i128 = if rising {
            first as i128 + offset as i128
        } else {
            first as i128 - offset as i128
        };
        values.push(value as i64);
        i = i + 1;
    }
    assert(values@ =~= equally_spaced(min_val, max_val, length as nat, invert));
    values
}

/// The sum of a sequence of batch sizes.
pub open spec fn total_batches(batches: Seq<usize>) -> int
    decreases batches.len(),
{
    if batches.len() == 0 {
        0
    } else {
        total_batches(batches.drop_last()) + batches.last()
    }
}

/// What [`distribute_run_times`] returns: with both arguments raised to at least one, as many
/// batches of `num_processes` trials as fit into `num_iterations`, then one batch with the
/// trials that are left, if any are.
pub open spec fn batch_plan(num_processes: usize, num_iterations: usize) -> Seq<usize> {
    let workers: usize = if num_processes < 1 { 1 } else { num_processes };
    let trials: usize = if num_iterations < 1 { 1 } else { num_iterations };
    let full = Seq::new((trials / workers) as nat, |i: int| workers);
    if trials % workers == 0 {
        full
    } else {
        full.push(trials % workers)
    }
}

/// Splits `num_iterations` trials into the batches that `num_processes` workers run one
/// after the other. Either argument, when zero, counts as one.
pub fn distribute_run_times(num_processes: usize, num_iterations: usize) -> (batches: Vec<usize>)
    ensures
        batches@ == batch_plan(num_processes, num_iterations),
{
    let workers: usize = if num_processes < 1 { 1 } else { num_processes };
    let trials: usize = if num_iterations < 1 { 1 } else { num_iterations };
    let int_times: usize = trials / workers;
    let remainder_times: usize = trials % workers;
    let mut batches: Vec<usize> = vec![workers; int_times];
    assert(batches@ =~= Seq::new(int_times as nat, |i: int| workers));
    if remainder_times != 0 {
        batches.push(remainder_times);
    }
    batches
}

/// A sequence of `count` batches of `size` trials each holds `count * size` trials.
proof fn lemma_total_of_equal_batches(count: nat, size: usize)
    ensures
        total_batches(Seq::new(count, |i: int| size)) == count * size,
    decreases count,
{
    let batches = Seq::new(count, |i: int| size);
    if count > 0 {
        assert(batches.drop_last() =~= Seq::new((count - 1) as nat, |i: int| size));
        lemma_total_of_equal_batches((count - 1) as nat, size);
        assert(count * size == (count - 1) * size + size) by (nonlinear_arith);
    } else {
        assert(count * size == 0) by (nonlinear_arith)
            requires
                count == 0,
        ;
    }
}

/// The batches of a plan hold every trial exactly once, no batch is empty, and none is
/// larger than the number of workers: so no more than `num_processes` trials (at least one)
/// ever run at a time.
pub proof fn lemma_batch_plan_covers_all_trials(num_processes: usize, num_iterations: usize)
    ensures
        total_batches(batch_plan(num_processes, num_iterations)) == if num_iterations < 1 {
            1
        } else {
            num_iterations as int
        },
        forall|i: int|
            0 <= i < batch_plan(num_processes, num_iterations).len() ==> 1 <= #[trigger] batch_plan(
                num_processes,
                num_iterations,
            )[i] <= if num_processes < 1 {
                1
            } else {
                num_processes as int
            },
{
    let workers: usize = if num_processes < 1 { 1 } else { num_processes };
    let trials: usize = if num_iterations < 1 { 1 } else { num_iterations };
    let count = (trials / workers) as nat;
    let full = Seq::new(count, |i: int| workers);
    lemma_total_of_equal_batches(count, workers);
    assert(trials == workers * (trials / workers) + trials % workers) by (nonlinear_arith)
        requires
            workers > 0,
    ;
    assert(count * workers == workers * (trials / workers)) by (nonlinear_arith)
        requires
            count == trials / workers,
    ;
    if trials % workers != 0 {
        assert(full.push((trials % workers) as usize).drop_last() =~= full);
    }
}

} // verus!
