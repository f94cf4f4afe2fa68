//! Fixed-point arithmetic shared by the whole library.

use vstd::prelude::*;

verus! {

/// The real number one. A real quantity `x` is held as the `i64` that counts how many
/// thousand-millionths it has, so `0.5` is `500_000_000`.
pub const ONE: i64 = 1_000_000_000;

/// The value that stands for negative infinity: no other value is below it.
pub const NEG_INFINITY: i64 = i64::MIN;

/// Division that rounds toward zero, for a positive divisor.
pub open spec fn quotient(dividend: int, divisor: int) -> int
    recommends
        divisor > 0,
{
    if dividend >= 0 {
        dividend / divisor
    } else {
        -((-dividend) / divisor)
    }
}

/// The sum of a sequence of values.
pub open spec fn total(values: Seq<i64>) -> int
    decreases values.len(),
{
    if values.len() == 0 {
        0
    } else {
        total(values.drop_last()) + values.last()
    }
}

/// A sum of `n` values lies between `n` times the least and `n` times the greatest `i64`.
pub proof fn lemma_total_bounds(values: Seq<i64>)
    ensures
        values.len() * i64::MIN <= total(values) <= values.len() * i64::MAX,
    decreases values.len(),
{
    if values.len() > 0 {
        lemma_total_bounds(values.drop_last());
    }
}

/// A sum of values that all lie between `low` and `high` lies between `n * low` and
/// `n * high`.
pub proof fn lemma_total_between(values: Seq<i64>, low: int, high: int)
    requires
        forall|i: int| 0 <= i < values.len() ==> low <= #[trigger] values[i] <= high,
    ensures
        values.len() * low <= total(values) <= values.len() * high,
    decreases values.len(),
{
    if values.len() > 0 {
        let front = values.drop_last();
        assert forall|i: int| 0 <= i < front.len() implies low <= #[trigger] front[i] <= high by {
            assert(front[i] == values[i]);
        }
        lemma_total_between(front, low, high);
        assert(low <= values[values.len() - 1] <= high);
        assert(values.len() * low == front.len() * low + low) by (nonlinear_arith)
            requires
                values.len() == front.len() + 1,
        ;
        assert(values.len() * high == front.len() * high + high) by (nonlinear_arith)
            requires
                values.len() == front.len() + 1,
        ;
    } else {
        assert(values.len() * low == 0 && values.len() * high == 0) by (nonlinear_arith)
            requires
                values.len() == 0,
        ;
    }
}

/// A quotient is no further from zero than its dividend, and on the same side of it.
pub proof fn lemma_quotient_shrinks(dividend: int, divisor: int)
    requires
        divisor > 0,
    ensures
        dividend >= 0 ==> 0 <= quotient(dividend, divisor) <= dividend,
        dividend <= 0 ==> dividend <= quotient(dividend, divisor) <= 0,
{
    if dividend >= 0 {
        assert(0 <= dividend / divisor <= dividend) by (nonlinear_arith)
            requires
                dividend >= 0,
                divisor > 0,
        ;
    } else {
        let m = -dividend;
        assert(0 <= m / divisor <= m) by (nonlinear_arith)
            requires
                m >= 0,
                divisor > 0,
        ;
    }
}

/// A dividend between `divisor * low` and `divisor * high` has its quotient between `low`
/// and `high`, where `low` is not above zero and `high` not below it.
pub proof fn lemma_quotient_between(dividend: int, divisor: int, low: int, high: int)
    requires
        divisor > 0,
        low <= 0 <= high,
        divisor * low <= dividend <= divisor * high,
    ensures
        low <= quotient(dividend, divisor) <= high,
{
    if dividend >= 0 {
        assert(0 <= dividend / divisor <= high) by (nonlinear_arith)
            requires
                0 <= dividend <= divisor * high,
                divisor > 0,
        ;
    } else {
        let m = -dividend;
        let bound = -low;
        assert(divisor * bound == -(divisor * low)) by (nonlinear_arith)
            requires
                bound == -low,
        ;
        assert(0 <= m / divisor <= bound) by (nonlinear_arith)
            requires
                0 <= m <= divisor * bound,
                divisor > 0,
        ;
    }
}

/// The mean of a sequence of values, rounded toward zero; zero for the empty sequence.
pub open spec fn mean(values: Seq<i64>) -> int {
    if values.len() == 0 {
        0
    } else {
        quotient(total(values), values.len() as int)
    }
}

/// The mean of values that all lie between `low` and `high` lies between them too, where
/// `low` is not above zero and `high` not below it.
pub proof fn lemma_mean_between(values: Seq<i64>, low: int, high: int)
    requires
        low <= 0 <= high,
        forall|i: int| 0 <= i < values.len() ==> low <= #[trigger] values[i] <= high,
    ensures
        low <= mean(values) <= high,
{
    if values.len() > 0 {
        lemma_total_between(values, low, high);
        lemma_quotient_between(total(values), values.len() as int, low, high);
    }
}

/// Divides, rounding toward zero.
pub fn divide(dividend: i128, divisor: i128) -> (q: i128)
    requires
        divisor > 0,
    ensures
        q == quotient(dividend as int, divisor as int),
{
    dividend / divisor
}

/// Adds up a slice of values. The sum of any slice fits in an `i128`.
pub fn sum_of(values: &[i64]) -> (sum: i128)
    ensures
        sum == total(values@),
{
    let mut sum: i128 = 0;
    let mut i: usize = 0;
    while i < values.len()
        invariant
            i <= values.len(),
            sum == total(values@.take(i as int)),
            i * i64::MIN <= sum <= i * i64::MAX,
        decreases values.len() - i,
    {
        proof {
            assert(values@.take(i + 1).drop_last() =~= values@.take(i as int));
        }
        sum = sum + values[i] as i128;
        i = i + 1;
    }
    proof {
        assert(values@.take(i as int) =~= values@);
    }
    sum
}

/// The mean of a slice of values, rounded toward zero; zero for the empty slice.
pub fn mean_of(values: &[i64]) -> (m: i64)
    ensures
        m == mean(values@),
{
    if values.len() == 0 {
        return 0;
    }
    let sum: i128 = sum_of(values);
    proof {
        lemma_total_bounds(values@);
        lemma_quotient_between(sum as int, values.len() as int, i64::MIN as int, i64::MAX as int);
    }
    divide(sum, values.len() as i128) as i64
}

} // verus!
