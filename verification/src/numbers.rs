//! Small functions on integers.

use vstd::prelude::*;

verus! {

/// The sum of the integers from `low` to `high`, both included; zero when
/// `low` is above `high`.
pub open spec fn range_sum(low: int, high: int) -> int
    decreases high - low + 1,
{
    if low > high {
        0
    } else {
        range_sum(low, high - 1) + high
    }
}

/// The sum of a range in closed form: the number of terms times the mean of
/// the first and the last.
pub proof fn lemma_range_sum_closed_form(low: int, high: int)
    requires
        low <= high + 1,
    ensures
        2 * range_sum(low, high) == (low + high) * (high - low + 1),
    decreases high - low + 1,
{
    if low <= high {
        lemma_range_sum_closed_form(low, high - 1);
        assert((low + high - 1) * (high - low) + 2 * high == (low + high) * (high - low + 1))
            by (nonlinear_arith);
    } else {
        assert((low + high) * (high - low + 1) == 0) by (nonlinear_arith)
            requires
                low == high + 1,
        ;
    }
}

/// Whether `n` is divisible by two.
pub fn is_even(n: i32) -> (even: bool)
    ensures
        even == (n % 2 == 0),
{
    n % 2 == 0
}

/// Compares a guess with the secret: `0` when they are equal, `1` when the
/// guess is too high, `-1` when it is too low.
pub fn check_guess(guess: i32, secret: i32) -> (hint: i32)
    ensures
        hint == if guess == secret {
            0int
        } else if guess > secret {
            1int
        } else {
            -1int
        },
{
    if guess == secret {
        0
    } else if guess > secret {
        1
    } else {
        -1
    }
}

/// Stores in `total` the sum of the integers from `low` to `high`, both
/// included. The sum must fit in an `i32`.
pub fn sum(total: &mut i32, low: i32, high: i32)
    requires
        i32::MIN <= range_sum(low as int, high as int) <= i32::MAX,
    ensures
        *final(total) == range_sum(low as int, high as int),
{
    let mut acc: i64 = 0;
    let mut next: i64 = low as i64;
    while next <= high as i64
        invariant
            low <= next <= high + 1 || (low > high && next == low),
            acc == range_sum(low as int, next - 1),
            i32::MIN <= low <= i32::MAX,
        decreases high - next + 1,
    {
        proof {
            lemma_range_sum_closed_form(low as int, next - 1);
            lemma_range_sum_closed_form(low as int, next as int);
            lemma_range_sum_magnitude(low as int, next - 1);
        }
        acc = acc + next;
        next = next + 1;
    }
    *total = acc as i32;
}

/// A range inside the `i32` values sums to well inside the `i64` values.
proof fn lemma_range_sum_magnitude(low: int, high: int)
    requires
        i32::MIN <= low <= high + 1 <= i32::MAX + 1,
    ensures
        -0x4000_0000_0000_0000 <= range_sum(low, high) <= 0x4000_0000_0000_0000,
{
    lemma_range_sum_closed_form(low, high);
    assert(-0x8000_0000_0000_0000 <= (low + high) * (high - low + 1) <= 0x8000_0000_0000_0000)
        by (nonlinear_arith)
        requires
            -0x8000_0000 <= low <= high + 1 <= 0x8000_0000,
    ;
}

} // verus!
