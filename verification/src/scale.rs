//! The scale of the count axis: the bound that lies on a grid of ten steps to the decade.

use crate::error::HistError;
use crate::tenths::{power_of_ten, tenth, value_of_step};
use vstd::arithmetic::mul::{lemma_mul_inequality, lemma_mul_is_commutative};
use vstd::arithmetic::power::{
    lemma_pow1, lemma_pow_adds, lemma_pow_increases, lemma_pow_multiplies, lemma_pow_positive, pow,
};
use vstd::prelude::*;

verus! {

/// `k` tenths of a decade reach `m`: `10^(k/10) >= m`, stated in whole numbers.
pub open spec fn reaches(k: nat, m: nat) -> bool {
    pow(10, k) >= pow(m as int, 10)
}

/// `k` is the least number of tenths of a decade that reach `m`:
/// `k == ceil(10 * log10(m))`.
pub open spec fn is_step(k: nat, m: nat) -> bool {
    reaches(k, m) && (k > 0 ==> !reaches((k - 1) as nat, m))
}

/// `b` is `10^(k/10)` rounded down.
pub open spec fn is_step_value(b: nat, k: nat) -> bool {
    pow(b as int, 10) <= pow(10, k) < pow((b + 1) as int, 10)
}

/// The step of `m`: `ceil(10 * log10(m))`, for `m >= 1`.
pub open spec fn step_of(m: nat) -> nat {
    choose|k: nat| is_step(k, m)
}

/// `10^(k/10)` rounded down.
pub open spec fn step_value(k: nat) -> nat {
    choose|b: nat| is_step_value(b, k)
}

/// The bound of an axis that has to show the count `m >= 1`:
/// `10^(ceil(10 * log10(m)) / 10)` rounded down.
pub open spec fn axis_scale_of(m: nat) -> nat {
    step_value(step_of(m))
}

/// The width of an axis for `n` bars: `n` and a tenth of it more, rounded up.
pub open spec fn padded_extent(n: nat) -> nat {
    (11 * n + 9) / 10
}

/// `n`, or the greatest `usize` where `n` is greater.
pub open spec fn capped(n: nat) -> usize {
    if n <= usize::MAX {
        n as usize
    } else {
        usize::MAX
    }
}

/// A power grows with its base.
pub proof fn lemma_pow_base_increases(a: nat, b: nat, e: nat)
    requires
        a <= b,
    ensures
        0 <= pow(a as int, e) <= pow(b as int, e),
    decreases e,
{
    reveal(pow);
    if e > 0 {
        lemma_pow_base_increases(a, b, (e - 1) as nat);
        let x = pow(a as int, (e - 1) as nat);
        let y = pow(b as int, (e - 1) as nat);
        lemma_mul_inequality(x, y, a as int);
        lemma_mul_is_commutative(x, a as int);
        lemma_mul_is_commutative(y, a as int);
        lemma_mul_inequality(a as int, b as int, y);
        assert(a * x >= 0) by (nonlinear_arith)
            requires
                a >= 0,
                x >= 0,
        ;
    }
}

/// No number has two steps.
pub proof fn lemma_step_unique(j: nat, k: nat, m: nat)
    requires
        is_step(j, m),
        is_step(k, m),
    ensures
        j == k,
{
    if j < k {
        lemma_pow_increases(10, j, (k - 1) as nat);
    }
    if k < j {
        lemma_pow_increases(10, k, (j - 1) as nat);
    }
}

/// No step has two values.
pub proof fn lemma_step_value_unique(a: nat, b: nat, k: nat)
    requires
        is_step_value(a, k),
        is_step_value(b, k),
    ensures
        a == b,
{
    if a < b {
        lemma_pow_base_increases(a + 1, b, 10);
    }
    if b < a {
        lemma_pow_base_increases(b + 1, a, 10);
    }
}

proof fn lemma_least_step(m: nat, k: nat)
    requires
        reaches(k, m),
    ensures
        exists|j: nat| is_step(j, m),
    decreases k,
{
    if k > 0 && reaches((k - 1) as nat, m) {
        lemma_least_step(m, (k - 1) as nat);
    } else {
        assert(is_step(k, m));
    }
}

proof fn lemma_ten_to_the_n_exceeds_n(n: nat)
    ensures
        pow(10, n) > n,
    decreases n,
{
    reveal(pow);
    if n > 0 {
        lemma_ten_to_the_n_exceeds_n((n - 1) as nat);
    }
}

/// Every number has a step.
pub proof fn lemma_step_exists(m: nat)
    ensures
        is_step(step_of(m), m),
{
    lemma_ten_to_the_n_exceeds_n(m);
    lemma_pow_positive(10, m);
    lemma_pow_base_increases(m, pow(10, m) as nat, 10);
    lemma_pow_multiplies(10, m, 10);
    assert(reaches(m * 10, m));
    lemma_least_step(m, m * 10);
}

proof fn lemma_greatest_value(k: nat, b: nat)
    requires
        pow(10, k) < pow((b + 1) as int, 10),
    ensures
        exists|a: nat| is_step_value(a, k),
    decreases b,
{
    if pow(b as int, 10) <= pow(10, k) {
        assert(is_step_value(b, k));
    } else {
        lemma_pow_positive(10, k);
        if b == 0 {
            reveal_with_fuel(pow, 2);
            assert(pow(0, 10) == 0);
        }
        lemma_greatest_value(k, (b - 1) as nat);
    }
}

/// Every step has a value.
pub proof fn lemma_step_value_exists(k: nat)
    ensures
        is_step_value(step_value(k), k),
{
    lemma_pow_positive(10, k);
    let top = pow(10, k) as nat;
    lemma_pow_base_increases(1, top + 1, 9);
    lemma_pow_adds((top + 1) as int, 1, 9);
    lemma_pow1((top + 1) as int);
    assert(pow(1, 9) == 1) by {
        reveal_with_fuel(pow, 10);
    }
    assert((top + 1) * pow((top + 1) as int, 9) >= top + 1) by (nonlinear_arith)
        requires
            pow((top + 1) as int, 9) >= 1,
            top >= 0,
    ;
    lemma_greatest_value(k, top);
}

/// The axis bound of `m` is the one value of the one step of `m`.
pub proof fn lemma_axis_scale_is(m: nat, k: nat, b: nat)
    requires
        is_step(k, m),
        is_step_value(b, k),
    ensures
        axis_scale_of(m) == b,
{
    lemma_step_exists(m);
    lemma_step_unique(step_of(m), k, m);
    lemma_step_value_exists(k);
    lemma_step_value_unique(step_value(k), b, k);
}

/// The bound of an axis is at least the count that it has to show.
pub proof fn lemma_axis_scale_covers(m: nat)
    ensures
        axis_scale_of(m) >= m,
{
    lemma_step_exists(m);
    lemma_step_value_exists(step_of(m));
    let b = axis_scale_of(m);
    if b < m {
        lemma_pow_base_increases(b + 1, m, 10);
    }
}

/// A greater count never has a smaller bound, capped or not.
pub proof fn lemma_axis_scale_monotone(a: nat, b: nat)
    requires
        a <= b,
    ensures
        axis_scale_of(a) <= axis_scale_of(b),
        capped(axis_scale_of(a)) <= capped(axis_scale_of(b)),
{
    lemma_step_exists(a);
    lemma_step_exists(b);
    let ka = step_of(a);
    let kb = step_of(b);
    lemma_pow_base_increases(a, b, 10);
    assert(reaches(kb, a));
    if kb < ka {
        lemma_pow_increases(10, kb, (ka - 1) as nat);
    }
    assert(ka <= kb);
    lemma_step_value_exists(ka);
    lemma_step_value_exists(kb);
    let va = step_value(ka);
    let vb = step_value(kb);
    lemma_pow_increases(10, ka, kb);
    if vb < va {
        lemma_pow_base_increases(vb + 1, va, 10);
    }
}

/// The bound of an axis that has to show the count `m`: `10^(ceil(10 * log10(m)) / 10)`
/// rounded down, or the greatest `usize` where that is greater. No axis shows a count
/// of 0.
pub fn axis_scale(m: usize) -> (result: Result<usize, HistError>)
    ensures
        match result {
            Ok(bound) => m >= 1 && bound == capped(axis_scale_of(m as nat)) && bound >= m,
            Err(e) => m == 0 && e.is_validation("A count axis needs a count of at least 1"@),
        },
{
    if m == 0 {
        return Err(HistError::validation("A count axis needs a count of at least 1"));
    }
    let mut k: u32 = 0;
    let mut b: u128 = value_of_step(0);
    while b < m as u128
        invariant
            k <= 193,
            is_step_value(b as nat, k as nat),
            b == tenth((k % 10) as nat) / power_of_ten((19 - k / 10) as nat),
            k > 0 ==> !reaches((k - 1) as nat, m as nat),
        decreases 193 - k,
    {
        proof {
            lemma_pow_base_increases((b + 1) as nat, m as nat, 10);
            assert(!reaches(k as nat, m as nat));
            if k == 193 {
                assert(k % 10 == 3 && k / 10 == 19);
                assert(power_of_ten(0) == 1);
                assert(b == 19952623149688796013u128 / 1);
            }
        }
        k = k + 1;
        b = value_of_step(k);
    }
    proof {
        lemma_pow_base_increases(m as nat, b as nat, 10);
        assert(is_step(k as nat, m as nat));
        lemma_axis_scale_is(m as nat, k as nat, b as nat);
        lemma_axis_scale_covers(m as nat);
    }
    if b > usize::MAX as u128 {
        Ok(usize::MAX)
    } else {
        Ok(b as usize)
    }
}

/// The width of an axis for `n` bars: `n` and a tenth of it more, rounded up, or the
/// greatest `usize` where that is greater.
pub fn padded_width(n: usize) -> (width: usize)
    ensures
        width == capped(padded_extent(n as nat)),
        width >= n,
{
    let wide: u128 = (n as u128 * 11 + 9) / 10;
    if wide > usize::MAX as u128 {
        usize::MAX
    } else {
        wide as usize
    }
}

} // verus!
