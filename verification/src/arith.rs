//! Saturating arithmetic helpers and the height-snapping operation, with the
//! monotonicity lemmas the schedule generator needs.

use vstd::prelude::*;

verus! {

/// `a + b`, clamped at `u64::MAX`.
pub open spec fn spec_saturating_add_u64(a: u64, b: u64) -> u64 {
    if a + b > u64::MAX {
        u64::MAX
    } else {
        (a + b) as u64
    }
}

/// `a - b`, clamped at zero.
pub open spec fn spec_saturating_sub_u128(a: u128, b: u128) -> u128 {
    if a < b {
        0
    } else {
        (a - b) as u128
    }
}

/// `a + b`, clamped at `u128::MAX`.
pub open spec fn spec_saturating_add_u128(a: u128, b: u128) -> u128 {
    if a + b > u128::MAX {
        u128::MAX
    } else {
        (a + b) as u128
    }
}

/// `a * b`, clamped at `u64::MAX`.
pub open spec fn spec_saturating_mul_u64(a: u64, b: u64) -> u64 {
    if a * b > u64::MAX {
        u64::MAX
    } else {
        (a * b) as u64
    }
}

/// `a * b`, clamped at `u64::MAX`.
pub fn saturating_mul_u64(a: u64, b: u64) -> (r: u64)
    ensures
        r == spec_saturating_mul_u64(a, b),
{
    match a.checked_mul(b) {
        Some(v) => v,
        None => u64::MAX,
    }
}

/// Saturating multiplication is monotone in its first argument.
pub proof fn lemma_saturating_mul_u64_monotone(a1: u64, a2: u64, b: u64)
    requires
        a1 <= a2,
    ensures
        spec_saturating_mul_u64(a1, b) <= spec_saturating_mul_u64(a2, b),
{
    assert(a1 * b <= a2 * b) by (nonlinear_arith)
        requires a1 <= a2,
    ;
}

/// Rounding `x` down to a multiple of `d` neither increases it nor leaves
/// the multiples of `d`, and leaves an exact multiple unchanged.
pub proof fn lemma_div_mul_facts(x: int, d: int)
    requires
        d >= 1,
        x >= 0,
    ensures
        0 <= (x / d) * d <= x,
        ((x / d) * d) % d == 0,
        x % d == 0 ==> (x / d) * d == x,
{
    assert(0 <= (x / d) * d <= x && ((x / d) * d) % d == 0 && (x % d == 0 ==> (x / d) * d == x))
        by (nonlinear_arith)
        requires d >= 1 && x >= 0,
    ;
}

/// `x` rounded down to the nearest multiple of `d`.
pub open spec fn spec_snap_down(x: u64, d: u64) -> u64
    recommends
        d >= 1,
{
    ((x / d) * d) as u64
}

/// Snapping down never increases a height and lands on a multiple of `d`.
pub proof fn lemma_snap_down_props(x: u64, d: u64)
    requires
        d >= 1,
    ensures
        spec_snap_down(x, d) <= x,
        spec_snap_down(x, d) % d == 0,
        x % d == 0 ==> spec_snap_down(x, d) == x,
{
    lemma_div_mul_facts(x as int, d as int);
}

/// Snapping down is monotone.
pub proof fn lemma_snap_down_monotone(x1: u64, x2: u64, d: u64)
    requires
        d >= 1,
        x1 <= x2,
    ensures
        spec_snap_down(x1, d) <= spec_snap_down(x2, d),
{
    lemma_div_mul_facts(x1 as int, d as int);
    lemma_div_mul_facts(x2 as int, d as int);
    assert(((x1 as int) / (d as int)) * (d as int) <= ((x2 as int) / (d as int)) * (d as int))
        by (nonlinear_arith)
        requires (d as int) >= 1 && 0 <= (x1 as int) <= (x2 as int),
    ;
}

/// `x` rounded down to the nearest multiple of `d`.
pub fn snap_down(x: u64, d: u64) -> (r: u64)
    requires
        d >= 1,
    ensures
        r == spec_snap_down(x, d),
        r <= x,
        r % d == 0,
{
    proof {
        lemma_div_mul_facts(x as int, d as int);
        lemma_snap_down_props(x, d);
    }
    (x / d) * d
}

} // verus!
