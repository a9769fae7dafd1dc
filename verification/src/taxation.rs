//! Splitting a block reward between the miner and the donation destination.
//!
//! The taxation rate is a fraction expressed in parts per billion, and the
//! donation share is the floor of `total * rate`; the split never creates or
//! destroys value.

use vstd::prelude::*;

verus! {

/// Number of parts in a whole: rates are expressed in parts per billion.
pub const RATE_DENOMINATOR: u32 = 1_000_000_000;

/// A fraction in `[0, 1]`, stored as parts per billion.
#[derive(Clone, Copy, PartialEq, Eq, Structural)]
pub struct TaxRate {
    parts: u32,
}

impl TaxRate {
    /// The rate as parts per billion; always at most one billion.
    pub closed spec fn spec_parts(self) -> u32 {
        self.parts
    }

    /// A rate is valid when it does not exceed one whole.
    pub open spec fn wf(self) -> bool {
        self.spec_parts() <= RATE_DENOMINATOR
    }

    /// Builds a rate from parts per billion; rejects anything over one
    /// whole, so an invalid configured fraction halts initialization.
    pub fn from_parts(parts: u32) -> (r: Option<TaxRate>)
        ensures
            parts <= RATE_DENOMINATOR ==> (r matches Some(t) && t.spec_parts() == parts && t.wf()),
            parts > RATE_DENOMINATOR ==> r is None,
    {
        if parts <= RATE_DENOMINATOR {
            Some(TaxRate { parts })
        } else {
            None
        }
    }

    /// Builds a rate from a whole percentage; rejects anything over 100.
    pub fn from_percent(percent: u32) -> (r: Option<TaxRate>)
        ensures
            percent <= 100 ==> (r matches Some(t) && t.spec_parts() == percent * 10_000_000
                && t.wf()),
            percent > 100 ==> r is None,
    {
        if percent <= 100 {
            Some(TaxRate { parts: percent * 10_000_000 })
        } else {
            None
        }
    }

    /// The rate as parts per billion, on concrete values.
    pub fn parts(&self) -> (r: u32)
        ensures
            r == self.spec_parts(),
    {
        self.parts
    }
}

/// The donation share of `total` at `parts` parts per billion:
/// `floor(total * parts / 1_000_000_000)`.
pub open spec fn spec_donation(total: u128, parts: u32) -> int {
    total * parts / (RATE_DENOMINATOR as int)
}

/// The donation share never exceeds the total it is taken from.
pub proof fn lemma_donation_le_total(total: u128, parts: u32)
    requires
        parts <= RATE_DENOMINATOR,
    ensures
        0 <= spec_donation(total, parts) <= total,
{
    let b = RATE_DENOMINATOR as int;
    assert(0 <= total * parts / b <= total) by (nonlinear_arith)
        requires 0 <= parts <= b && total >= 0 && b >= 1,
    ;
}

/// Splits `total` into a miner share and a donation share.
///
/// The donation is the floor of `total * rate`; the miner receives the
/// rest, so the two shares always recompose exactly to `total`. A zero
/// rate donates nothing.
pub fn split(total: u128, rate: TaxRate) -> (r: (u128, u128))
    requires
        rate.wf(),
    ensures
        r.0 + r.1 == total,
        r.1 == spec_donation(total, rate.spec_parts()),
        rate.spec_parts() == 0 ==> r.1 == 0,
        rate.spec_parts() == RATE_DENOMINATOR ==> r.0 == 0,
{
    let b: u128 = RATE_DENOMINATOR as u128;
    let q = total / b;
    let rem = total % b;
    proof {
        lemma_donation_le_total(total, rate.parts);
        lemma_split_exact(total, rate.parts);
        let bi = RATE_DENOMINATOR as int;
        let qi = q as int;
        let remi = rem as int;
        let pi = rate.parts as int;
        assert(qi * pi <= qi * bi <= total && remi * pi < bi * bi && qi * pi >= 0)
            by (nonlinear_arith)
            requires
                0 <= pi <= bi,
                bi >= 1,
                qi == (total as int) / bi,
                remi == (total as int) % bi,
                total >= 0,
        ;
    }
    let donation = q * (rate.parts as u128) + rem * (rate.parts as u128) / b;
    let miner = total - donation;
    proof {
        if rate.parts == 0 {
            assert((total as int) * 0 / (RATE_DENOMINATOR as int) == 0) by (nonlinear_arith);
        }
        if rate.parts == RATE_DENOMINATOR {
            let bi = RATE_DENOMINATOR as int;
            assert(total * bi / bi == total) by (nonlinear_arith)
                requires bi >= 1, total >= 0,
            ;
        }
    }
    (miner, donation)
}

/// Splitting the dividend at the denominator computes the exact floor:
/// `(q * b + rem) * p / b == q * p + rem * p / b` when `rem < b`.
proof fn lemma_split_exact(total: u128, parts: u32)
    requires
        parts <= RATE_DENOMINATOR,
    ensures
        ((total as int) / (RATE_DENOMINATOR as int)) * parts + ((total as int) % (
        RATE_DENOMINATOR as int)) * parts / (RATE_DENOMINATOR as int) == spec_donation(
            total, parts,
        ),
{
    let t = total as int;
    let b = RATE_DENOMINATOR as int;
    let q = t / b;
    let rem = t % b;
    let p = parts as int;
    assert(t == q * b + rem && 0 <= rem < b && q >= 0) by (nonlinear_arith)
        requires b >= 1 && t >= 0 && q == t / b && rem == t % b,
    ;
    assert((q * b + rem) * p == (q * p) * b + rem * p) by (nonlinear_arith);
    assert(((q * p) * b + rem * p) / b == q * p + rem * p / b) by (nonlinear_arith)
        requires b >= 1 && rem >= 0 && p >= 0 && q * p >= 0,
    ;
}

} // verus!
