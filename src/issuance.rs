//! The two-phase, linearly decaying daily issuance curve.
//!
//! Token amounts are counted in micro-units: one token is `TOKEN_UNIT` units.
use vstd::prelude::*;
use vstd::arithmetic::div_mod::lemma_div_is_ordered;

verus! {

/// Length of the first emission phase, in days (20 years of 365 days).
pub const DAYS_PHASE1: u64 = 20 * 365;

/// Length of the second emission phase, in days (30 years of 365 days).
pub const DAYS_PHASE2: u64 = 30 * 365;

/// Length of the whole emission window, in days.
pub const TOTAL_DAYS: u64 = DAYS_PHASE1 + DAYS_PHASE2;

/// Whole tokens emitted over the first phase.
pub const PHASE1_TOTAL: u64 = 1_680_000_000;

/// Whole tokens emitted over the second phase.
pub const PHASE2_TOTAL: u64 = 420_000_000;

/// Micro-units per token.
pub const TOKEN_UNIT: u64 = 1_000_000;

/// Numerator of the first phase's rate on day `n`, over the denominator
/// `phase1_denominator()`.
///
/// With `i1 = 2·PHASE2_TOTAL / DAYS_PHASE2` and
/// `i0 = 2·PHASE1_TOTAL / DAYS_PHASE1 − i1`, the rate on day `n` is
/// `i0 − (i0 − i1)·n / DAYS_PHASE1`; multiplied out over
/// `DAYS_PHASE1² · DAYS_PHASE2` this is the expression below.
pub open spec fn phase1_numerator(n: int) -> int {
    2 * PHASE1_TOTAL * DAYS_PHASE2 * (DAYS_PHASE1 - n) - 2 * PHASE2_TOTAL * DAYS_PHASE1 * (
    DAYS_PHASE1 - 2 * n)
}

pub open spec fn phase1_denominator() -> int {
    DAYS_PHASE1 * DAYS_PHASE1 * DAYS_PHASE2
}

/// Numerator of the second phase's rate on day `n` (counted from genesis),
/// over `DAYS_PHASE2²`: the rate `i1` decays linearly to zero at the end.
pub open spec fn phase2_numerator(n: int) -> int {
    2 * PHASE2_TOTAL * (TOTAL_DAYS - n)
}

pub open spec fn phase2_denominator() -> int {
    DAYS_PHASE2 * DAYS_PHASE2
}

/// The day's issuance as an exact fraction of micro-units:
/// `numerator / denominator`.
#[derive(Clone, Copy, Debug, PartialEq, Eq)]
pub struct Issuance {
    pub numerator: u64,
    pub denominator: u64,
}

/// Numerator of the exact issuance on day `n`, in micro-units, over
/// `issuance_denominator(n)`; the curve's fractions reduced (see
/// `lemma_issuance_follows_curve`).
pub open spec fn issuance_numerator(n: int) -> nat {
    if n < 0 || n >= TOTAL_DAYS {
        0
    } else if n < DAYS_PHASE1 {
        (2_044_000_000_000_000 - 224_000_000_000 * n) as nat
    } else {
        (112_000_000_000 * (TOTAL_DAYS - n)) as nat
    }
}

pub open spec fn issuance_denominator(n: int) -> nat {
    if n < 0 || n >= TOTAL_DAYS {
        1
    } else if n < DAYS_PHASE1 {
        5329
    } else {
        15987
    }
}

/// The exact issuance of day `n`.
pub open spec fn issuance_of(n: int) -> Issuance {
    Issuance {
        numerator: issuance_numerator(n) as u64,
        denominator: issuance_denominator(n) as u64,
    }
}

/// Micro-units issued on day `n` after genesis, rounded down; zero outside
/// the emission window.
pub open spec fn issuance_units(n: int) -> int {
    (issuance_numerator(n) / issuance_denominator(n)) as int
}

/// An exact issuance in whole micro-units, rounded down.
pub open spec fn exact_units(i: Issuance) -> nat {
    if i.denominator == 0 {
        0
    } else {
        i.numerator as nat / i.denominator as nat
    }
}

/// An exact issuance as the curve gives it: a positive denominator, and a
/// numerator no larger than that of the first day.
pub open spec fn issuance_valid(i: Issuance) -> bool {
    &&& i.denominator > 0
    &&& i.numerator <= 2_044_000_000_000_000
}

/// The reduced fractions are the curve of the two phases: the rate
/// `i0 − (i0 − i1)·n / DAYS_PHASE1` in the first phase and
/// `i1 − i1·(n − DAYS_PHASE1) / DAYS_PHASE2` in the second, in micro-units.
pub proof fn lemma_issuance_follows_curve(n: int)
    ensures
        0 <= n < DAYS_PHASE1 ==> issuance_numerator(n) * phase1_denominator() == TOKEN_UNIT
            * phase1_numerator(n) * issuance_denominator(n),
        DAYS_PHASE1 <= n < TOTAL_DAYS ==> issuance_numerator(n) * phase2_denominator()
            == TOKEN_UNIT * phase2_numerator(n) * issuance_denominator(n),
        issuance_valid(issuance_of(n)),
{
    lemma_curve_coefficients(n);
}

/// The curve's coefficients, multiplied out.
proof fn lemma_curve_coefficients(n: int)
    ensures
        phase1_numerator(n) == 223_818_000_000_000_000 - 24_528_000_000_000 * n,
        phase1_denominator() == 583_525_500_000,
        phase2_numerator(n) == 840_000_000 * (18_250 - n),
        phase2_denominator() == 119_902_500,
        TOTAL_DAYS == 18_250,
        DAYS_PHASE1 == 7_300,
        TOKEN_UNIT == 1_000_000,
{
    let len1 = DAYS_PHASE1 as int;
    let len2 = DAYS_PHASE2 as int;
    let sum1 = PHASE1_TOTAL as int;
    let sum2 = PHASE2_TOTAL as int;
    assert(len1 == 7300 && len2 == 10950 && sum1 == 1_680_000_000 && sum2 == 420_000_000);
    assert(2 * sum1 * len2 * (len1 - n) - 2 * sum2 * len1 * (len1 - 2 * n) == 223_818_000_000_000_000
        - 24_528_000_000_000 * n) by (nonlinear_arith)
        requires
            len1 == 7300,
            len2 == 10950,
            sum1 == 1_680_000_000,
            sum2 == 420_000_000,
    ;
    assert(len1 * len1 * len2 == 583_525_500_000) by (nonlinear_arith)
        requires
            len1 == 7300,
            len2 == 10950,
    ;
    assert(len2 * len2 == 119_902_500) by (nonlinear_arith)
        requires
            len2 == 10950,
    ;
}

/// The exact issuance of the day `days_since_genesis` days after the
/// platform's genesis date.
pub fn daily_ntx_issuance_exact(days_since_genesis: i64) -> (r: Issuance)
    ensures
        r == issuance_of(days_since_genesis as int),
        issuance_valid(r),
{
    proof {
        lemma_issuance_follows_curve(days_since_genesis as int);
    }
    if days_since_genesis < 0 || days_since_genesis >= TOTAL_DAYS as i64 {
        return Issuance { numerator: 0, denominator: 1 };
    }
    let n = days_since_genesis as u64;
    if n < DAYS_PHASE1 {
        Issuance { numerator: 2_044_000_000_000_000 - 224_000_000_000 * n, denominator: 5329 }
    } else {
        Issuance { numerator: 112_000_000_000 * (TOTAL_DAYS - n), denominator: 15987 }
    }
}

impl Issuance {
    /// The issuance in whole micro-units, rounded down.
    pub fn units(&self) -> (r: u64)
        requires
            self.denominator > 0,
        ensures
            r == self.numerator / self.denominator,
    {
        self.numerator / self.denominator
    }
}

/// Micro-units of token issued on the day `days_since_genesis` days after
/// the platform's genesis date, rounded down.
pub fn daily_ntx_issuance(days_since_genesis: i64) -> (r: u64)
    ensures
        r == issuance_units(days_since_genesis as int),
{
    daily_ntx_issuance_exact(days_since_genesis).units()
}

/// The issuance never grows from one day to the next and is never negative,
/// and it is zero on every day outside the emission window.
pub proof fn lemma_issuance_monotonic_decay(n: int)
    ensures
        issuance_units(n) >= 0,
        0 <= n < TOTAL_DAYS ==> issuance_units(n) >= issuance_units(n + 1),
        (n < 0 || n >= TOTAL_DAYS) ==> issuance_units(n) == 0,
{
    lemma_curve_coefficients(n);
    if 0 <= n && n + 1 < DAYS_PHASE1 {
        lemma_div_is_ordered(
            issuance_numerator(n + 1) as int,
            issuance_numerator(n) as int,
            5329,
        );
    } else if n + 1 == DAYS_PHASE1 {
        assert(issuance_units(n) == 76754362919);
        assert(issuance_units(n + 1) == 76712328767);
    } else if DAYS_PHASE1 <= n && n + 1 < TOTAL_DAYS {
        lemma_div_is_ordered(
            issuance_numerator(n + 1) as int,
            issuance_numerator(n) as int,
            15987,
        );
    }
    if 0 <= n < TOTAL_DAYS {
        lemma_div_is_ordered(0, issuance_numerator(n) as int, issuance_denominator(n) as int);
    }
}

} // verus!
