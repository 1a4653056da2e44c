//! The admin fee-share controller: how much fee must be attributed to
//! administrator accounts for their share of the day's fees to reach a
//! target share, and the synthetic trades that carry it.
use vstd::prelude::*;

verus! {

/// Volume recorded for a synthetic trade, per unit of its fee.
pub const SYNTHETIC_VOLUME_MULTIPLIER: u64 = 2000;

/// The exchange under which synthetic trades are recorded.
pub const DEFAULT_EXCHANGE_ID: i64 = 1;

/// Why the controller refused to act.
#[derive(Clone, Copy, Debug, PartialEq, Eq, Structural)]
pub enum ControlError {
    /// The configured target is not in `[0, 10 000)` basis points.
    InvalidTargetPercentage,
    /// Fee must be added but there is no administrator account.
    NoAdmins,
    /// The fee or volume of a synthetic trade does not fit in 64 bits.
    AmountTooLarge,
}

/// A synthetic trade row for an administrator account.
#[derive(Clone, Copy, Debug, PartialEq, Eq)]
pub struct SyntheticTrade {
    pub user_id: i64,
    pub exchange_id: i64,
    pub fee: u64,
    pub volume: u64,
}

/// `a / b` rounded up.
pub open spec fn div_ceil(a: nat, b: nat) -> nat {
    ((a + b - 1) / b as int) as nat
}

/// The least admin fee `A + X` with `(A + X) / (A + X + N) >= target / 10 000`
/// (the target in basis points), that is `target · N / (10 000 − target)` rounded up, less the admin fee `A`
/// already recorded. Zero or less means the target is already met.
pub open spec fn required_top_up(target: nat, admin_fees: nat, non_admin_fees: nat) -> int {
    div_ceil(target * non_admin_fees, (10_000 - target) as nat) - admin_fees
}

/// Fee of the `i`-th of `count` synthetic trades sharing `amount`: an even
/// split, the remainder spread one unit each over the first trades.
pub open spec fn share_of(amount: nat, count: nat, i: int) -> nat {
    amount / count + if i < amount % count {
        1nat
    } else {
        0nat
    }
}

/// Sum of the fees of synthetic trades.
pub open spec fn synthetic_fee_total(trades: Seq<SyntheticTrade>) -> nat
    decreases trades.len(),
{
    if trades.len() == 0 {
        0
    } else {
        (synthetic_fee_total(trades.drop_last()) + trades.last().fee) as nat
    }
}

/// The additional admin fee needed for administrators' share of the day's
/// fees to reach `target_bp` basis points (hundredths of a percent), where `admin_fees` of `total_fees`
/// are already attributed to administrators; zero where the target is met.
pub fn admin_fee_shortfall(target_bp: u64, admin_fees: u64, total_fees: u64) -> (r: Result<
    u128,
    ControlError,
>)
    requires
        admin_fees <= total_fees,
    ensures
        target_bp >= 10_000 ==> r == Err::<u128, ControlError>(ControlError::InvalidTargetPercentage),
        target_bp < 10_000 ==> r is Ok && r->Ok_0 == if required_top_up(
            target_bp as nat,
            admin_fees as nat,
            (total_fees - admin_fees) as nat,
        ) > 0 {
            required_top_up(target_bp as nat, admin_fees as nat, (total_fees - admin_fees) as nat)
        } else {
            0
        },
        r is Ok ==> r->Ok_0 <= 20_000 * 0xffff_ffff_ffff_ffffu128,
{
    if target_bp >= 10_000 {
        return Err(ControlError::InvalidTargetPercentage);
    }
    let non_admin = (total_fees - admin_fees) as u128;
    let denominator = (10_000 - target_bp) as u128;
    assert(target_bp * non_admin <= 10_000 * 0xffff_ffff_ffff_ffffu128) by (nonlinear_arith)
        requires
            target_bp < 10_000,
            non_admin <= 0xffff_ffff_ffff_ffffu128,
    ;
    let required = (target_bp as u128 * non_admin + denominator - 1) / denominator;
    assert(required <= target_bp as u128 * non_admin + denominator - 1) by {
        vstd::arithmetic::div_mod::lemma_div_is_ordered_by_denominator(
            (target_bp as u128 * non_admin + denominator - 1) as int,
            1,
            denominator as int,
        );
    };
    if required > admin_fees as u128 {
        Ok(required - admin_fees as u128)
    } else {
        Ok(0)
    }
}

/// Plans the synthetic admin trades that bring administrators' share of the
/// day's fees up to `target_bp` basis points: the shortfall split evenly over
/// `admin_ids` (the remainder one unit each to the first accounts), each
/// with volume `SYNTHETIC_VOLUME_MULTIPLIER` times its fee. No trade is
/// planned where the target is already met.
pub fn plan_admin_trades(
    target_bp: u64,
    admin_fees: u64,
    total_fees: u64,
    admin_ids: &Vec<i64>,
) -> (r: Result<Vec<SyntheticTrade>, ControlError>)
    requires
        admin_fees <= total_fees,
    ensures
        ({
            let x = required_top_up(
                target_bp as nat,
                admin_fees as nat,
                (total_fees - admin_fees) as nat,
            );
            let k = admin_ids@.len();
            &&& target_bp >= 10_000 ==> r == Err::<Vec<SyntheticTrade>, ControlError>(
                ControlError::InvalidTargetPercentage,
            )
            &&& target_bp < 10_000 && x <= 0 ==> r is Ok && r->Ok_0@.len() == 0
            &&& target_bp < 10_000 && x > 0 && k == 0 ==> r == Err::<Vec<SyntheticTrade>, ControlError>(
                ControlError::NoAdmins,
            )
            &&& target_bp < 10_000 && x > 0 && k > 0 ==> {
                let largest = share_of(x as nat, k, 0);
                &&& (x > u64::MAX || largest * SYNTHETIC_VOLUME_MULTIPLIER > u64::MAX)
                    ==> r == Err::<Vec<SyntheticTrade>, ControlError>(
                    ControlError::AmountTooLarge,
                )
                &&& (x <= u64::MAX && largest * SYNTHETIC_VOLUME_MULTIPLIER <= u64::MAX) ==> {
                    &&& r is Ok
                    &&& r->Ok_0@.len() == k
                    &&& synthetic_fee_total(r->Ok_0@) == x
                    &&& forall|i: int|
                        0 <= i < k ==> {
                            let t = #[trigger] r->Ok_0@[i];
                            &&& t.user_id == admin_ids@[i]
                            &&& t.exchange_id == DEFAULT_EXCHANGE_ID
                            &&& t.fee == share_of(x as nat, k, i)
                            &&& t.volume == t.fee * SYNTHETIC_VOLUME_MULTIPLIER
                        }
                }
            }
        }),
{
    let shortfall = match admin_fee_shortfall(target_bp, admin_fees, total_fees) {
        Ok(x) => x,
        Err(e) => {
            return Err(e);
        },
    };
    if shortfall == 0 {
        return Ok(Vec::new());
    }
    if admin_ids.len() == 0 {
        return Err(ControlError::NoAdmins);
    }
    let count = admin_ids.len() as u128;
    let base = shortfall / count;
    let remainder = shortfall % count;
    assert(base <= shortfall) by {
        vstd::arithmetic::div_mod::lemma_div_is_ordered_by_denominator(
            shortfall as int,
            1,
            count as int,
        );
    };
    let largest = if remainder > 0 {
        base + 1
    } else {
        base
    };
    if shortfall > u64::MAX as u128 || largest > (u64::MAX / SYNTHETIC_VOLUME_MULTIPLIER) as u128 {
        return Err(ControlError::AmountTooLarge);
    }
    let ghost x = shortfall as nat;
    let ghost k = admin_ids@.len();
    let mut trades: Vec<SyntheticTrade> = Vec::new();
    let mut i: usize = 0;
    while i < admin_ids.len()
        invariant
            i <= admin_ids@.len(),
            k == admin_ids@.len(),
            k == count,
            count > 0,
            x == shortfall,
            base == x / k,
            remainder == x % k,
            largest <= u64::MAX / SYNTHETIC_VOLUME_MULTIPLIER,
            largest == share_of(x, k, 0),
            trades@.len() == i,
            synthetic_fee_total(trades@) == i * base + if i < remainder {
                i as int
            } else {
                remainder as int
            },
            forall|j: int|
                0 <= j < i ==> {
                    let t = #[trigger] trades@[j];
                    &&& t.user_id == admin_ids@[j]
                    &&& t.exchange_id == DEFAULT_EXCHANGE_ID
                    &&& t.fee == share_of(x, k, j)
                    &&& t.volume == t.fee * SYNTHETIC_VOLUME_MULTIPLIER
                },
        decreases admin_ids.len() - i,
    {
        let fee = if (i as u128) < remainder {
            base + 1
        } else {
            base
        };
        assert(fee <= largest);
        let fee = fee as u64;
        let ghost before = trades@;
        trades.push(
            SyntheticTrade {
                user_id: admin_ids[i],
                exchange_id: DEFAULT_EXCHANGE_ID,
                fee,
                volume: fee * SYNTHETIC_VOLUME_MULTIPLIER,
            },
        );
        assert(trades@.drop_last() =~= before);
        assert((i + 1) * base == i * base + base) by (nonlinear_arith);
        i = i + 1;
    }
    proof {
        vstd::arithmetic::div_mod::lemma_fundamental_div_mod(x as int, k as int);
        assert(k * base == base * k) by (nonlinear_arith);
    }
    Ok(trades)
}

/// After the planned top-up the administrators' share of the day's fees
/// reaches the target, and one unit less would not have reached it.
pub proof fn lemma_top_up_meets_target(target: nat, admin_fees: nat, non_admin_fees: nat)
    requires
        target < 10_000,
        required_top_up(target, admin_fees, non_admin_fees) > 0,
    ensures
        ({
            let x = required_top_up(target, admin_fees, non_admin_fees);
            &&& (admin_fees + x) * 10_000 >= target * (admin_fees + x + non_admin_fees)
            &&& (admin_fees + x - 1) * 10_000 < target * (admin_fees + x - 1 + non_admin_fees)
        }),
{
    let d = (10_000 - target) as nat;
    let a = target * non_admin_fees;
    let c = div_ceil(a, d);
    let x = required_top_up(target, admin_fees, non_admin_fees);
    assert(admin_fees + x == c);
    vstd::arithmetic::div_mod::lemma_fundamental_div_mod((a + d - 1) as int, d as int);
    let q = (a + d - 1) / d as int;
    let rem = (a + d - 1) % d as int;
    assert(c * d >= a) by (nonlinear_arith)
        requires
            a + d - 1 == d * q + rem,
            rem < d,
            c == q,
    ;
    assert((c - 1) * d < a) by (nonlinear_arith)
        requires
            a + d - 1 == d * q + rem,
            rem >= 0,
            c == q,
    ;
    assert(c * 10_000 >= target * (c + non_admin_fees)) by (nonlinear_arith)
        requires
            c * d >= a,
            d == 10_000 - target,
            a == target * non_admin_fees,
    ;
    assert((c - 1) * 10_000 < target * (c - 1 + non_admin_fees)) by (nonlinear_arith)
        requires
            (c - 1) * d < a,
            d == 10_000 - target,
            a == target * non_admin_fees,
    ;
}

} // verus!
