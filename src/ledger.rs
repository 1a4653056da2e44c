//! Crediting a day's earnings to user balances.
use vstd::prelude::*;
use crate::earnings::DailyUserRebate;

verus! {

/// Micro-units of the quote currency per whole unit; one unit of
/// experience is earned per whole unit of fee.
pub const FEE_UNIT: u64 = 1_000_000;

/// A user's running balances.
#[derive(Clone, Copy, Debug, PartialEq, Eq)]
pub struct UserBalance {
    pub user_id: i64,
    pub ntx_balance: u128,
    pub usdt_balance: u128,
    pub exp: u128,
}

/// Tokens a day's earnings add to the balance.
pub open spec fn ntx_gain(e: DailyUserRebate) -> nat {
    (e.ntx_rebate + e.ntx_bonus_earned) as nat
}

/// Cash a day's earnings add to the balance.
pub open spec fn usdt_gain(e: DailyUserRebate) -> nat {
    (e.usdt_rebate + e.usdt_bonus_earned) as nat
}

/// Experience a day's earnings add: one per whole unit of fee incurred.
pub open spec fn exp_gain(e: DailyUserRebate) -> nat {
    e.total_fees_incurred as nat / FEE_UNIT as nat
}

/// The balance after the earnings are added.
pub open spec fn credited(b: UserBalance, e: DailyUserRebate) -> UserBalance {
    UserBalance {
        user_id: b.user_id,
        ntx_balance: (b.ntx_balance + ntx_gain(e)) as u128,
        usdt_balance: (b.usdt_balance + usdt_gain(e)) as u128,
        exp: (b.exp + exp_gain(e)) as u128,
    }
}

/// Whether adding the earnings keeps every balance within 128 bits.
pub open spec fn credit_fits(b: UserBalance, e: DailyUserRebate) -> bool {
    &&& b.ntx_balance + ntx_gain(e) <= u128::MAX
    &&& b.usdt_balance + usdt_gain(e) <= u128::MAX
    &&& b.exp + exp_gain(e) <= u128::MAX
}

/// The gains a day's earnings bring: tokens, cash and experience.
pub fn balance_gains(e: &DailyUserRebate) -> (r: (u128, u128, u128))
    requires
        e.ntx_rebate + e.ntx_bonus_earned <= u128::MAX,
        e.usdt_rebate + e.usdt_bonus_earned <= u128::MAX,
    ensures
        r.0 == ntx_gain(*e),
        r.1 == usdt_gain(*e),
        r.2 == exp_gain(*e),
{
    (
        e.ntx_rebate as u128 + e.ntx_bonus_earned,
        e.usdt_rebate as u128 + e.usdt_bonus_earned,
        (e.total_fees_incurred / FEE_UNIT) as u128,
    )
}

/// Adds a day's earnings to a user's balances: tokens, cash and experience.
/// The addition is not idempotent: crediting the same earnings twice adds
/// them twice.
pub fn credit_balance(balance: &mut UserBalance, e: &DailyUserRebate)
    requires
        old(balance).user_id == e.user_id,
        credit_fits(*old(balance), *e),
    ensures
        *final(balance) == credited(*old(balance), *e),
{
    let (ntx, usdt, exp) = balance_gains(e);
    balance.ntx_balance = balance.ntx_balance + ntx;
    balance.usdt_balance = balance.usdt_balance + usdt;
    balance.exp = balance.exp + exp;
}

/// Settling a day twice doubles its effect: crediting the same earnings a
/// second time adds every gain once more.
pub proof fn lemma_resettlement_doubles(b: UserBalance, e: DailyUserRebate)
    requires
        b.ntx_balance + 2 * ntx_gain(e) <= u128::MAX,
        b.usdt_balance + 2 * usdt_gain(e) <= u128::MAX,
        b.exp + 2 * exp_gain(e) <= u128::MAX,
    ensures
        credit_fits(b, e),
        credit_fits(credited(b, e), e),
        credited(credited(b, e), e).ntx_balance == b.ntx_balance + 2 * ntx_gain(e),
        credited(credited(b, e), e).usdt_balance == b.usdt_balance + 2 * usdt_gain(e),
        credited(credited(b, e), e).exp == b.exp + 2 * exp_gain(e),
{
}

} // verus!
