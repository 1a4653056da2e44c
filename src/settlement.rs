//! One day's settlement over all traders: the commission rows, what each
//! trader keeps, the KOL direct-trade redirection, and the day's totals.
use std::collections::{HashMap, HashSet};
use vstd::prelude::*;
use crate::distribution::{
    kol_rates_valid, lemma_token_parts, lemma_div_sum, settle_trader, token_total, trader_rows, trader_settlement,
    trader_token_share, inviter_token_share, token_rows, standard_rows, kol_rows, CommissionKind,
    CommissionRow, TraderSettlement, PLATFORM_SINK_ID, pct_of, bp_of, bonus_row, row_if_positive, DIRECT_BONUS_PCT, BROKER_BONUS_PCT, PLATFORM_BONUS_PCT, lemma_bp_bounded,
};
use crate::referral::{full_upline, lemma_awards_three_brokers, lemma_awards_without_brokers, lemma_direct_is_inviter, upline_awards};
use crate::earnings::{earnings_match, trader_ids, user_earnings, DailyUserRebate};
use crate::issuance::{daily_ntx_issuance_exact, exact_units, issuance_of, issuance_valid, Issuance};
use crate::trades::{
    aggregate_trades, aggregated, efficiencies_valid, lemma_traders_in_distinct, fee_of, fees_over, lemma_aggregated_fee_total, lemma_base_of_bounded,
    platform_total_volume, total_fee, total_volume, traders_in, TradeRecord, TraderTotals,
};

verus! {

broadcast use vstd::std_specs::hash::group_hash_axioms;

/// Sum of the traders' fees.
pub open spec fn fee_sum(totals: Seq<TraderTotals>) -> nat
    decreases totals.len(),
{
    if totals.len() == 0 {
        0
    } else {
        (fee_sum(totals.drop_last()) + totals.last().total_fee) as nat
    }
}

/// The rows of all traders, trader by trader.
pub open spec fn run_rows(
    totals: Seq<TraderTotals>,
    platform_fee: nat,
    issuance: Issuance,
    referrals: Map<i64, i64>,
    brokers: Set<i64>,
    kols: Map<i64, u64>,
) -> Seq<CommissionRow>
    decreases totals.len(),
{
    if totals.len() == 0 {
        seq![]
    } else {
        run_rows(totals.drop_last(), platform_fee, issuance, referrals, brokers, kols)
            + trader_rows(totals.last(), platform_fee, issuance, referrals, brokers, kols)
    }
}

/// What each trader keeps, trader by trader.
pub open spec fn settlements_of(
    totals: Seq<TraderTotals>,
    platform_fee: nat,
    issuance: Issuance,
    kols: Map<i64, u64>,
) -> Seq<TraderSettlement> {
    totals.map_values(|t: TraderTotals| trader_settlement(t, platform_fee, issuance, kols))
}

/// Token rebate taken from active KOLs' own trading, over all traders.
pub open spec fn redirected_sum(
    totals: Seq<TraderTotals>,
    platform_fee: nat,
    issuance: Issuance,
    kols: Map<i64, u64>,
) -> nat
    decreases totals.len(),
{
    if totals.len() == 0 {
        0
    } else {
        (redirected_sum(totals.drop_last(), platform_fee, issuance, kols) + trader_settlement(
            totals.last(),
            platform_fee,
            issuance,
            kols,
        ).ntx_redirected) as nat
    }
}

/// All of the day's commission rows: every trader's rows, then one row that
/// credits the platform account with the KOLs' redirected token rebates.
pub open spec fn day_rows(
    totals: Seq<TraderTotals>,
    issuance: Issuance,
    referrals: Map<i64, i64>,
    brokers: Set<i64>,
    kols: Map<i64, u64>,
) -> Seq<CommissionRow> {
    let fee = fee_sum(totals);
    let redirected = redirected_sum(totals, fee, issuance, kols);
    run_rows(totals, fee, issuance, referrals, brokers, kols) + if redirected > 0 {
        seq![
            CommissionRow {
                recipient: PLATFORM_SINK_ID,
                contributor: PLATFORM_SINK_ID,
                amount: redirected as u64,
                kind: CommissionKind::NtxKolDirect,
            },
        ]
    } else {
        seq![]
    }
}

/// The result of distributing one day.
pub struct Distribution {
    /// What each trader keeps from their own trading, in the order of the
    /// traders' totals.
    pub traders: Vec<TraderSettlement>,
    /// The day's commission rows.
    pub rows: Vec<CommissionRow>,
    /// The day's total fee over all traders.
    pub platform_fee: u128,
}

proof fn lemma_fee_sum_bounds(totals: Seq<TraderTotals>, i: int)
    requires
        0 <= i < totals.len(),
    ensures
        totals[i].total_fee <= fee_sum(totals),
        fee_sum(totals.take(i)) + totals[i].total_fee <= fee_sum(totals),
    decreases totals.len(),
{
    let s = totals.drop_last();
    if i < totals.len() - 1 {
        lemma_fee_sum_bounds(s, i);
        assert(s.take(i) =~= totals.take(i));
    } else {
        assert(s =~= totals.take(i));
    }
}

/// Sum of the traders' token rebates before the split.
pub open spec fn token_totals_sum(totals: Seq<TraderTotals>, platform_fee: nat, issuance: Issuance) -> nat
    decreases totals.len(),
{
    if totals.len() == 0 {
        0
    } else {
        token_totals_sum(totals.drop_last(), platform_fee, issuance) + token_total(
            totals.last().total_fee as nat,
            platform_fee,
            issuance,
        )
    }
}

/// The token rebates before the split never add up to more than the
/// traders' combined share of the issuance, and lose at most one unit per
/// trader to rounding.
proof fn lemma_token_totals_sum(totals: Seq<TraderTotals>, platform_fee: nat, issuance: Issuance)
    requires
        platform_fee > 0,
        issuance.denominator > 0,
    ensures
        token_totals_sum(totals, platform_fee, issuance) <= token_total(
            fee_sum(totals),
            platform_fee,
            issuance,
        ),
        token_total(fee_sum(totals), platform_fee, issuance) <= token_totals_sum(
            totals,
            platform_fee,
            issuance,
        ) + totals.len(),
    decreases totals.len(),
{
    let num = issuance.numerator as nat;
    let d = platform_fee * (100 * issuance.denominator);
    assert(d > 0) by (nonlinear_arith)
        requires
            platform_fee > 0,
            issuance.denominator > 0,
            d == platform_fee * (100 * issuance.denominator),
    ;
    if totals.len() == 0 {
        assert(fee_sum(totals) == 0);
        assert(fee_sum(totals) * num * 100 == 0) by (nonlinear_arith)
            requires
                fee_sum(totals) == 0,
        ;
    } else {
        let s = totals.drop_last();
        lemma_token_totals_sum(s, platform_fee, issuance);
        let a = (fee_sum(s) * num * 100) as nat;
        let b = (totals.last().total_fee * num * 100) as nat;
        lemma_div_sum(a, b, d as nat);
        assert(fee_sum(totals) * num * 100 == a + b) by (nonlinear_arith)
            requires
                fee_sum(totals) == fee_sum(s) + totals.last().total_fee,
                a == fee_sum(s) * num * 100,
                b == totals.last().total_fee * num * 100,
        ;
    }
}

proof fn lemma_redirected_bounded(
    totals: Seq<TraderTotals>,
    platform_fee: nat,
    issuance: Issuance,
    kols: Map<i64, u64>,
)
    requires
        fee_sum(totals) <= platform_fee,
    ensures
        redirected_sum(totals, platform_fee, issuance, kols) <= token_totals_sum(
            totals,
            platform_fee,
            issuance,
        ),
        token_totals_sum(totals, platform_fee, issuance) <= exact_units(issuance),
    decreases totals.len(),
{
    if totals.len() > 0 {
        let s = totals.drop_last();
        lemma_fee_sum_bounds(totals, totals.len() - 1);
        assert(s =~= totals.take(totals.len() - 1));
        lemma_redirected_bounded(s, platform_fee, issuance, kols);
        lemma_token_parts(totals.last().total_fee as nat, platform_fee, issuance);
    }
    if platform_fee == 0 || issuance.denominator == 0 {
        lemma_token_totals_zero(totals, platform_fee, issuance);
        return;
    }
    lemma_token_totals_sum(totals, platform_fee, issuance);
    lemma_token_parts(fee_sum(totals), platform_fee, issuance);
}

proof fn lemma_token_totals_zero(totals: Seq<TraderTotals>, platform_fee: nat, issuance: Issuance)
    requires
        platform_fee == 0 || issuance.denominator == 0,
    ensures
        token_totals_sum(totals, platform_fee, issuance) == 0,
    decreases totals.len(),
{
    if totals.len() > 0 {
        lemma_token_totals_zero(totals.drop_last(), platform_fee, issuance);
    }
}

/// The day's total fee over the traders' totals.
fn sum_fees(totals: &Vec<TraderTotals>) -> (r: u128)
    ensures
        r == fee_sum(totals@),
{
    let mut sum: u128 = 0;
    let mut i: usize = 0;
    while i < totals.len()
        invariant
            i <= totals.len(),
            sum == fee_sum(totals@.take(i as int)),
            sum <= i * 0xffff_ffff_ffff_ffffu128,
        decreases totals.len() - i,
    {
        assert(totals@.take(i + 1).drop_last() =~= totals@.take(i as int));
        sum = sum + totals[i].total_fee as u128;
        i = i + 1;
    }
    assert(totals@.take(totals.len() as int) =~= totals@);
    sum
}

/// Applies the distribution rules to every trader of the day and then
/// moves the token rebates of active KOLs' own trading to the platform
/// account, recorded as one row.
pub fn distribute(
    totals: &Vec<TraderTotals>,
    issuance: Issuance,
    referrals: &HashMap<i64, i64>,
    brokers: &HashSet<i64>,
    kols: &HashMap<i64, u64>,
) -> (r: Distribution)
    requires
        kol_rates_valid(kols@),
        issuance_valid(issuance),
    ensures
        r.platform_fee == fee_sum(totals@),
        r.traders@ == settlements_of(totals@, fee_sum(totals@), issuance, kols@),
        r.rows@ == day_rows(totals@, issuance, referrals@, brokers@, kols@),
{
    let platform_fee = sum_fees(totals);
    let ghost fee = platform_fee as nat;
    let mut traders: Vec<TraderSettlement> = Vec::new();
    let mut rows: Vec<CommissionRow> = Vec::new();
    let mut redirected: u128 = 0;
    let mut i: usize = 0;
    while i < totals.len()
        invariant
            i <= totals.len(),
            fee == platform_fee,
            fee == fee_sum(totals@),
            kol_rates_valid(kols@),
            issuance_valid(issuance),
            traders@ == settlements_of(totals@.take(i as int), fee, issuance, kols@),
            rows@ == run_rows(
                totals@.take(i as int),
                fee,
                issuance,
                referrals@,
                brokers@,
                kols@,
            ),
            redirected == redirected_sum(totals@.take(i as int), fee, issuance, kols@),
            redirected <= i * 0xffff_ffff_ffff_ffffu128,
        decreases totals.len() - i,
    {
        proof {
            lemma_fee_sum_bounds(totals@, i as int);
            assert(totals@.take(i + 1).drop_last() =~= totals@.take(i as int));
            assert(settlements_of(totals@.take(i + 1), fee, issuance, kols@) =~= settlements_of(
                totals@.take(i as int),
                fee,
                issuance,
                kols@,
            ).push(trader_settlement(totals@[i as int], fee, issuance, kols@)));
        }
        let s = settle_trader(totals[i], platform_fee, issuance, referrals, brokers, kols, &mut rows);
        redirected = redirected + s.ntx_redirected as u128;
        traders.push(s);
        i = i + 1;
    }
    assert(totals@.take(totals.len() as int) =~= totals@);
    if redirected > 0 {
        proof {
            lemma_redirected_bounded(totals@, fee, issuance, kols@);
            assert(issuance.numerator as nat / issuance.denominator as nat <= issuance.numerator)
                by (nonlinear_arith)
                requires
                    issuance.denominator > 0,
            ;
        }
        rows.push(
            CommissionRow {
                recipient: PLATFORM_SINK_ID,
                contributor: PLATFORM_SINK_ID,
                amount: redirected as u64,
                kind: CommissionKind::NtxKolDirect,
            },
        );
    }
    Distribution { traders, rows, platform_fee }
}

/// Sum of the amounts of the rows paid in tokens (`token`) or in cash.
pub open spec fn row_sum(rows: Seq<CommissionRow>, token: bool) -> nat
    decreases rows.len(),
{
    if rows.len() == 0 {
        0
    } else {
        row_sum(rows.drop_last(), token) + if rows.last().kind.is_token() == token {
            rows.last().amount as nat
        } else {
            0
        }
    }
}

/// Token rebate kept by the traders themselves.
pub open spec fn kept_ntx_sum(
    totals: Seq<TraderTotals>,
    platform_fee: nat,
    issuance: Issuance,
    kols: Map<i64, u64>,
) -> nat
    decreases totals.len(),
{
    if totals.len() == 0 {
        0
    } else {
        (kept_ntx_sum(totals.drop_last(), platform_fee, issuance, kols) + trader_settlement(
            totals.last(),
            platform_fee,
            issuance,
            kols,
        ).ntx_rebate) as nat
    }
}

/// Cash rebate paid to the traders themselves.
pub open spec fn own_cash_sum(
    totals: Seq<TraderTotals>,
    platform_fee: nat,
    issuance: Issuance,
    kols: Map<i64, u64>,
) -> nat
    decreases totals.len(),
{
    if totals.len() == 0 {
        0
    } else {
        (own_cash_sum(totals.drop_last(), platform_fee, issuance, kols) + trader_settlement(
            totals.last(),
            platform_fee,
            issuance,
            kols,
        ).usdt_rebate) as nat
    }
}

/// Tokens credited to all users on the day: the traders' kept rebates and
/// every token row.
pub open spec fn day_ntx_total(
    totals: Seq<TraderTotals>,
    issuance: Issuance,
    referrals: Map<i64, i64>,
    brokers: Set<i64>,
    kols: Map<i64, u64>,
) -> nat {
    kept_ntx_sum(totals, fee_sum(totals), issuance, kols) + row_sum(
        day_rows(totals, issuance, referrals, brokers, kols),
        true,
    )
}

/// Cash credited to all users on the day: the traders' own rebates and
/// every cash row.
pub open spec fn day_cash_total(
    totals: Seq<TraderTotals>,
    issuance: Issuance,
    referrals: Map<i64, i64>,
    brokers: Set<i64>,
    kols: Map<i64, u64>,
) -> nat {
    own_cash_sum(totals, fee_sum(totals), issuance, kols) + row_sum(
        day_rows(totals, issuance, referrals, brokers, kols),
        false,
    )
}

proof fn lemma_row_sum_concat(a: Seq<CommissionRow>, b: Seq<CommissionRow>, token: bool)
    ensures
        row_sum(a + b, token) == row_sum(a, token) + row_sum(b, token),
    decreases b.len(),
{
    if b.len() > 0 {
        lemma_row_sum_concat(a, b.drop_last(), token);
        assert((a + b).drop_last() =~= a + b.drop_last());
    } else {
        assert(a + b =~= a);
    }
}

proof fn lemma_trader_token_rows(
    t: TraderTotals,
    platform_fee: nat,
    issuance: Issuance,
    referrals: Map<i64, i64>,
    brokers: Set<i64>,
    kols: Map<i64, u64>,
)
    requires
        t.total_fee <= platform_fee,
    ensures
        row_sum(trader_rows(t, platform_fee, issuance, referrals, brokers, kols), true) == if upline_awards(
            t.user_id,
            referrals,
            brokers,
            kols,
        ).direct is Some {
            inviter_token_share(t.total_fee as nat, platform_fee, issuance)
        } else {
            0
        },
{
    let awards = upline_awards(t.user_id, referrals, brokers, kols);
    let share = inviter_token_share(t.total_fee as nat, platform_fee, issuance);
    let a = token_rows(t.user_id, awards, kols, share);
    let b = standard_rows(t.user_id, awards, t.rebate_base as nat);
    let c = kol_rows(t.user_id, awards, t.rebate_base as nat);
    lemma_row_sum_concat(a + b, c, true);
    lemma_row_sum_concat(a, b, true);
    lemma_cash_only(b);
    lemma_cash_only(c);
    lemma_token_parts(t.total_fee as nat, platform_fee, issuance);
    lemma_exact_units_fit(issuance);
    assert(trader_rows(t, platform_fee, issuance, referrals, brokers, kols) == a + b + c);
    assert(share <= u64::MAX);
    if a.len() == 1 {
        assert(a.drop_last() =~= Seq::<CommissionRow>::empty());
        assert(row_sum(a.drop_last(), true) == 0);
        assert(a[0].kind.is_token());
        assert(row_sum(a, true) == a[0].amount);
    }
}

proof fn lemma_exact_units_fit(issuance: Issuance)
    ensures
        exact_units(issuance) <= u64::MAX,
{
    if issuance.denominator > 0 {
        assert(issuance.numerator as nat / issuance.denominator as nat <= issuance.numerator)
            by (nonlinear_arith)
            requires
                issuance.denominator > 0,
        ;
    }
}

proof fn lemma_cash_only(rows: Seq<CommissionRow>)
    requires
        forall|i: int| 0 <= i < rows.len() ==> !(#[trigger] rows[i]).kind.is_token(),
    ensures
        row_sum(rows, true) == 0,
    decreases rows.len(),
{
    if rows.len() > 0 {
        lemma_cash_only(rows.drop_last());
    }
}

/// Tokens credited for the first traders, the KOL redirections counted
/// where they are taken.
pub open spec fn credited_ntx(
    totals: Seq<TraderTotals>,
    platform_fee: nat,
    issuance: Issuance,
    referrals: Map<i64, i64>,
    brokers: Set<i64>,
    kols: Map<i64, u64>,
) -> nat {
    kept_ntx_sum(totals, platform_fee, issuance, kols) + redirected_sum(
        totals,
        platform_fee,
        issuance,
        kols,
    ) + row_sum(run_rows(totals, platform_fee, issuance, referrals, brokers, kols), true)
}

/// Tokens the rules pay for the traders: each trader's kept-or-redirected
/// share, and the inviter's share of each trader that has an inviter.
pub open spec fn shares_sum(
    totals: Seq<TraderTotals>,
    platform_fee: nat,
    issuance: Issuance,
    referrals: Map<i64, i64>,
) -> nat
    decreases totals.len(),
{
    if totals.len() == 0 {
        0
    } else {
        let t = totals.last();
        shares_sum(totals.drop_last(), platform_fee, issuance, referrals) + trader_token_share(
            t.total_fee as nat,
            platform_fee,
            issuance,
        ) + if referrals.contains_key(t.user_id) {
            inviter_token_share(t.total_fee as nat, platform_fee, issuance)
        } else {
            0
        }
    }
}

proof fn lemma_credited_ntx(
    totals: Seq<TraderTotals>,
    platform_fee: nat,
    issuance: Issuance,
    referrals: Map<i64, i64>,
    brokers: Set<i64>,
    kols: Map<i64, u64>,
)
    requires
        referrals.dom().finite(),
        fee_sum(totals) <= platform_fee,
    ensures
        credited_ntx(totals, platform_fee, issuance, referrals, brokers, kols) == shares_sum(
            totals,
            platform_fee,
            issuance,
            referrals,
        ),
        shares_sum(totals, platform_fee, issuance, referrals) <= token_totals_sum(
            totals,
            platform_fee,
            issuance,
        ),
        (forall|i: int|
            0 <= i < totals.len() ==> referrals.contains_key(#[trigger] totals[i].user_id))
            ==> token_totals_sum(totals, platform_fee, issuance) <= shares_sum(
            totals,
            platform_fee,
            issuance,
            referrals,
        ) + totals.len(),
    decreases totals.len(),
{
    if totals.len() > 0 {
        let s = totals.drop_last();
        let t = totals.last();
        lemma_fee_sum_bounds(totals, totals.len() - 1);
        assert(s =~= totals.take(totals.len() - 1));
        lemma_credited_ntx(s, platform_fee, issuance, referrals, brokers, kols);
        lemma_row_sum_concat(
            run_rows(s, platform_fee, issuance, referrals, brokers, kols),
            trader_rows(t, platform_fee, issuance, referrals, brokers, kols),
            true,
        );
        lemma_trader_token_rows(t, platform_fee, issuance, referrals, brokers, kols);
        lemma_direct_is_inviter(t.user_id, referrals, brokers, kols);
        lemma_token_parts(t.total_fee as nat, platform_fee, issuance);
        lemma_exact_units_fit(issuance);
        let share = trader_token_share(t.total_fee as nat, platform_fee, issuance);
        let st = trader_settlement(t, platform_fee, issuance, kols);
        assert(st.ntx_rebate + st.ntx_redirected == share);
        if forall|i: int|
            0 <= i < totals.len() ==> referrals.contains_key(#[trigger] totals[i].user_id) {
            assert forall|i: int| 0 <= i < s.len() implies referrals.contains_key(
                #[trigger] s[i].user_id,
            ) by {
                assert(s[i] == totals[i]);
            }
            assert(referrals.contains_key(totals[totals.len() - 1].user_id));
        }
    }
}

/// Token conservation: the tokens credited on a day are exactly each
/// trader's kept-or-redirected share plus the inviter's share of each trader
/// that has an inviter (redirection creates no tokens), and never exceed the
/// day's issuance. Where every trader has an inviter they fall short of the
/// issuance only by rounding, at most two micro-units per trader.
pub proof fn lemma_token_conservation(
    totals: Seq<TraderTotals>,
    issuance: Issuance,
    referrals: Map<i64, i64>,
    brokers: Set<i64>,
    kols: Map<i64, u64>,
)
    requires
        referrals.dom().finite(),
    ensures
        day_ntx_total(totals, issuance, referrals, brokers, kols) == shares_sum(
            totals,
            fee_sum(totals),
            issuance,
            referrals,
        ),
        day_ntx_total(totals, issuance, referrals, brokers, kols) <= exact_units(issuance),
        fee_sum(totals) > 0 && (forall|i: int|
            0 <= i < totals.len() ==> referrals.contains_key(#[trigger] totals[i].user_id))
            ==> exact_units(issuance) <= day_ntx_total(totals, issuance, referrals, brokers, kols)
            + 2 * totals.len(),
{
    let fee = fee_sum(totals);
    let redirected = redirected_sum(totals, fee, issuance, kols);
    lemma_credited_ntx(totals, fee, issuance, referrals, brokers, kols);
    lemma_redirected_bounded(totals, fee, issuance, kols);
    lemma_exact_units_fit(issuance);
    let run = run_rows(totals, fee, issuance, referrals, brokers, kols);
    let last = if redirected > 0 {
        seq![
            CommissionRow {
                recipient: PLATFORM_SINK_ID,
                contributor: PLATFORM_SINK_ID,
                amount: redirected as u64,
                kind: CommissionKind::NtxKolDirect,
            },
        ]
    } else {
        seq![]
    };
    lemma_row_sum_concat(run, last, true);
    if redirected > 0 {
        assert(last.drop_last() =~= Seq::<CommissionRow>::empty());
        assert(row_sum(last.drop_last(), true) == 0);
        assert(row_sum(last, true) == redirected);
    }
    assert(day_rows(totals, issuance, referrals, brokers, kols) == run + last);
    if fee > 0 && issuance.denominator > 0 {
        lemma_token_totals_sum(totals, fee, issuance);
        lemma_token_parts(fee, fee, issuance);
    }
}

fn sum_kept_ntx(traders: &Vec<TraderSettlement>, Ghost(totals): Ghost<Seq<TraderTotals>>, Ghost(fee): Ghost<nat>, Ghost(issuance): Ghost<Issuance>, Ghost(kols): Ghost<Map<i64, u64>>) -> (r: u128)
    requires
        traders@ == settlements_of(totals, fee, issuance, kols),
    ensures
        r == kept_ntx_sum(totals, fee, issuance, kols),
{
    let mut sum: u128 = 0;
    let mut i: usize = 0;
    while i < traders.len()
        invariant
            i <= traders.len(),
            traders@ == settlements_of(totals, fee, issuance, kols),
            sum == kept_ntx_sum(totals.take(i as int), fee, issuance, kols),
            sum <= i * 0xffff_ffff_ffff_ffffu128,
        decreases traders.len() - i,
    {
        assert(totals.take(i + 1).drop_last() =~= totals.take(i as int));
        sum = sum + traders[i].ntx_rebate as u128;
        i = i + 1;
    }
    assert(totals.take(totals.len() as int) =~= totals);
    sum
}

fn sum_own_cash(traders: &Vec<TraderSettlement>, Ghost(totals): Ghost<Seq<TraderTotals>>, Ghost(fee): Ghost<nat>, Ghost(issuance): Ghost<Issuance>, Ghost(kols): Ghost<Map<i64, u64>>) -> (r: u128)
    requires
        traders@ == settlements_of(totals, fee, issuance, kols),
    ensures
        r == own_cash_sum(totals, fee, issuance, kols),
{
    let mut sum: u128 = 0;
    let mut i: usize = 0;
    while i < traders.len()
        invariant
            i <= traders.len(),
            traders@ == settlements_of(totals, fee, issuance, kols),
            sum == own_cash_sum(totals.take(i as int), fee, issuance, kols),
            sum <= i * 0xffff_ffff_ffff_ffffu128,
        decreases traders.len() - i,
    {
        assert(totals.take(i + 1).drop_last() =~= totals.take(i as int));
        sum = sum + traders[i].usdt_rebate as u128;
        i = i + 1;
    }
    assert(totals.take(totals.len() as int) =~= totals);
    sum
}

/// Sum of the amounts of the rows paid in tokens (`token`) or in cash.
pub fn sum_rows(rows: &Vec<CommissionRow>, token: bool) -> (r: u128)
    ensures
        r == row_sum(rows@, token),
        r <= rows@.len() * 0xffff_ffff_ffff_ffffu128,
{
    let mut sum: u128 = 0;
    let mut i: usize = 0;
    while i < rows.len()
        invariant
            i <= rows.len(),
            sum == row_sum(rows@.take(i as int), token),
            sum <= i * 0xffff_ffff_ffff_ffffu128,
        decreases rows.len() - i,
    {
        assert(rows@.take(i + 1).drop_last() =~= rows@.take(i as int));
        if rows[i].kind.pays_tokens() == token {
            sum = sum + rows[i].amount as u128;
        }
        i = i + 1;
    }
    assert(rows@.take(rows.len() as int) =~= rows@);
    sum
}

proof fn lemma_fee_sum_is_fees_over(totals: Seq<TraderTotals>, trades: Seq<TradeRecord>)
    requires
        forall|i: int|
            0 <= i < totals.len() ==> (#[trigger] totals[i]).total_fee == fee_of(
                trades,
                totals[i].user_id,
            ),
    ensures
        fee_sum(totals) == fees_over(totals.map_values(|t: TraderTotals| t.user_id), trades),
    decreases totals.len(),
{
    if totals.len() > 0 {
        let s = totals.drop_last();
        assert forall|i: int| 0 <= i < s.len() implies (#[trigger] s[i]).total_fee == fee_of(
            trades,
            s[i].user_id,
        ) by {
            assert(s[i] == totals[i]);
        }
        lemma_fee_sum_is_fees_over(s, trades);
        assert(totals.map_values(|t: TraderTotals| t.user_id).drop_last() =~= s.map_values(
            |t: TraderTotals| t.user_id,
        ));
    }
}

proof fn lemma_own_cash_bounded(
    totals: Seq<TraderTotals>,
    fee: nat,
    issuance: Issuance,
    kols: Map<i64, u64>,
)
    requires
        forall|i: int| 0 <= i < totals.len() ==> (#[trigger] totals[i]).rebate_base <= totals[i].total_fee,
    ensures
        own_cash_sum(totals, fee, issuance, kols) <= fee_sum(totals),
    decreases totals.len(),
{
    if totals.len() > 0 {
        let s = totals.drop_last();
        assert forall|i: int| 0 <= i < s.len() implies (#[trigger] s[i]).rebate_base <= s[i].total_fee by {
            assert(s[i] == totals[i]);
        }
        lemma_own_cash_bounded(s, fee, issuance, kols);
        let base = totals.last().rebate_base as nat;
        assert(base * 60 <= base * 100) by (nonlinear_arith);
    }
}

/// No double payment with a KOL on the chain: for a chain trader → inviter →
/// KOL without brokers, the cash paid up the chain out of the trader's
/// rebate base `R` is the inviter's first-level 30% plus the KOL's top-up
/// to their rate `r`, `max(0, R·r% − R·30%)`; so the KOL's contracted share
/// is always reached and the 30% is never paid twice.
pub proof fn lemma_kol_top_up_without_duplication(
    t: TraderTotals,
    platform_fee: nat,
    issuance: Issuance,
    referrals: Map<i64, i64>,
    brokers: Set<i64>,
    kols: Map<i64, u64>,
)
    requires
        referrals.dom().finite(),
        referrals.contains_key(t.user_id),
        referrals.contains_key(referrals[t.user_id]),
        !kols.contains_key(referrals[t.user_id]),
        kols.contains_key(referrals[referrals[t.user_id]]),
        !brokers.contains(t.user_id),
        forall|j: int|
            0 <= j < full_upline(referrals, t.user_id).len() ==> !brokers.contains(
                #[trigger] full_upline(referrals, t.user_id)[j],
            ),
        kol_rates_valid(kols),
    ensures
        ({
            let base = t.rebate_base as nat;
            let rate = kols[referrals[referrals[t.user_id]]] as nat;
            let first = pct_of(base, DIRECT_BONUS_PCT as nat);
            let target = bp_of(base, rate);
            let awards = upline_awards(t.user_id, referrals, brokers, kols);
            let paid = row_sum(
                trader_rows(t, platform_fee, issuance, referrals, brokers, kols),
                false,
            );
            &&& standard_rows(t.user_id, awards, base) + kol_rows(t.user_id, awards, base)
                == row_if_positive(referrals[t.user_id], t.user_id, first, CommissionKind::Usdt)
                + if target > first {
                seq![
                    CommissionRow {
                        recipient: referrals[referrals[t.user_id]],
                        contributor: t.user_id,
                        amount: (target - first) as u64,
                        kind: CommissionKind::UsdtKol,
                    },
                ]
            } else {
                seq![]
            }
            &&& paid == first + if target > first {
                (target - first) as nat
            } else {
                0
            }
            &&& paid >= target
        }),
{
    lemma_awards_without_brokers(t.user_id, referrals, brokers, kols);
    let awards = upline_awards(t.user_id, referrals, brokers, kols);
    let base = t.rebate_base as nat;
    let a = token_rows(
        t.user_id,
        awards,
        kols,
        inviter_token_share(t.total_fee as nat, platform_fee, issuance),
    );
    let b = standard_rows(t.user_id, awards, base);
    let c = kol_rows(t.user_id, awards, base);
    lemma_row_sum_concat(a + b, c, false);
    lemma_row_sum_concat(a, b, false);
    assert(row_sum(a, false) == 0) by {
        if a.len() == 1 {
            assert(a.drop_last() =~= Seq::<CommissionRow>::empty());
            assert(row_sum(a.drop_last(), false) == 0);
        }
    }
    let first = pct_of(base, DIRECT_BONUS_PCT as nat);
    assert(base * 30 <= base * 100) by (nonlinear_arith);
    assert(b =~= bonus_row(Some(referrals[t.user_id]), t.user_id, base, 30));
    assert(row_sum(b, false) == first) by {
        if b.len() == 1 {
            assert(b.drop_last() =~= Seq::<CommissionRow>::empty());
            assert(row_sum(b.drop_last(), false) == 0);
        }
    }
    let rate = kols[referrals[referrals[t.user_id]]] as nat;
    lemma_bp_bounded(base, rate);
    assert(crate::distribution::standard_paid(awards, base) == first);
    assert(standard_rows(t.user_id, awards, base) =~= row_if_positive(
        referrals[t.user_id],
        t.user_id,
        first,
        CommissionKind::Usdt,
    ));
    if c.len() == 1 {
        assert(c.drop_last() =~= Seq::<CommissionRow>::empty());
        assert(row_sum(c.drop_last(), false) == 0);
    }
}

/// The broker bonus is claimed once: for a chain trader → A1 → A2 → A3 of
/// brokers above a trader who is not one, with no active KOL among A1 and
/// A2, the cash rows out of the trader's rebate base `R` are exactly A1's
/// first-level 30% and broker 20%, and A2's platform 10% (A1's rung being
/// the first broker rung); A3 and anyone above receive nothing.
pub proof fn lemma_broker_bonus_claimed_once(
    t: TraderTotals,
    platform_fee: nat,
    issuance: Issuance,
    referrals: Map<i64, i64>,
    brokers: Set<i64>,
    kols: Map<i64, u64>,
)
    requires
        referrals.dom().finite(),
        referrals.contains_key(t.user_id),
        referrals.contains_key(referrals[t.user_id]),
        referrals.contains_key(referrals[referrals[t.user_id]]),
        !brokers.contains(t.user_id),
        brokers.contains(referrals[t.user_id]),
        brokers.contains(referrals[referrals[t.user_id]]),
        brokers.contains(referrals[referrals[referrals[t.user_id]]]),
        !kols.contains_key(referrals[t.user_id]),
        !kols.contains_key(referrals[referrals[t.user_id]]),
    ensures
        ({
            let base = t.rebate_base as nat;
            let a1 = referrals[t.user_id];
            let a2 = referrals[a1];
            let awards = upline_awards(t.user_id, referrals, brokers, kols);
            standard_rows(t.user_id, awards, base) + kol_rows(t.user_id, awards, base)
                == row_if_positive(
                a1,
                t.user_id,
                pct_of(base, DIRECT_BONUS_PCT as nat),
                CommissionKind::Usdt,
            ) + row_if_positive(
                a1,
                t.user_id,
                pct_of(base, BROKER_BONUS_PCT as nat),
                CommissionKind::Usdt,
            ) + row_if_positive(
                a2,
                t.user_id,
                pct_of(base, PLATFORM_BONUS_PCT as nat),
                CommissionKind::Usdt,
            )
        }),
{
    lemma_awards_three_brokers(t.user_id, referrals, brokers, kols);
    let awards = upline_awards(t.user_id, referrals, brokers, kols);
    let base = t.rebate_base as nat;
    assert(kol_rows(t.user_id, awards, base) == Seq::<CommissionRow>::empty());
    assert(standard_rows(t.user_id, awards, base) + kol_rows(t.user_id, awards, base)
        =~= standard_rows(t.user_id, awards, base));
}

proof fn lemma_trader_rows_kinds(
    t: TraderTotals,
    platform_fee: nat,
    issuance: Issuance,
    referrals: Map<i64, i64>,
    brokers: Set<i64>,
    kols: Map<i64, u64>,
)
    ensures
        forall|j: int|
            0 <= j < trader_rows(t, platform_fee, issuance, referrals, brokers, kols).len()
                ==> #[trigger] trader_rows(
                t,
                platform_fee,
                issuance,
                referrals,
                brokers,
                kols,
            )[j].kind != CommissionKind::NtxKolDirect,
{
    let awards = upline_awards(t.user_id, referrals, brokers, kols);
    let base = t.rebate_base as nat;
    let a = token_rows(
        t.user_id,
        awards,
        kols,
        inviter_token_share(t.total_fee as nat, platform_fee, issuance),
    );
    let b1 = bonus_row(awards.direct, t.user_id, base, DIRECT_BONUS_PCT as nat);
    let b2 = bonus_row(awards.broker, t.user_id, base, BROKER_BONUS_PCT as nat);
    let b3 = bonus_row(awards.platform, t.user_id, base, PLATFORM_BONUS_PCT as nat);
    let c = kol_rows(t.user_id, awards, base);
    assert(forall|j: int| 0 <= j < a.len() ==> a[j].kind != CommissionKind::NtxKolDirect);
    assert(forall|j: int| 0 <= j < b1.len() ==> b1[j].kind == CommissionKind::Usdt);
    assert(forall|j: int| 0 <= j < b2.len() ==> b2[j].kind == CommissionKind::Usdt);
    assert(forall|j: int| 0 <= j < b3.len() ==> b3[j].kind == CommissionKind::Usdt);
    assert(forall|j: int| 0 <= j < c.len() ==> c[j].kind == CommissionKind::UsdtKol);
    assert(trader_rows(t, platform_fee, issuance, referrals, brokers, kols) =~= a + (b1 + b2 + b3)
        + c);
}

/// No trader's rows carry the KOL direct-trade tag.
proof fn lemma_run_rows_kinds(
    totals: Seq<TraderTotals>,
    platform_fee: nat,
    issuance: Issuance,
    referrals: Map<i64, i64>,
    brokers: Set<i64>,
    kols: Map<i64, u64>,
)
    ensures
        forall|j: int|
            0 <= j < run_rows(totals, platform_fee, issuance, referrals, brokers, kols).len()
                ==> #[trigger] run_rows(
                totals,
                platform_fee,
                issuance,
                referrals,
                brokers,
                kols,
            )[j].kind != CommissionKind::NtxKolDirect,
    decreases totals.len(),
{
    if totals.len() > 0 {
        lemma_run_rows_kinds(totals.drop_last(), platform_fee, issuance, referrals, brokers, kols);
        lemma_trader_rows_kinds(totals.last(), platform_fee, issuance, referrals, brokers, kols);
        let p = run_rows(totals.drop_last(), platform_fee, issuance, referrals, brokers, kols);
        let q = trader_rows(totals.last(), platform_fee, issuance, referrals, brokers, kols);
        assert forall|j: int| 0 <= j < p.len() + q.len() implies (p + q)[j].kind
            != CommissionKind::NtxKolDirect by {
            if j >= p.len() {
                assert((p + q)[j] == q[j - p.len()]);
            }
        }
    }
}

/// A row credited under `kind` to `recipient`, for `amount`, stands among
/// the rows.
pub open spec fn has_row(
    rows: Seq<CommissionRow>,
    recipient: i64,
    amount: nat,
    kind: CommissionKind,
) -> bool {
    exists|i: int|
        0 <= i < rows.len() && rows[i].recipient == recipient && rows[i].amount == amount
            && rows[i].kind == kind
}

proof fn lemma_redirected_includes(
    totals: Seq<TraderTotals>,
    platform_fee: nat,
    issuance: Issuance,
    kols: Map<i64, u64>,
    i: int,
)
    requires
        0 <= i < totals.len(),
    ensures
        trader_settlement(totals[i], platform_fee, issuance, kols).ntx_redirected
            <= redirected_sum(totals, platform_fee, issuance, kols),
    decreases totals.len(),
{
    if i < totals.len() - 1 {
        lemma_redirected_includes(totals.drop_last(), platform_fee, issuance, kols, i);
        assert(totals.drop_last()[i] == totals[i]);
    }
}

/// An active KOL who trades keeps none of their own token rebate: all of it
/// goes to the platform account, which receives the day's redirected total
/// in one row tagged as a KOL direct-trade flow.
pub proof fn lemma_kol_direct_redirection(
    totals: Seq<TraderTotals>,
    issuance: Issuance,
    referrals: Map<i64, i64>,
    brokers: Set<i64>,
    kols: Map<i64, u64>,
    i: int,
)
    requires
        0 <= i < totals.len(),
        kols.contains_key(totals[i].user_id),
    ensures
        ({
            let fee = fee_sum(totals);
            let own = settlements_of(totals, fee, issuance, kols)[i];
            let share = trader_token_share(totals[i].total_fee as nat, fee, issuance);
            let redirected = redirected_sum(totals, fee, issuance, kols);
            &&& own.ntx_rebate == 0
            &&& own.ntx_redirected == share
            &&& share <= redirected
            &&& share > 0 ==> has_row(
                day_rows(totals, issuance, referrals, brokers, kols),
                PLATFORM_SINK_ID,
                redirected,
                CommissionKind::NtxKolDirect,
            )
            &&& forall|j: int|
                0 <= j < day_rows(totals, issuance, referrals, brokers, kols).len()
                    && (#[trigger] day_rows(totals, issuance, referrals, brokers, kols)[j]).kind
                    == CommissionKind::NtxKolDirect ==> day_rows(
                    totals,
                    issuance,
                    referrals,
                    brokers,
                    kols,
                )[j] == (CommissionRow {
                    recipient: PLATFORM_SINK_ID,
                    contributor: PLATFORM_SINK_ID,
                    amount: redirected as u64,
                    kind: CommissionKind::NtxKolDirect,
                })
        }),
{
    let fee = fee_sum(totals);
    lemma_fee_sum_bounds(totals, i);
    lemma_token_parts(totals[i].total_fee as nat, fee, issuance);
    lemma_exact_units_fit(issuance);
    let share = trader_token_share(totals[i].total_fee as nat, fee, issuance);
    lemma_redirected_includes(totals, fee, issuance, kols, i);
    lemma_redirected_bounded(totals, fee, issuance, kols);
    let rows = day_rows(totals, issuance, referrals, brokers, kols);
    let run = run_rows(totals, fee, issuance, referrals, brokers, kols);
    let redirected = redirected_sum(totals, fee, issuance, kols);
    lemma_run_rows_kinds(totals, fee, issuance, referrals, brokers, kols);
    assert forall|j: int|
        0 <= j < rows.len() && (#[trigger] rows[j]).kind == CommissionKind::NtxKolDirect implies rows[j]
        == (CommissionRow {
        recipient: PLATFORM_SINK_ID,
        contributor: PLATFORM_SINK_ID,
        amount: redirected as u64,
        kind: CommissionKind::NtxKolDirect,
    }) by {
        if j < run.len() {
            assert(rows[j] == run[j]);
        }
    }
    if share > 0 {
        assert(rows[run.len() as int].kind == CommissionKind::NtxKolDirect);
    }
}

/// Everything one day's settlement computes, ready to be committed.
pub struct DaySettlement {
    /// The day's exact issuance, in micro-units of token.
    pub issuance: Issuance,
    /// Per-trader totals of the day's records.
    pub totals: Vec<TraderTotals>,
    /// The day's total fee.
    pub platform_fee: u128,
    /// The day's total traded volume.
    pub total_volume: u64,
    /// What each trader keeps from their own trading.
    pub traders: Vec<TraderSettlement>,
    /// The day's commission rows.
    pub rows: Vec<CommissionRow>,
    /// Each participant's earnings.
    pub earnings: Vec<DailyUserRebate>,
    /// Tokens credited to all users.
    pub total_ntx_distributed: u128,
    /// Cash credited to all users.
    pub total_usdt_commissions: u128,
}

/// Settles one day: aggregates the day's records per trader, computes the
/// day's issuance from the days elapsed since genesis, distributes it and
/// the cash rebates, and totals the result.
///
/// The result depends on its inputs alone: settling the same day twice
/// with the same records gives the same credits twice.
pub fn settle_day(
    days_since_genesis: i64,
    trades: &Vec<TradeRecord>,
    efficiencies: &HashMap<i64, u64>,
    referrals: &HashMap<i64, i64>,
    brokers: &HashSet<i64>,
    kols: &HashMap<i64, u64>,
) -> (r: DaySettlement)
    requires
        total_fee(trades@) <= u64::MAX,
        total_volume(trades@) <= u64::MAX,
        efficiencies_valid(efficiencies@),
        kol_rates_valid(kols@),
    ensures
        aggregated(r.totals@, trades@, efficiencies@),
        r.issuance == issuance_of(days_since_genesis as int),
        r.platform_fee == fee_sum(r.totals@),
        r.total_volume == total_volume(trades@),
        r.traders@ == settlements_of(r.totals@, r.platform_fee as nat, r.issuance, kols@),
        r.rows@ == day_rows(r.totals@, r.issuance, referrals@, brokers@, kols@),
        earnings_match(r.earnings@, r.traders@, r.rows@),
        r.total_ntx_distributed == day_ntx_total(
            r.totals@,
            r.issuance,
            referrals@,
            brokers@,
            kols@,
        ),
        r.total_usdt_commissions == day_cash_total(
            r.totals@,
            r.issuance,
            referrals@,
            brokers@,
            kols@,
        ),
{
    let totals = aggregate_trades(trades, efficiencies);
    let issuance = daily_ntx_issuance_exact(days_since_genesis);
    let total_volume = platform_total_volume(trades);
    let d = distribute(&totals, issuance, referrals, brokers, kols);
    let ghost fee = fee_sum(totals@);
    proof {
        lemma_traders_in_distinct(trades@);
        assert(trader_ids(d.traders@) =~= traders_in(trades@));
    }
    let earnings = user_earnings(&d.traders, &d.rows);
    let kept = sum_kept_ntx(&d.traders, Ghost(totals@), Ghost(fee), Ghost(issuance), Ghost(kols@));
    let own_cash = sum_own_cash(&d.traders, Ghost(totals@), Ghost(fee), Ghost(issuance), Ghost(kols@));
    let token_rows = sum_rows(&d.rows, true);
    let cash_rows = sum_rows(&d.rows, false);
    let row_count = d.rows.len();
    proof {
        lemma_token_conservation(totals@, issuance, referrals@, brokers@, kols@);
        lemma_fee_sum_is_fees_over(totals@, trades@);
        lemma_aggregated_fee_total(totals@, trades@, efficiencies@);
        assert forall|i: int| 0 <= i < totals@.len() implies (#[trigger] totals@[i]).rebate_base
            <= totals@[i].total_fee by {
            lemma_base_of_bounded(trades@, efficiencies@, totals@[i].user_id);
        }
        lemma_own_cash_bounded(totals@, fee, issuance, kols@);
        let m = row_count as nat;
        assert(own_cash + cash_rows < 0x1_0000_0000_0000_0000_0000_0000_0000_0000) by (nonlinear_arith)
            requires
                own_cash <= 0xffff_ffff_ffff_ffff,
                cash_rows <= m * 0xffff_ffff_ffff_ffff,
                m <= 0xffff_ffff_ffff_ffff,
        ;
    }
    DaySettlement {
        issuance,
        totals,
        platform_fee: d.platform_fee,
        total_volume,
        traders: d.traders,
        rows: d.rows,
        earnings,
        total_ntx_distributed: kept + token_rows,
        total_usdt_commissions: own_cash + cash_rows,
    }
}

} // verus!
