//! The distribution rules applied to one trader: the token rebate and its
//! inviter share, the trader's own cash rebate, the cash bonuses up the
//! referral chain, and the KOL top-up.
use std::collections::{HashMap, HashSet};
use vstd::prelude::*;
use crate::referral::{lemma_kol_award_is_active, upline_awards, walk_upline, UplineAwards};
use crate::issuance::{exact_units, issuance_valid, Issuance};
use crate::trades::TraderTotals;
use vstd::arithmetic::div_mod::{lemma_div_denominator, lemma_div_is_ordered, lemma_div_multiples_vanish};

verus! {

broadcast use vstd::std_specs::hash::group_hash_axioms;

/// The platform account that absorbs what KOLs may not take through the
/// standard paths.
pub const PLATFORM_SINK_ID: i64 = 1;

/// Percentage of a trader's token rebate kept by the trader; the rest is
/// the direct inviter's share.
pub const TRADER_TOKEN_SHARE_PCT: u64 = 90;

/// Percentage of the rebate base paid back to the trader in cash.
pub const SELF_CASH_REBATE_PCT: u64 = 60;

/// Percentage of the rebate base paid to the direct inviter.
pub const DIRECT_BONUS_PCT: u64 = 30;

/// Percentage of the rebate base paid to the nearest broker ancestor.
pub const BROKER_BONUS_PCT: u64 = 20;

/// Percentage of the rebate base paid to the inviter of the first broker
/// rung.
pub const PLATFORM_BONUS_PCT: u64 = 10;

/// The flow a commission row belongs to.
#[derive(Clone, Copy, Debug, PartialEq, Eq, Structural)]
pub enum CommissionKind {
    /// Token share of a direct inviter.
    Ntx,
    /// Standard cash bonus.
    Usdt,
    /// Token share of a KOL inviter, redirected to the platform account.
    NtxKolUpline,
    /// A KOL's top-up to their contracted rate.
    UsdtKol,
    /// KOLs' own token rebates, redirected to the platform account.
    NtxKolDirect,
}

impl CommissionKind {
    /// Whether the row is paid in tokens (as opposed to cash).
    pub open spec fn is_token(self) -> bool {
        match self {
            CommissionKind::Ntx | CommissionKind::NtxKolUpline | CommissionKind::NtxKolDirect => true,
            _ => false,
        }
    }

    /// Whether the row is paid in tokens.
    pub fn pays_tokens(&self) -> (r: bool)
        ensures
            r == self.is_token(),
    {
        match self {
            CommissionKind::Ntx | CommissionKind::NtxKolUpline | CommissionKind::NtxKolDirect => true,
            _ => false,
        }
    }

    /// The currency tag under which the row is recorded.
    pub fn tag(&self) -> (r: &'static str)
        ensures
            r@ == kind_tag(*self),
    {
        match self {
            CommissionKind::Ntx => "NTX",
            CommissionKind::Usdt => "USDT",
            CommissionKind::NtxKolUpline => "NTX_KOL_UPLINE",
            CommissionKind::UsdtKol => "USDT_KOL",
            CommissionKind::NtxKolDirect => "NTX_KOL_DIRECT",
        }
    }
}

pub open spec fn kind_tag(kind: CommissionKind) -> Seq<char> {
    match kind {
        CommissionKind::Ntx => "NTX"@,
        CommissionKind::Usdt => "USDT"@,
        CommissionKind::NtxKolUpline => "NTX_KOL_UPLINE"@,
        CommissionKind::UsdtKol => "USDT_KOL"@,
        CommissionKind::NtxKolDirect => "NTX_KOL_DIRECT"@,
    }
}

/// One audit row: `recipient` is credited `amount` because of
/// `contributor`'s trading.
#[derive(Clone, Copy, Debug, PartialEq, Eq)]
pub struct CommissionRow {
    pub recipient: i64,
    pub contributor: i64,
    pub amount: u64,
    pub kind: CommissionKind,
}

/// What one trader's own trading yields.
#[derive(Clone, Copy, Debug, PartialEq, Eq)]
pub struct TraderSettlement {
    pub user_id: i64,
    /// Token rebate the trader keeps (zero for an active KOL).
    pub ntx_rebate: u64,
    /// Token rebate taken from an active KOL trader for the platform account.
    pub ntx_redirected: u64,
    /// Cash rebate paid to the trader.
    pub usdt_rebate: u64,
    /// Fees the trader incurred.
    pub total_fee: u64,
}

/// Basis points in a whole: rates are counted in hundredths of a percent.
pub const BASIS_POINTS: u64 = 10_000;

/// Every active KOL's rate is at most the whole rebate base, in basis points
/// (from 0 to 10 000).
pub open spec fn kol_rates_valid(kols: Map<i64, u64>) -> bool {
    forall|k: i64| kols.contains_key(k) ==> #[trigger] kols[k] <= BASIS_POINTS
}

pub open spec fn pct_of(amount: nat, pct: nat) -> nat {
    (amount * pct / 100) as nat
}

/// `amount · rate`, the rate in basis points, rounded down.
pub open spec fn bp_of(amount: nat, rate: nat) -> nat {
    (amount * rate / (BASIS_POINTS as nat)) as nat
}

/// `pct` percent of the trader's exact token rebate, rounded down once: the
/// trader's share `fee / platform_fee` of the day's exact issuance
/// `numerator / denominator`.
pub open spec fn token_part(fee: nat, platform_fee: nat, issuance: Issuance, pct: nat) -> nat {
    if platform_fee == 0 || issuance.denominator == 0 {
        0
    } else {
        (fee * issuance.numerator * pct / (platform_fee * (100 * issuance.denominator))) as nat
    }
}

/// The trader's whole token rebate before the split, rounded down.
pub open spec fn token_total(fee: nat, platform_fee: nat, issuance: Issuance) -> nat {
    token_part(fee, platform_fee, issuance, 100)
}

/// The part of the token rebate that the trader keeps.
pub open spec fn trader_token_share(fee: nat, platform_fee: nat, issuance: Issuance) -> nat {
    token_part(fee, platform_fee, issuance, TRADER_TOKEN_SHARE_PCT as nat)
}

/// The part of the token rebate that goes to the direct inviter.
pub open spec fn inviter_token_share(fee: nat, platform_fee: nat, issuance: Issuance) -> nat {
    token_part(fee, platform_fee, issuance, (100 - TRADER_TOKEN_SHARE_PCT) as nat)
}

/// A row for `amount`, or none where the amount is zero.
pub open spec fn row_if_positive(
    recipient: i64,
    contributor: i64,
    amount: nat,
    kind: CommissionKind,
) -> Seq<CommissionRow> {
    if amount > 0 {
        seq![CommissionRow { recipient, contributor, amount: amount as u64, kind }]
    } else {
        seq![]
    }
}

/// The inviter's token share: to the inviter, or to the platform account
/// where the inviter is an active KOL.
pub open spec fn token_rows(
    trader: i64,
    awards: UplineAwards,
    kols: Map<i64, u64>,
    inviter_share: nat,
) -> Seq<CommissionRow> {
    match awards.direct {
        Some(inviter) => if kols.contains_key(inviter) {
            row_if_positive(PLATFORM_SINK_ID, trader, inviter_share, CommissionKind::NtxKolUpline)
        } else {
            row_if_positive(inviter, trader, inviter_share, CommissionKind::Ntx)
        },
        None => seq![],
    }
}

pub open spec fn bonus_row(
    recipient: Option<i64>,
    trader: i64,
    base: nat,
    pct: nat,
) -> Seq<CommissionRow> {
    match recipient {
        Some(r) => row_if_positive(r, trader, pct_of(base, pct), CommissionKind::Usdt),
        None => seq![],
    }
}

pub open spec fn bonus_paid(recipient: Option<i64>, base: nat, pct: nat) -> nat {
    match recipient {
        Some(_) => pct_of(base, pct),
        None => 0,
    }
}

/// The standard cash bonuses: first level, broker, platform, in that order.
pub open spec fn standard_rows(trader: i64, awards: UplineAwards, base: nat) -> Seq<
    CommissionRow,
> {
    bonus_row(awards.direct, trader, base, DIRECT_BONUS_PCT as nat) + bonus_row(
        awards.broker,
        trader,
        base,
        BROKER_BONUS_PCT as nat,
    ) + bonus_row(awards.platform, trader, base, PLATFORM_BONUS_PCT as nat)
}

/// Total of the standard cash bonuses paid out of `base`.
pub open spec fn standard_paid(awards: UplineAwards, base: nat) -> nat {
    bonus_paid(awards.direct, base, DIRECT_BONUS_PCT as nat) + bonus_paid(
        awards.broker,
        base,
        BROKER_BONUS_PCT as nat,
    ) + bonus_paid(awards.platform, base, PLATFORM_BONUS_PCT as nat)
}

/// The KOL's top-up: their contracted share of the base less what the
/// standard bonuses already paid, where that is positive.
pub open spec fn kol_rows(trader: i64, awards: UplineAwards, base: nat) -> Seq<CommissionRow> {
    match awards.kol {
        Some((kol, rate)) => {
            let target = bp_of(base, rate as nat);
            let paid = standard_paid(awards, base);
            if target > paid {
                seq![
                    CommissionRow {
                        recipient: kol,
                        contributor: trader,
                        amount: (target - paid) as u64,
                        kind: CommissionKind::UsdtKol,
                    },
                ]
            } else {
                seq![]
            }
        },
        None => seq![],
    }
}

/// All commission rows that one trader's totals give rise to.
pub open spec fn trader_rows(
    t: TraderTotals,
    platform_fee: nat,
    issuance: Issuance,
    referrals: Map<i64, i64>,
    brokers: Set<i64>,
    kols: Map<i64, u64>,
) -> Seq<CommissionRow> {
    let awards = upline_awards(t.user_id, referrals, brokers, kols);
    let inviter_share = inviter_token_share(t.total_fee as nat, platform_fee, issuance);
    token_rows(t.user_id, awards, kols, inviter_share) + standard_rows(
        t.user_id,
        awards,
        t.rebate_base as nat,
    ) + kol_rows(t.user_id, awards, t.rebate_base as nat)
}

/// What one trader keeps from their own trading.
pub open spec fn trader_settlement(
    t: TraderTotals,
    platform_fee: nat,
    issuance: Issuance,
    kols: Map<i64, u64>,
) -> TraderSettlement {
    let share = trader_token_share(t.total_fee as nat, platform_fee, issuance);
    TraderSettlement {
        user_id: t.user_id,
        ntx_rebate: if kols.contains_key(t.user_id) {
            0
        } else {
            share as u64
        },
        ntx_redirected: if kols.contains_key(t.user_id) {
            share as u64
        } else {
            0
        },
        usdt_rebate: pct_of(t.rebate_base as nat, SELF_CASH_REBATE_PCT as nat) as u64,
        total_fee: t.total_fee,
    }
}

pub proof fn lemma_pct_bounded(amount: nat, pct: nat)
    requires
        pct <= 100,
    ensures
        pct_of(amount, pct) <= amount,
{
    assert(amount * pct <= amount * 100) by (nonlinear_arith)
        requires
            pct <= 100,
    ;
}

pub proof fn lemma_bp_bounded(amount: nat, rate: nat)
    requires
        rate <= BASIS_POINTS,
    ensures
        bp_of(amount, rate) <= amount,
{
    assert(amount * rate <= amount * 10_000) by (nonlinear_arith)
        requires
            rate <= 10_000,
    ;
}

/// `a / d + b / d` falls short of `(a + b) / d` by at most one.
pub proof fn lemma_div_sum(a: nat, b: nat, d: nat)
    requires
        d > 0,
    ensures
        a / d + b / d <= (a + b) / d,
        (a + b) / d <= a / d + b / d + 1,
{
    let qa = a / d;
    let qb = b / d;
    let ra = a % d;
    let rb = b % d;
    vstd::arithmetic::div_mod::lemma_fundamental_div_mod(a as int, d as int);
    vstd::arithmetic::div_mod::lemma_fundamental_div_mod(b as int, d as int);
    assert(a + b == (qa + qb) * d + (ra + rb)) by (nonlinear_arith)
        requires
            a == d * qa + ra,
            b == d * qb + rb,
    ;
    if ra + rb < d {
        vstd::arithmetic::div_mod::lemma_fundamental_div_mod_converse(
            (a + b) as int,
            d as int,
            (qa + qb) as int,
            (ra + rb) as int,
        );
    } else {
        assert(a + b == (qa + qb + 1) * d + (ra + rb - d)) by (nonlinear_arith)
            requires
                a + b == (qa + qb) * d + (ra + rb),
        ;
        vstd::arithmetic::div_mod::lemma_fundamental_div_mod_converse(
            (a + b) as int,
            d as int,
            (qa + qb + 1) as int,
            (ra + rb - d) as int,
        );
    }
}

/// The trader's and the inviter's parts, each rounded once, add up to the
/// whole rebate or one unit less; the whole is at most the day's issuance.
pub proof fn lemma_token_parts(fee: nat, platform_fee: nat, issuance: Issuance)
    requires
        fee <= platform_fee,
    ensures
        trader_token_share(fee, platform_fee, issuance) + inviter_token_share(
            fee,
            platform_fee,
            issuance,
        ) <= token_total(fee, platform_fee, issuance),
        token_total(fee, platform_fee, issuance) <= trader_token_share(
            fee,
            platform_fee,
            issuance,
        ) + inviter_token_share(fee, platform_fee, issuance) + 1,
        token_total(fee, platform_fee, issuance) <= exact_units(issuance),
        fee == platform_fee && platform_fee > 0 ==> token_total(fee, platform_fee, issuance)
            == exact_units(issuance),
{
    if platform_fee > 0 && issuance.denominator > 0 {
        let num = issuance.numerator as nat;
        let den = issuance.denominator as nat;
        let d = platform_fee * (100 * den);
        assert(d > 0) by (nonlinear_arith)
            requires
                platform_fee > 0,
                den > 0,
                d == platform_fee * (100 * den),
        ;
        let x = fee * num;
        assert(x * 90 + x * 10 == x * 100) by (nonlinear_arith);
        lemma_div_sum(x * 90, x * 10, d);
        assert(fee * num * 100 <= platform_fee * num * 100) by (nonlinear_arith)
            requires
                fee <= platform_fee,
        ;
        lemma_div_is_ordered((fee * num * 100) as int, (platform_fee * num * 100) as int, d as int);
        assert(platform_fee * num * 100 == (platform_fee * 100) * num) by (nonlinear_arith);
        assert(d == (platform_fee * 100) * den) by (nonlinear_arith)
            requires
                d == platform_fee * (100 * den),
        ;
        assert(platform_fee * 100 > 0) by (nonlinear_arith)
            requires
                platform_fee > 0,
        ;
        lemma_div_denominator(
            ((platform_fee * 100) * num) as int,
            (platform_fee * 100) as int,
            den as int,
        );
        lemma_div_multiples_vanish(num as int, (platform_fee * 100) as int);
    }
}

/// A part of the rebate is at most the whole, and the whole fits in 64 bits.
proof fn lemma_token_part_bounded(fee: nat, platform_fee: nat, issuance: Issuance, pct: nat)
    requires
        fee <= platform_fee,
        pct <= 100,
    ensures
        token_part(fee, platform_fee, issuance, pct) <= token_total(fee, platform_fee, issuance),
        token_total(fee, platform_fee, issuance) <= issuance.numerator,
{
    lemma_token_parts(fee, platform_fee, issuance);
    if platform_fee > 0 && issuance.denominator > 0 {
        let num = issuance.numerator as nat;
        let d = platform_fee * (100 * issuance.denominator);
        assert(d > 0) by (nonlinear_arith)
            requires
                platform_fee > 0,
                issuance.denominator > 0,
                d == platform_fee * (100 * issuance.denominator),
        ;
        assert(fee * num * pct <= fee * num * 100) by (nonlinear_arith)
            requires
                pct <= 100,
        ;
        lemma_div_is_ordered((fee * num * pct) as int, (fee * num * 100) as int, d as int);
        assert(num / (issuance.denominator as nat) <= num) by (nonlinear_arith)
            requires
                issuance.denominator > 0,
        ;
    }
}

/// `pct` percent of the trader's exact token rebate, rounded down once.
fn token_part_of(fee: u64, platform_fee: u128, issuance: Issuance, percent: u64) -> (r: u64)
    requires
        fee <= platform_fee,
        percent <= 100,
        issuance_valid(issuance),
    ensures
        r == token_part(fee as nat, platform_fee as nat, issuance, percent as nat),
{
    if platform_fee == 0 {
        return 0;
    }
    let num = issuance.numerator as u128;
    let den = issuance.denominator as u128;
    assert(fee * num <= 0xffff_ffff_ffff_ffffu128 * 2_044_000_000_000_000u128) by (nonlinear_arith)
        requires
            fee <= 0xffff_ffff_ffff_ffffu128,
            num <= 2_044_000_000_000_000u128,
    ;
    let x = fee as u128 * num;
    assert(x * percent <= 0xffff_ffff_ffff_ffffu128 * 2_044_000_000_000_000u128 * 100) by (nonlinear_arith)
        requires
            x <= 0xffff_ffff_ffff_ffffu128 * 2_044_000_000_000_000u128,
            percent <= 100,
    ;
    let a = x * percent as u128;
    let q = a / platform_fee;
    proof {
        lemma_div_denominator(a as int, platform_fee as int, (100 * den) as int);
        lemma_token_part_bounded(fee as nat, platform_fee as nat, issuance, percent as nat);
    }
    (q / (100 * den)) as u64
}

/// `amount · pct / 100`, rounded down.
fn pct(amount: u64, percent: u64) -> (r: u64)
    requires
        percent <= 100,
    ensures
        r == pct_of(amount as nat, percent as nat),
{
    proof {
        lemma_pct_bounded(amount as nat, percent as nat);
    }
    ((amount as u128 * percent as u128) / 100) as u64
}

fn push_if_positive(
    rows: &mut Vec<CommissionRow>,
    recipient: i64,
    contributor: i64,
    amount: u64,
    kind: CommissionKind,
)
    ensures
        final(rows)@ == old(rows)@ + row_if_positive(recipient, contributor, amount as nat, kind),
{
    if amount > 0 {
        rows.push(CommissionRow { recipient, contributor, amount, kind });
    }
}

fn push_token_rows(
    rows: &mut Vec<CommissionRow>,
    trader: i64,
    awards: UplineAwards,
    kols: &HashMap<i64, u64>,
    inviter_share: u64,
)
    ensures
        final(rows)@ == old(rows)@ + token_rows(trader, awards, kols@, inviter_share as nat),
{
    match awards.direct {
        Some(inviter) => {
            if kols.contains_key(&inviter) {
                push_if_positive(
                    rows,
                    PLATFORM_SINK_ID,
                    trader,
                    inviter_share,
                    CommissionKind::NtxKolUpline,
                );
            } else {
                push_if_positive(rows, inviter, trader, inviter_share, CommissionKind::Ntx);
            }
        },
        None => {},
    }
}

fn push_bonus_row(
    rows: &mut Vec<CommissionRow>,
    recipient: Option<i64>,
    trader: i64,
    base: u64,
    percent: u64,
) -> (paid: u64)
    requires
        percent <= 100,
    ensures
        final(rows)@ == old(rows)@ + bonus_row(recipient, trader, base as nat, percent as nat),
        paid == bonus_paid(recipient, base as nat, percent as nat),
        paid <= base,
{
    proof {
        lemma_pct_bounded(base as nat, percent as nat);
    }
    match recipient {
        Some(r) => {
            let amount = pct(base, percent);
            push_if_positive(rows, r, trader, amount, CommissionKind::Usdt);
            amount
        },
        None => 0,
    }
}

fn push_cash_rows(rows: &mut Vec<CommissionRow>, trader: i64, awards: UplineAwards, base: u64)
    requires
        match awards.kol {
            Some((_, rate)) => rate <= BASIS_POINTS,
            None => true,
        },
    ensures
        final(rows)@ == old(rows)@ + standard_rows(trader, awards, base as nat) + kol_rows(
            trader,
            awards,
            base as nat,
        ),
{
    let ghost start = rows@;
    let direct = push_bonus_row(rows, awards.direct, trader, base, DIRECT_BONUS_PCT);
    let broker = push_bonus_row(rows, awards.broker, trader, base, BROKER_BONUS_PCT);
    let platform = push_bonus_row(rows, awards.platform, trader, base, PLATFORM_BONUS_PCT);
    let paid: u128 = direct as u128 + broker as u128 + platform as u128;
    let ghost before_kol = rows@;
    match awards.kol {
        Some((kol, rate)) => {
            proof {
                lemma_bp_bounded(base as nat, rate as nat);
            }
            let target = ((base as u128 * rate as u128) / BASIS_POINTS as u128) as u64;
            if target as u128 > paid {
                rows.push(
                    CommissionRow {
                        recipient: kol,
                        contributor: trader,
                        amount: (target as u128 - paid) as u64,
                        kind: CommissionKind::UsdtKol,
                    },
                );
            }
        },
        None => {},
    }
    assert(rows@ == before_kol + kol_rows(trader, awards, base as nat));
    assert(rows@ =~= start + standard_rows(trader, awards, base as nat) + kol_rows(
        trader,
        awards,
        base as nat,
    ));
}

/// Applies the distribution rules to one trader's totals, appending the
/// commission rows they give rise to and returning what the trader keeps.
///
/// `platform_fee` is the day's total fee over all traders and `issuance`
/// the day's token issuance.
pub fn settle_trader(
    t: TraderTotals,
    platform_fee: u128,
    issuance: Issuance,
    referrals: &HashMap<i64, i64>,
    brokers: &HashSet<i64>,
    kols: &HashMap<i64, u64>,
    rows: &mut Vec<CommissionRow>,
) -> (r: TraderSettlement)
    requires
        t.total_fee <= platform_fee,
        kol_rates_valid(kols@),
        issuance_valid(issuance),
    ensures
        r == trader_settlement(t, platform_fee as nat, issuance, kols@),
        final(rows)@ == old(rows)@ + trader_rows(
            t,
            platform_fee as nat,
            issuance,
            referrals@,
            brokers@,
            kols@,
        ),
{
    let ghost start = rows@;
    let awards = walk_upline(t.user_id, referrals, brokers, kols);
    proof {
        lemma_kol_award_is_active(t.user_id, referrals@, brokers@, kols@);
    }
    let share = token_part_of(t.total_fee, platform_fee, issuance, TRADER_TOKEN_SHARE_PCT);
    let inviter_share = token_part_of(
        t.total_fee,
        platform_fee,
        issuance,
        100 - TRADER_TOKEN_SHARE_PCT,
    );
    push_token_rows(rows, t.user_id, awards, kols, inviter_share);
    push_cash_rows(rows, t.user_id, awards, t.rebate_base);
    assert(rows@ =~= start + trader_rows(
        t,
        platform_fee as nat,
        issuance,
        referrals@,
        brokers@,
        kols@,
    ));
    let is_kol = kols.contains_key(&t.user_id);
    TraderSettlement {
        user_id: t.user_id,
        ntx_rebate: if is_kol {
            0
        } else {
            share
        },
        ntx_redirected: if is_kol {
            share
        } else {
            0
        },
        usdt_rebate: pct(t.rebate_base, SELF_CASH_REBATE_PCT),
        total_fee: t.total_fee,
    }
}

} // verus!
