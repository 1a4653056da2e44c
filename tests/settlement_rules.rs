use std::collections::{HashMap, HashSet};

use ntx_settlement::control::{plan_admin_trades, ControlError, DEFAULT_EXCHANGE_ID};
use ntx_settlement::distribution::{CommissionKind, CommissionRow, PLATFORM_SINK_ID};
use ntx_settlement::earnings::DailyUserRebate;
use ntx_settlement::issuance::{daily_ntx_issuance, daily_ntx_issuance_exact, Issuance};
use ntx_settlement::ledger::{balance_gains, credit_balance, UserBalance};
use ntx_settlement::referral::{is_broker_by_status, walk_upline};
use ntx_settlement::settlement::{settle_day, DaySettlement};
use ntx_settlement::trades::{aggregate_trades, TradeRecord};

const USDT: u64 = 1_000_000;

fn trade(user_id: i64, exchange_id: i64, fee: u64, volume: u64) -> TradeRecord {
    TradeRecord { user_id, exchange_id, fee, volume }
}

fn earnings_of(s: &DaySettlement, user: i64) -> Option<DailyUserRebate> {
    s.earnings.iter().copied().find(|e| e.user_id == user)
}

/// `pct` percent of the exact issuance times `fee / total`, rounded down.
fn part(issuance: Issuance, fee: u64, total: u64, pct: u128) -> u64 {
    (fee as u128 * issuance.numerator as u128 * pct
        / (total as u128 * 100 * issuance.denominator as u128)) as u64
}

fn rows_to(s: &DaySettlement, user: i64) -> Vec<CommissionRow> {
    s.rows.iter().copied().filter(|r| r.recipient == user).collect()
}

fn settle(
    days: i64,
    trades: &Vec<TradeRecord>,
    referrals: &[(i64, i64)],
    brokers: &[i64],
    kols: &[(i64, u64)],
) -> DaySettlement {
    let mut efficiencies = HashMap::new();
    efficiencies.insert(1i64, 10_000u64);
    efficiencies.insert(2i64, 5_000u64);
    let referrals: HashMap<i64, i64> = referrals.iter().copied().collect();
    let brokers: HashSet<i64> = brokers.iter().copied().collect();
    let kols: HashMap<i64, u64> = kols.iter().copied().collect();
    settle_day(days, trades, &efficiencies, &referrals, &brokers, &kols)
}

#[test]
fn aggregation_accumulates_per_trader() {
    let mut efficiencies = HashMap::new();
    efficiencies.insert(1i64, 5_000u64);
    let trades = vec![trade(7, 1, 10, 100), trade(8, 9, 4, 40), trade(7, 1, 5, 50)];
    let totals = aggregate_trades(&trades, &efficiencies);
    assert_eq!(totals.len(), 2);
    assert_eq!((totals[0].user_id, totals[0].total_fee, totals[0].rebate_base), (7, 15, 7));
    // Exchange 9 is not listed: its efficiency counts as zero.
    assert_eq!((totals[1].user_id, totals[1].total_fee, totals[1].rebate_base), (8, 4, 0));
}

#[test]
fn end_to_end_single_trader_without_upline() {
    // Genesis 2024-01-01, settled 2024-01-02: one day after genesis.
    let issuance = daily_ntx_issuance_exact(1);
    let trades = vec![trade(10, 2, 100 * USDT, 5_000 * USDT), trade(11, 1, 0, 0)];
    let s = settle(1, &trades, &[], &[], &[]);
    assert_eq!(s.issuance, issuance);
    assert_eq!(s.issuance.units(), daily_ntx_issuance(1));
    assert_eq!(s.platform_fee, 100 * USDT as u128);
    assert_eq!(s.total_volume, 5_000 * USDT);
    let e = earnings_of(&s, 10).unwrap();
    // 0.9 · issuance(1) = 345167.64871458057 tokens, rounded down once.
    assert_eq!(e.ntx_rebate, 345_167_648_714);
    let exact = 0.9 * issuance.numerator as f64 / issuance.denominator as f64 / 1e6;
    assert!((e.ntx_rebate as f64 / 1e6 - exact).abs() < 1e-6);
    // Rebate base: half of the fee; the trader is paid 60% of it.
    assert_eq!(e.usdt_rebate, 30 * USDT);
    assert_eq!(e.ntx_bonus_earned, 0);
    assert_eq!(e.usdt_bonus_earned, 0);
    assert_eq!(e.total_fees_incurred, 100 * USDT);
    assert!(s.rows.is_empty());
    let idle = earnings_of(&s, 11).unwrap();
    assert_eq!((idle.ntx_rebate, idle.usdt_rebate), (0, 0));
    assert_eq!(s.earnings.len(), 2);
    assert_eq!(s.total_ntx_distributed, 345_167_648_714);
    assert_eq!(s.total_usdt_commissions, 30 * USDT as u128);
}

#[test]
fn no_trades_means_no_effect() {
    let s = settle(1, &vec![], &[(2, 1)], &[1], &[(1, 50)]);
    assert!(s.totals.is_empty() && s.rows.is_empty() && s.earnings.is_empty());
    assert_eq!(s.total_ntx_distributed, 0);
    assert_eq!(s.total_usdt_commissions, 0);
}

#[test]
fn token_conservation_with_inviters() {
    let trades = vec![trade(20, 1, 3 * USDT, 0), trade(21, 1, 7 * USDT, 0), trade(22, 2, 11, 0)];
    let s = settle(100, &trades, &[(20, 30), (21, 30), (22, 31)], &[], &[]);
    let issuance = s.issuance.units() as u128;
    assert!(s.total_ntx_distributed <= issuance);
    assert!(s.total_ntx_distributed + 2 * 3 >= issuance);
    let credited: u128 =
        s.earnings.iter().map(|e| e.ntx_rebate as u128 + e.ntx_bonus_earned).sum();
    assert_eq!(credited, s.total_ntx_distributed);
}

#[test]
fn inviter_takes_ten_percent_of_tokens_and_thirty_percent_cash() {
    let trades = vec![trade(40, 1, 10 * USDT, 0)];
    let s = settle(0, &trades, &[(40, 41)], &[], &[]);
    let own = earnings_of(&s, 40).unwrap();
    let inviter = earnings_of(&s, 41).unwrap();
    assert_eq!(own.ntx_rebate, part(s.issuance, 1, 1, 90));
    assert_eq!(inviter.ntx_bonus_earned as u64, part(s.issuance, 1, 1, 10));
    assert_eq!(inviter.usdt_bonus_earned, 3 * USDT as u128);
    let rows = rows_to(&s, 41);
    assert_eq!(rows.len(), 2);
    assert_eq!(rows[0].kind, CommissionKind::Ntx);
    assert_eq!(rows[1].kind, CommissionKind::Usdt);
    assert_eq!(rows[1].amount, 3 * USDT);
}

#[test]
fn kol_top_up_without_duplication() {
    // trader 50 → A 51 (not a broker) → KOL 52 at 45%.
    let trades = vec![trade(50, 1, 100 * USDT, 0)];
    let s = settle(3, &trades, &[(50, 51), (51, 52)], &[], &[(52, 4_500)]);
    let a = earnings_of(&s, 51).unwrap();
    let kol = earnings_of(&s, 52).unwrap();
    assert_eq!(a.usdt_bonus_earned, 30 * USDT as u128);
    assert_eq!(kol.usdt_bonus_earned, 15 * USDT as u128);
    let kol_rows = rows_to(&s, 52);
    assert_eq!(kol_rows.len(), 1);
    assert_eq!(kol_rows[0].kind, CommissionKind::UsdtKol);
    assert_eq!(kol_rows[0].kind.tag(), "USDT_KOL");
    let cash_up_chain: u64 =
        s.rows.iter().filter(|r| !r.kind.pays_tokens()).map(|r| r.amount).sum();
    assert_eq!(cash_up_chain, 45 * USDT);
}

#[test]
fn kol_rate_below_standard_gets_no_top_up() {
    let trades = vec![trade(50, 1, 100 * USDT, 0)];
    let s = settle(3, &trades, &[(50, 51), (51, 52)], &[], &[(52, 2_000)]);
    assert!(rows_to(&s, 52).is_empty());
    assert_eq!(earnings_of(&s, 51).unwrap().usdt_bonus_earned, 30 * USDT as u128);
}

#[test]
fn broker_bonus_claimed_once_by_nearest() {
    // trader 60 → 61 → 62 → 63, all three ancestors brokers.
    let trades = vec![trade(60, 1, 100 * USDT, 0)];
    let s = settle(5, &trades, &[(60, 61), (61, 62), (62, 63)], &[61, 62, 63], &[]);
    // 61: first level 30% and broker 20%; 62: platform 10% (61 is a broker
    // rung and 62 its inviter); 63 nothing.
    assert_eq!(earnings_of(&s, 61).unwrap().usdt_bonus_earned, 50 * USDT as u128);
    assert_eq!(earnings_of(&s, 62).unwrap().usdt_bonus_earned, 10 * USDT as u128);
    assert!(earnings_of(&s, 63).is_none());
    let twenty: Vec<_> = s.rows.iter().filter(|r| r.amount == 20 * USDT).collect();
    assert_eq!(twenty.len(), 1);
    assert_eq!(twenty[0].recipient, 61);
}

#[test]
fn broker_trader_gives_platform_bonus_to_inviter() {
    let trades = vec![trade(70, 1, 100 * USDT, 0)];
    let s = settle(5, &trades, &[(70, 71)], &[70], &[]);
    // 71 gets the first-level 30% and the platform 10%.
    assert_eq!(earnings_of(&s, 71).unwrap().usdt_bonus_earned, 40 * USDT as u128);
}

#[test]
fn kol_direct_trade_redirected_to_platform() {
    let trades = vec![trade(80, 1, 50 * USDT, 0), trade(81, 1, 50 * USDT, 0)];
    let s = settle(2, &trades, &[], &[], &[(80, 3_000)]);
    let kol = earnings_of(&s, 80).unwrap();
    assert_eq!(kol.ntx_rebate, 0);
    let share = part(s.issuance, 50 * USDT, 100 * USDT, 90);
    let sink_rows = rows_to(&s, PLATFORM_SINK_ID);
    assert_eq!(sink_rows.len(), 1);
    assert_eq!(sink_rows[0].kind, CommissionKind::NtxKolDirect);
    assert_eq!(sink_rows[0].kind.tag(), "NTX_KOL_DIRECT");
    assert_eq!(sink_rows[0].contributor, PLATFORM_SINK_ID);
    assert_eq!(sink_rows[0].amount, share);
    assert_eq!(earnings_of(&s, PLATFORM_SINK_ID).unwrap().ntx_bonus_earned, share as u128);
    assert_eq!(earnings_of(&s, 81).unwrap().ntx_rebate, share);
}

#[test]
fn kol_inviter_token_share_goes_to_platform() {
    let trades = vec![trade(90, 1, 10 * USDT, 0)];
    let s = settle(2, &trades, &[(90, 91)], &[], &[(91, 3_000)]);
    let sink_rows = rows_to(&s, PLATFORM_SINK_ID);
    assert_eq!(sink_rows.len(), 1);
    assert_eq!(sink_rows[0].kind, CommissionKind::NtxKolUpline);
    assert_eq!(sink_rows[0].kind.tag(), "NTX_KOL_UPLINE");
    assert_eq!(sink_rows[0].contributor, 90);
    let kol = earnings_of(&s, 91).unwrap();
    assert_eq!(kol.ntx_bonus_earned, 0);
    assert_eq!(kol.usdt_bonus_earned, 3 * USDT as u128);
}

#[test]
fn cyclic_referrals_terminate() {
    let referrals: HashMap<i64, i64> = [(1, 2), (2, 3), (3, 1)].into_iter().collect();
    let brokers: HashSet<i64> = HashSet::new();
    let kols: HashMap<i64, u64> = [(3, 4_000)].into_iter().collect();
    let awards = walk_upline(1, &referrals, &brokers, &kols);
    assert_eq!(awards.direct, Some(2));
    assert_eq!(awards.broker, None);
    assert_eq!(awards.platform, None);
    assert_eq!(awards.kol, Some((3, 4_000)));
}

#[test]
fn controller_break_even() {
    // A = 10, N = 90, target 50%: X = 80.
    let planned = plan_admin_trades(5_000, 10, 100, &vec![3, 4, 5]).unwrap();
    assert_eq!(planned.len(), 3);
    let fees: Vec<u64> = planned.iter().map(|t| t.fee).collect();
    assert_eq!(fees, vec![27, 27, 26]);
    assert_eq!(fees.iter().sum::<u64>(), 80);
    assert_eq!(planned[0].volume, 27 * 2000);
    assert_eq!(planned[2].user_id, 5);
    assert_eq!(planned[0].exchange_id, DEFAULT_EXCHANGE_ID);
    assert_eq!((10 + 80) * 100 / (10 + 80 + 90), 50);
}

#[test]
fn controller_target_met_or_invalid() {
    assert!(plan_admin_trades(5_000, 60, 100, &vec![3]).unwrap().is_empty());
    assert_eq!(
        plan_admin_trades(10_000, 10, 100, &vec![3]).unwrap_err(),
        ControlError::InvalidTargetPercentage
    );
    assert_eq!(plan_admin_trades(5_000, 10, 100, &vec![]).unwrap_err(), ControlError::NoAdmins);
    assert_eq!(
        plan_admin_trades(9_900, 0, u64::MAX, &vec![3]).unwrap_err(),
        ControlError::AmountTooLarge
    );
    assert!(plan_admin_trades(0, 0, 100, &vec![]).unwrap().is_empty());
}

#[test]
fn resettling_doubles_balances() {
    let trades = vec![trade(10, 1, 100 * USDT, 0)];
    let first = settle(1, &trades, &[], &[], &[]);
    let second = settle(1, &trades, &[], &[], &[]);
    let e1 = earnings_of(&first, 10).unwrap();
    let e2 = earnings_of(&second, 10).unwrap();
    assert_eq!(e1, e2);
    let mut b = UserBalance { user_id: 10, ntx_balance: 5, usdt_balance: 7, exp: 1 };
    credit_balance(&mut b, &e1);
    credit_balance(&mut b, &e2);
    assert_eq!(b.ntx_balance, 5 + 2 * e1.ntx_rebate as u128);
    assert_eq!(b.usdt_balance, 7 + 2 * 60 * USDT as u128);
    assert_eq!(b.exp, 1 + 2 * 100);
}

#[test]
fn controller_fractional_target() {
    // 12.5% of the fees: A + X = ceil(1250 · 70 / 8750) = 10.
    let planned = plan_admin_trades(1_250, 0, 70, &vec![9]).unwrap();
    assert_eq!(planned.len(), 1);
    assert_eq!(planned[0].fee, 10);
}

#[test]
fn fractional_kol_rate_and_efficiency() {
    // Efficiency 62.5%, KOL rate 35.5%: base 62.5, KOL target 22.1875 USDT.
    let mut efficiencies = HashMap::new();
    efficiencies.insert(3i64, 6_250u64);
    let referrals: HashMap<i64, i64> = [(50, 51), (51, 52)].into_iter().collect();
    let kols: HashMap<i64, u64> = [(52, 3_550)].into_iter().collect();
    let trades = vec![trade(50, 3, 100 * USDT, 0)];
    let s = settle_day(3, &trades, &efficiencies, &referrals, &HashSet::new(), &kols);
    assert_eq!(s.totals[0].rebate_base, 62_500_000);
    assert_eq!(earnings_of(&s, 51).unwrap().usdt_bonus_earned, 18_750_000);
    assert_eq!(earnings_of(&s, 52).unwrap().usdt_bonus_earned, 22_187_500 - 18_750_000);
}

#[test]
fn broker_predicate() {
    assert!(is_broker_by_status(true, 0, 0));
    assert!(is_broker_by_status(false, 1_000_000, 100));
    assert!(!is_broker_by_status(false, 999_999, 1_000));
    assert!(!is_broker_by_status(false, 5_000_000, 99));
}

#[test]
fn gains_of_a_day() {
    let e = DailyUserRebate {
        user_id: 4,
        ntx_rebate: 5,
        usdt_rebate: 7,
        ntx_bonus_earned: 11,
        usdt_bonus_earned: 13,
        total_fees_incurred: 2_500_000,
    };
    assert_eq!(balance_gains(&e), (16, 20, 2));
}
