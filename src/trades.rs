//! Collapsing a day's trade records into per-trader totals.
use std::collections::HashMap;
use vstd::prelude::*;

verus! {

broadcast use vstd::std_specs::hash::group_hash_axioms;

/// One trade record of the settlement date: amounts in micro-units of the
/// quote currency.
#[derive(Clone, Copy, Debug, PartialEq, Eq)]
pub struct TradeRecord {
    pub user_id: i64,
    pub exchange_id: i64,
    pub fee: u64,
    pub volume: u64,
}

/// A trader's totals for the day: fees incurred, and the part of them that
/// the exchanges return to the platform (the rebate base).
#[derive(Clone, Copy, Debug, PartialEq, Eq)]
pub struct TraderTotals {
    pub user_id: i64,
    pub total_fee: u64,
    pub rebate_base: u64,
}

/// Every exchange's efficiency is in basis points (hundredths of a percent)
/// from 0 to 10 000.
pub open spec fn efficiencies_valid(efficiencies: Map<i64, u64>) -> bool {
    forall|e: i64| efficiencies.contains_key(e) ==> #[trigger] efficiencies[e] <= 10_000
}

/// The efficiency of an exchange: zero for an exchange that is not listed.
pub open spec fn efficiency_of(efficiencies: Map<i64, u64>, exchange_id: i64) -> nat {
    if efficiencies.contains_key(exchange_id) {
        efficiencies[exchange_id] as nat
    } else {
        0
    }
}

/// The part of one record's fee that its exchange returns, rounded down.
pub open spec fn record_base(t: TradeRecord, efficiencies: Map<i64, u64>) -> nat {
    ((t.fee * efficiency_of(efficiencies, t.exchange_id)) / 10_000) as nat
}

/// Total fee of `user`'s records.
pub open spec fn fee_of(trades: Seq<TradeRecord>, user: i64) -> nat
    decreases trades.len(),
{
    if trades.len() == 0 {
        0
    } else {
        fee_of(trades.drop_last(), user) + if trades.last().user_id == user {
            trades.last().fee as nat
        } else {
            0
        }
    }
}

/// Total rebate base of `user`'s records.
pub open spec fn base_of(trades: Seq<TradeRecord>, efficiencies: Map<i64, u64>, user: i64) -> nat
    decreases trades.len(),
{
    if trades.len() == 0 {
        0
    } else {
        base_of(trades.drop_last(), efficiencies, user) + if trades.last().user_id == user {
            record_base(trades.last(), efficiencies)
        } else {
            0
        }
    }
}

/// Total fee of all records.
pub open spec fn total_fee(trades: Seq<TradeRecord>) -> nat
    decreases trades.len(),
{
    if trades.len() == 0 {
        0
    } else {
        (total_fee(trades.drop_last()) + trades.last().fee) as nat
    }
}

/// Total volume of all records.
pub open spec fn total_volume(trades: Seq<TradeRecord>) -> nat
    decreases trades.len(),
{
    if trades.len() == 0 {
        0
    } else {
        (total_volume(trades.drop_last()) + trades.last().volume) as nat
    }
}

/// The users with at least one record, each once, in order of first
/// appearance.
pub open spec fn traders_in(trades: Seq<TradeRecord>) -> Seq<i64>
    decreases trades.len(),
{
    if trades.len() == 0 {
        seq![]
    } else {
        let before = traders_in(trades.drop_last());
        if before.contains(trades.last().user_id) {
            before
        } else {
            before.push(trades.last().user_id)
        }
    }
}

/// What `aggregate_trades` returns for these records.
pub open spec fn aggregated(
    totals: Seq<TraderTotals>,
    trades: Seq<TradeRecord>,
    efficiencies: Map<i64, u64>,
) -> bool {
    &&& totals.len() == traders_in(trades).len()
    &&& forall|i: int|
        0 <= i < totals.len() ==> {
            let u = #[trigger] totals[i].user_id;
            &&& u == traders_in(trades)[i]
            &&& totals[i].total_fee == fee_of(trades, u)
            &&& totals[i].rebate_base == base_of(trades, efficiencies, u)
        }
}

proof fn lemma_push_unfolds(trades: Seq<TradeRecord>, t: TradeRecord)
    ensures
        trades.push(t).drop_last() == trades,
{
    assert(trades.push(t).drop_last() =~= trades);
}

pub proof fn lemma_fee_of_bounded(trades: Seq<TradeRecord>, user: i64)
    ensures
        fee_of(trades, user) <= total_fee(trades),
    decreases trades.len(),
{
    if trades.len() > 0 {
        lemma_fee_of_bounded(trades.drop_last(), user);
    }
}

pub proof fn lemma_base_of_bounded(
    trades: Seq<TradeRecord>,
    efficiencies: Map<i64, u64>,
    user: i64,
)
    requires
        efficiencies_valid(efficiencies),
    ensures
        base_of(trades, efficiencies, user) <= fee_of(trades, user),
    decreases trades.len(),
{
    if trades.len() > 0 {
        lemma_base_of_bounded(trades.drop_last(), efficiencies, user);
        let t = trades.last();
        let e = efficiency_of(efficiencies, t.exchange_id);
        assert(t.fee * e <= t.fee * 10_000) by (nonlinear_arith)
            requires
                e <= 10_000,
        ;
    }
}

proof fn lemma_total_fee_prefix(trades: Seq<TradeRecord>, k: int)
    requires
        0 <= k <= trades.len(),
    ensures
        total_fee(trades.take(k)) <= total_fee(trades),
    decreases trades.len() - k,
{
    if k < trades.len() {
        lemma_total_fee_prefix(trades, k + 1);
        assert(trades.take(k + 1).drop_last() =~= trades.take(k));
    } else {
        assert(trades.take(k) =~= trades);
    }
}

pub proof fn lemma_push_contains(s: Seq<i64>, x: i64, y: i64)
    ensures
        s.push(x).contains(y) <==> (s.contains(y) || x == y),
{
    if s.contains(y) {
        let k = choose|k: int| 0 <= k < s.len() && s[k] == y;
        assert(s.push(x)[k] == y);
    }
    if x == y {
        assert(s.push(x)[s.len() as int] == y);
    }
    if s.push(x).contains(y) {
        let k = choose|k: int| 0 <= k < s.push(x).len() && s.push(x)[k] == y;
        if k < s.len() {
            assert(s[k] == y);
        }
    }
}

/// Each step of `traders_in` keeps what it had and adds the last trader.
proof fn lemma_traders_in_step(trades: Seq<TradeRecord>, user: i64)
    requires
        trades.len() > 0,
    ensures
        traders_in(trades).contains(user) <==> (traders_in(trades.drop_last()).contains(user)
            || trades.last().user_id == user),
{
    lemma_push_contains(traders_in(trades.drop_last()), trades.last().user_id, user);
}

pub proof fn lemma_traders_in_distinct(trades: Seq<TradeRecord>)
    ensures
        traders_in(trades).no_duplicates(),
    decreases trades.len(),
{
    if trades.len() > 0 {
        let before = traders_in(trades.drop_last());
        lemma_traders_in_distinct(trades.drop_last());
        if !before.contains(trades.last().user_id) {
            let after = before.push(trades.last().user_id);
            assert forall|a: int, b: int|
                0 <= a < after.len() && 0 <= b < after.len() && a != b implies after[a]
                != after[b] by {
                if a == before.len() {
                    assert(before[b] == after[b]);
                } else if b == before.len() {
                    assert(before[a] == after[a]);
                }
            }
        }
    }
}

proof fn lemma_traders_in_contains(trades: Seq<TradeRecord>, user: i64)
    ensures
        traders_in(trades).contains(user) <==> exists|i: int|
            0 <= i < trades.len() && #[trigger] trades[i].user_id == user,
    decreases trades.len(),
{
    if trades.len() > 0 {
        let s = trades.drop_last();
        lemma_traders_in_contains(s, user);
        lemma_traders_in_step(trades, user);
        if traders_in(trades).contains(user) && !traders_in(s).contains(user) {
            assert(trades[trades.len() - 1].user_id == user);
        }
        if exists|i: int| 0 <= i < trades.len() && #[trigger] trades[i].user_id == user {
            let i = choose|i: int| 0 <= i < trades.len() && #[trigger] trades[i].user_id == user;
            if i < trades.len() - 1 {
                assert(s[i].user_id == user);
            }
        }
        if exists|i: int| 0 <= i < s.len() && #[trigger] s[i].user_id == user {
            let i = choose|i: int| 0 <= i < s.len() && #[trigger] s[i].user_id == user;
            assert(trades[i].user_id == user);
        }
    }
}

proof fn lemma_fee_zero_when_absent(trades: Seq<TradeRecord>, user: i64)
    requires
        !traders_in(trades).contains(user),
    ensures
        fee_of(trades, user) == 0,
    decreases trades.len(),
{
    if trades.len() > 0 {
        lemma_traders_in_step(trades, user);
        lemma_fee_zero_when_absent(trades.drop_last(), user);
    }
}

proof fn lemma_base_zero_when_absent(
    trades: Seq<TradeRecord>,
    efficiencies: Map<i64, u64>,
    user: i64,
)
    requires
        !traders_in(trades).contains(user),
    ensures
        base_of(trades, efficiencies, user) == 0,
    decreases trades.len(),
{
    if trades.len() > 0 {
        lemma_traders_in_step(trades, user);
        lemma_base_zero_when_absent(trades.drop_last(), efficiencies, user);
    }
}

/// Collapses the day's records into one entry per trader, in order of first
/// appearance: the trader's total fee, and their rebate base, the sum over
/// their records of fee times the exchange's efficiency in basis points
/// (rounded down per record). Traders without records do not appear.
pub fn aggregate_trades(trades: &Vec<TradeRecord>, efficiencies: &HashMap<i64, u64>) -> (r: Vec<
    TraderTotals,
>)
    requires
        total_fee(trades@) <= u64::MAX,
        efficiencies_valid(efficiencies@),
    ensures
        aggregated(r@, trades@, efficiencies@),
{
    let mut r: Vec<TraderTotals> = Vec::new();
    let mut i: usize = 0;
    while i < trades.len()
        invariant
            i <= trades.len(),
            total_fee(trades@) <= u64::MAX,
            efficiencies_valid(efficiencies@),
            aggregated(r@, trades@.take(i as int), efficiencies@),
        decreases trades.len() - i,
    {
        let t = trades[i];
        let ghost before = trades@.take(i as int);
        let ghost after = trades@.take(i + 1);
        proof {
            assert(after =~= before.push(t));
            lemma_push_unfolds(before, t);
            lemma_traders_in_contains(before, t.user_id);
            lemma_total_fee_prefix(trades@, i + 1);
            lemma_fee_of_bounded(after, t.user_id);
            lemma_base_of_bounded(after, efficiencies@, t.user_id);
        }
        let efficiency: u64 = match efficiencies.get(&t.exchange_id) {
            Some(e) => *e,
            None => 0,
        };
        let base = ((t.fee as u128 * efficiency as u128) / 10_000) as u64;
        assert(base == record_base(t, efficiencies@)) by (nonlinear_arith)
            requires
                efficiency == efficiency_of(efficiencies@, t.exchange_id),
                efficiency <= 10_000,
                base == ((t.fee as u128 * efficiency as u128) / 10_000) as u64,
                record_base(t, efficiencies@) == (t.fee * efficiency_of(
                    efficiencies@,
                    t.exchange_id,
                )) / 10_000,
        ;
        let mut j: usize = 0;
        while j < r.len() && r[j].user_id != t.user_id
            invariant
                j <= r@.len(),
                forall|m: int| 0 <= m < j ==> r@[m].user_id != t.user_id,
            decreases r.len() - j,
        {
            j = j + 1;
        }
        proof {
            assert forall|u: i64|
                #![trigger fee_of(after, u)]
                #![trigger base_of(after, efficiencies@, u)]
                fee_of(after, u) == fee_of(before, u) + (if t.user_id == u {
                    t.fee as nat
                } else {
                    0
                }) && base_of(after, efficiencies@, u) == base_of(before, efficiencies@, u) + (
                if t.user_id == u {
                    record_base(t, efficiencies@)
                } else {
                    0
                }) by {}
        }
        if j < r.len() {
            assert(traders_in(before)[j as int] == t.user_id);
            assert(traders_in(after) == traders_in(before));
            proof {
                lemma_traders_in_distinct(before);
            }
            let ghost old_r = r@;
            let old_entry = r[j];
            r.set(
                j,
                TraderTotals {
                    user_id: t.user_id,
                    total_fee: old_entry.total_fee + t.fee,
                    rebate_base: old_entry.rebate_base + base,
                },
            );
            assert forall|m: int| 0 <= m < r@.len() && m != j implies r@[m].user_id
                != t.user_id by {
                assert(old_r[m].user_id == traders_in(before)[m]);
            }
        } else {
            proof {
                assert forall|m: int| 0 <= m < traders_in(before).len() implies traders_in(
                    before,
                )[m] != t.user_id by {
                    assert(r@[m].user_id == traders_in(before)[m]);
                }
            }
            assert(!traders_in(before).contains(t.user_id));
            proof {
                lemma_push_contains(traders_in(before), t.user_id, t.user_id);
            }
            assert(traders_in(after) == traders_in(before).push(t.user_id));
            proof {
                if exists|m: int| 0 <= m < before.len() && #[trigger] before[m].user_id == t.user_id {
                    lemma_traders_in_contains(before, t.user_id);
                }
                lemma_fee_zero_when_absent(before, t.user_id);
                lemma_base_zero_when_absent(before, efficiencies@, t.user_id);
            }
            r.push(TraderTotals { user_id: t.user_id, total_fee: t.fee, rebate_base: base });
        }
        assert forall|m: int| 0 <= m < r@.len() implies {
            let u = #[trigger] r@[m].user_id;
            &&& u == traders_in(after)[m]
            &&& r@[m].total_fee == fee_of(after, u)
            &&& r@[m].rebate_base == base_of(after, efficiencies@, u)
        } by {
            let u = r@[m].user_id;
            assert(fee_of(after, u) == fee_of(before, u) + (if t.user_id == u {
                t.fee as nat
            } else {
                0
            }));
            assert(base_of(after, efficiencies@, u) == base_of(before, efficiencies@, u) + (
            if t.user_id == u {
                record_base(t, efficiencies@)
            } else {
                0
            }));
        }
        i = i + 1;
    }
    assert(trades@.take(trades.len() as int) =~= trades@);
    r
}

/// Sum of the fees of the listed users.
pub open spec fn fees_over(users: Seq<i64>, trades: Seq<TradeRecord>) -> nat
    decreases users.len(),
{
    if users.len() == 0 {
        0
    } else {
        fees_over(users.drop_last(), trades) + fee_of(trades, users.last())
    }
}

proof fn lemma_fees_over_push(users: Seq<i64>, trades: Seq<TradeRecord>, t: TradeRecord)
    requires
        users.no_duplicates(),
    ensures
        fees_over(users, trades.push(t)) == fees_over(users, trades) + if users.contains(
            t.user_id,
        ) {
            t.fee as nat
        } else {
            0
        },
    decreases users.len(),
{
    if users.len() > 0 {
        let rest = users.drop_last();
        assert(rest.no_duplicates());
        lemma_fees_over_push(rest, trades, t);
        lemma_push_unfolds(trades, t);
        lemma_push_contains(rest, users.last(), t.user_id);
        assert(users == rest.push(users.last()));
        if rest.contains(t.user_id) {
            let k = choose|k: int| 0 <= k < rest.len() && rest[k] == t.user_id;
            assert(users[k] == rest[k]);
        }
    }
}

/// Each record's fee is counted once, under its trader.
proof fn lemma_fees_over_traders(trades: Seq<TradeRecord>)
    ensures
        fees_over(traders_in(trades), trades) == total_fee(trades),
    decreases trades.len(),
{
    if trades.len() > 0 {
        let s = trades.drop_last();
        let t = trades.last();
        lemma_fees_over_traders(s);
        lemma_traders_in_distinct(s);
        assert(trades == s.push(t));
        lemma_fees_over_push(traders_in(s), s, t);
        lemma_push_unfolds(s, t);
        if !traders_in(s).contains(t.user_id) {
            let before = traders_in(s);
            assert(traders_in(trades).drop_last() =~= before);
            lemma_fee_zero_when_absent(s, t.user_id);
        }
    }
}

/// The aggregated entries' fees add up to the day's total fee.
pub proof fn lemma_aggregated_fee_total(
    totals: Seq<TraderTotals>,
    trades: Seq<TradeRecord>,
    efficiencies: Map<i64, u64>,
)
    requires
        aggregated(totals, trades, efficiencies),
    ensures
        fees_over(totals.map_values(|t: TraderTotals| t.user_id), trades) == total_fee(trades),
        forall|i: int| 0 <= i < totals.len() ==> (#[trigger] totals[i]).total_fee <= total_fee(trades),
{
    lemma_fees_over_traders(trades);
    assert(totals.map_values(|t: TraderTotals| t.user_id) =~= traders_in(trades));
    assert forall|i: int| 0 <= i < totals.len() implies (#[trigger] totals[i]).total_fee <= total_fee(trades) by {
        lemma_fee_of_bounded(trades, totals[i].user_id);
    }
}

proof fn lemma_total_volume_prefix(trades: Seq<TradeRecord>, k: int)
    requires
        0 <= k <= trades.len(),
    ensures
        total_volume(trades.take(k)) <= total_volume(trades),
    decreases trades.len() - k,
{
    if k < trades.len() {
        lemma_total_volume_prefix(trades, k + 1);
        assert(trades.take(k + 1).drop_last() =~= trades.take(k));
    } else {
        assert(trades.take(k) =~= trades);
    }
}

/// The day's total traded volume over all records.
pub fn platform_total_volume(trades: &Vec<TradeRecord>) -> (r: u64)
    requires
        total_volume(trades@) <= u64::MAX,
    ensures
        r == total_volume(trades@),
{
    let mut sum: u64 = 0;
    let mut i: usize = 0;
    while i < trades.len()
        invariant
            i <= trades.len(),
            total_volume(trades@) <= u64::MAX,
            sum == total_volume(trades@.take(i as int)),
        decreases trades.len() - i,
    {
        proof {
            assert(trades@.take(i + 1).drop_last() =~= trades@.take(i as int));
            lemma_total_volume_prefix(trades@, i + 1);
        }
        sum = sum + trades[i].volume;
        i = i + 1;
    }
    assert(trades@.take(trades.len() as int) =~= trades@);
    sum
}

} // verus!
