//! Per-user earnings of a settled day: what each user is credited, from
//! their own trading and from the commission rows that name them.
use vstd::prelude::*;
use crate::distribution::{CommissionRow, TraderSettlement};
use crate::trades::lemma_push_contains;

verus! {

/// One user's earnings for the day.
#[derive(Clone, Copy, Debug, PartialEq, Eq)]
pub struct DailyUserRebate {
    pub user_id: i64,
    /// Token rebate kept from their own trading.
    pub ntx_rebate: u64,
    /// Cash rebate from their own trading.
    pub usdt_rebate: u64,
    /// Tokens received through commission rows.
    pub ntx_bonus_earned: u128,
    /// Cash received through commission rows.
    pub usdt_bonus_earned: u128,
    /// Fees incurred by their own trading.
    pub total_fees_incurred: u64,
}

/// The traders' ids, in order.
pub open spec fn trader_ids(traders: Seq<TraderSettlement>) -> Seq<i64> {
    traders.map_values(|s: TraderSettlement| s.user_id)
}

/// The users with earnings: `known` first, then each recipient of a row
/// that is not yet listed, in the order of the rows.
pub open spec fn participants(known: Seq<i64>, rows: Seq<CommissionRow>) -> Seq<i64>
    decreases rows.len(),
{
    if rows.len() == 0 {
        known
    } else {
        let before = participants(known, rows.drop_last());
        if before.contains(rows.last().recipient) {
            before
        } else {
            before.push(rows.last().recipient)
        }
    }
}

/// Sum of the amounts of the rows that credit `user`, in tokens (`token`)
/// or in cash.
pub open spec fn bonus_of(rows: Seq<CommissionRow>, user: i64, token: bool) -> nat
    decreases rows.len(),
{
    if rows.len() == 0 {
        0
    } else {
        bonus_of(rows.drop_last(), user, token) + if rows.last().recipient == user
            && rows.last().kind.is_token() == token {
            rows.last().amount as nat
        } else {
            0
        }
    }
}

/// `r` lists each participant's earnings, in the order of `participants`.
pub open spec fn earnings_match(
    r: Seq<DailyUserRebate>,
    traders: Seq<TraderSettlement>,
    rows: Seq<CommissionRow>,
) -> bool {
    let users = participants(trader_ids(traders), rows);
    &&& r.len() == users.len()
    &&& forall|j: int|
        0 <= j < r.len() ==> {
            let e = #[trigger] r[j];
            &&& e.user_id == users[j]
            &&& e.ntx_bonus_earned == bonus_of(rows, e.user_id, true)
            &&& e.usdt_bonus_earned == bonus_of(rows, e.user_id, false)
            &&& j < traders.len() ==> {
                &&& e.ntx_rebate == traders[j].ntx_rebate
                &&& e.usdt_rebate == traders[j].usdt_rebate
                &&& e.total_fees_incurred == traders[j].total_fee
            }
            &&& j >= traders.len() ==> {
                &&& e.ntx_rebate == 0
                &&& e.usdt_rebate == 0
                &&& e.total_fees_incurred == 0
            }
        }
}

proof fn lemma_participants_distinct(known: Seq<i64>, rows: Seq<CommissionRow>)
    requires
        known.no_duplicates(),
    ensures
        participants(known, rows).no_duplicates(),
        participants(known, rows).len() >= known.len(),
        forall|j: int|
            0 <= j < known.len() ==> #[trigger] participants(known, rows)[j] == known[j],
    decreases rows.len(),
{
    if rows.len() > 0 {
        let before = participants(known, rows.drop_last());
        lemma_participants_distinct(known, rows.drop_last());
        if !before.contains(rows.last().recipient) {
            let after = before.push(rows.last().recipient);
            assert forall|a: int, b: int|
                0 <= a < after.len() && 0 <= b < after.len() && a != b implies after[a]
                != after[b] by {
                if a == before.len() {
                    assert(before[b] == after[b]);
                } else if b == before.len() {
                    assert(before[a] == after[a]);
                }
            }
            assert forall|j: int| 0 <= j < known.len() implies #[trigger] after[j] == known[j] by {
                assert(after[j] == before[j]);
            }
        }
    }
}

/// Lists every user's earnings for the day: first the traders, in order,
/// then each further recipient of a commission row, in the order of the
/// rows. Token and cash bonuses are the sums of the rows that credit the
/// user.
pub fn user_earnings(traders: &Vec<TraderSettlement>, rows: &Vec<CommissionRow>) -> (r: Vec<
    DailyUserRebate,
>)
    requires
        trader_ids(traders@).no_duplicates(),
    ensures
        earnings_match(r@, traders@, rows@),
{
    let mut r: Vec<DailyUserRebate> = Vec::new();
    let mut i: usize = 0;
    while i < traders.len()
        invariant
            i <= traders.len(),
            r@.len() == i,
            forall|j: int|
                0 <= j < i ==> {
                    let e = #[trigger] r@[j];
                    &&& e.user_id == traders@[j].user_id
                    &&& e.ntx_rebate == traders@[j].ntx_rebate
                    &&& e.usdt_rebate == traders@[j].usdt_rebate
                    &&& e.total_fees_incurred == traders@[j].total_fee
                    &&& e.ntx_bonus_earned == 0
                    &&& e.usdt_bonus_earned == 0
                },
        decreases traders.len() - i,
    {
        let s = traders[i];
        r.push(
            DailyUserRebate {
                user_id: s.user_id,
                ntx_rebate: s.ntx_rebate,
                usdt_rebate: s.usdt_rebate,
                ntx_bonus_earned: 0,
                usdt_bonus_earned: 0,
                total_fees_incurred: s.total_fee,
            },
        );
        i = i + 1;
    }
    let ghost ids = trader_ids(traders@);
    assert(participants(ids, rows@.take(0)) == ids) by {
        assert(rows@.take(0).len() == 0);
    }
    let mut k: usize = 0;
    while k < rows.len()
        invariant
            k <= rows.len(),
            ids == trader_ids(traders@),
            ids.no_duplicates(),
            earnings_match(r@, traders@, rows@.take(k as int)),
            forall|j: int|
                0 <= j < r@.len() ==> (#[trigger] r@[j]).ntx_bonus_earned <= k
                    * 0xffff_ffff_ffff_ffffu128 && r@[j].usdt_bonus_earned <= k
                    * 0xffff_ffff_ffff_ffffu128,
        decreases rows.len() - k,
    {
        let row = rows[k];
        let ghost before = rows@.take(k as int);
        let ghost after = rows@.take(k + 1);
        proof {
            assert(after =~= before.push(row));
            assert(after.drop_last() =~= before);
            lemma_participants_distinct(ids, before);
        }
        let mut j: usize = 0;
        while j < r.len() && r[j].user_id != row.recipient
            invariant
                j <= r@.len(),
                forall|m: int| 0 <= m < j ==> r@[m].user_id != row.recipient,
            decreases r.len() - j,
        {
            j = j + 1;
        }
        let ghost old_r = r@;
        let token = row.kind.pays_tokens();
        if j < r.len() {
            let e = r[j];
            let updated = if token {
                DailyUserRebate { ntx_bonus_earned: e.ntx_bonus_earned + row.amount as u128, ..e }
            } else {
                DailyUserRebate { usdt_bonus_earned: e.usdt_bonus_earned + row.amount as u128, ..e }
            };
            r.set(j, updated);
            assert(participants(ids, before).contains(row.recipient)) by {
                assert(participants(ids, before)[j as int] == row.recipient);
            }
            assert forall|m: int| 0 <= m < r@.len() && m != j implies r@[m].user_id
                != row.recipient by {
                assert(old_r[m].user_id == participants(ids, before)[m]);
            }
        } else {
            assert(!participants(ids, before).contains(row.recipient)) by {
                if participants(ids, before).contains(row.recipient) {
                    let m = choose|m: int|
                        0 <= m < participants(ids, before).len() && participants(ids, before)[m]
                            == row.recipient;
                    assert(old_r[m].user_id == row.recipient);
                }
            }
            proof {
                lemma_bonus_zero_when_absent(ids, before, row.recipient);
            }
            r.push(
                DailyUserRebate {
                    user_id: row.recipient,
                    ntx_rebate: 0,
                    usdt_rebate: 0,
                    ntx_bonus_earned: if token {
                        row.amount as u128
                    } else {
                        0
                    },
                    usdt_bonus_earned: if token {
                        0
                    } else {
                        row.amount as u128
                    },
                    total_fees_incurred: 0,
                },
            );
            proof {
                lemma_participants_distinct(ids, before);
            }
        }
        assert forall|m: int| 0 <= m < r@.len() implies {
            let e = #[trigger] r@[m];
            &&& e.user_id == participants(ids, after)[m]
            &&& e.ntx_bonus_earned == bonus_of(after, e.user_id, true)
            &&& e.usdt_bonus_earned == bonus_of(after, e.user_id, false)
            &&& m < traders@.len() ==> {
                &&& e.ntx_rebate == traders@[m].ntx_rebate
                &&& e.usdt_rebate == traders@[m].usdt_rebate
                &&& e.total_fees_incurred == traders@[m].total_fee
            }
            &&& m >= traders@.len() ==> {
                &&& e.ntx_rebate == 0
                &&& e.usdt_rebate == 0
                &&& e.total_fees_incurred == 0
            }
            &&& e.ntx_bonus_earned <= (k + 1) * 0xffff_ffff_ffff_ffffu128
            &&& e.usdt_bonus_earned <= (k + 1) * 0xffff_ffff_ffff_ffffu128
        } by {
            let u = r@[m].user_id;
            assert(bonus_of(after, u, true) == bonus_of(before, u, true) + if row.recipient == u
                && row.kind.is_token() {
                row.amount as nat
            } else {
                0
            });
            assert(bonus_of(after, u, false) == bonus_of(before, u, false) + if row.recipient
                == u && !row.kind.is_token() {
                row.amount as nat
            } else {
                0
            });
            if m < old_r.len() {
                assert(old_r[m].user_id == participants(ids, before)[m]);
            }
        }
        k = k + 1;
    }
    assert(rows@.take(rows.len() as int) =~= rows@);
    r
}

proof fn lemma_bonus_zero_when_absent(known: Seq<i64>, rows: Seq<CommissionRow>, user: i64)
    requires
        !participants(known, rows).contains(user),
    ensures
        bonus_of(rows, user, true) == 0,
        bonus_of(rows, user, false) == 0,
    decreases rows.len(),
{
    if rows.len() > 0 {
        let before = participants(known, rows.drop_last());
        lemma_push_contains(before, rows.last().recipient, user);
        lemma_bonus_zero_when_absent(known, rows.drop_last(), user);
    }
}

} // verus!
