//! Walking a trader's referral chain upward and deciding who receives the
//! one-time bonuses.
use std::collections::{HashMap, HashSet};
use vstd::prelude::*;

verus! {

broadcast use vstd::std_specs::hash::group_hash_axioms;

/// GNTX, in micro-units, a user must hold to qualify as a broker.
pub const BROKER_MIN_GNTX: u64 = 1_000_000;

/// Invitees a user must have to qualify as a broker.
pub const BROKER_MIN_INVITEES: u64 = 100;

/// A user is a broker when flagged as one, or when holding at least one
/// GNTX and having at least one hundred invitees.
pub open spec fn qualifies_as_broker(flagged: bool, gntx_balance: nat, invitees: nat) -> bool {
    flagged || (gntx_balance >= BROKER_MIN_GNTX && invitees >= BROKER_MIN_INVITEES)
}

/// Whether a user with these figures is a broker; `gntx_balance` in
/// micro-units.
pub fn is_broker_by_status(flagged: bool, gntx_balance: u64, invitees: u64) -> (r: bool)
    ensures
        r == qualifies_as_broker(flagged, gntx_balance as nat, invitees as nat),
{
    flagged || (gntx_balance >= BROKER_MIN_GNTX && invitees >= BROKER_MIN_INVITEES)
}

/// The first `fuel` steps of the chain of inviters above `start`: element 0
/// is `start`'s inviter, element 1 that inviter's inviter, and so on. The
/// chain ends early where a user has no inviter.
pub open spec fn upline(referrals: Map<i64, i64>, start: i64, fuel: nat) -> Seq<i64>
    decreases fuel,
{
    if fuel == 0 {
        seq![]
    } else {
        let prefix = upline(referrals, start, (fuel - 1) as nat);
        let current = rung_of(start, prefix, prefix.len() as int);
        if prefix.len() == fuel - 1 && referrals.contains_key(current) {
            prefix.push(referrals[current])
        } else {
            prefix
        }
    }
}

/// The user standing on rung `i` of a chain: the trader on rung 0, and the
/// chain's element `i - 1` above that. Rung `i`'s inviter is `chain[i]`.
pub open spec fn rung_of(start: i64, chain: Seq<i64>, i: int) -> i64 {
    if i == 0 {
        start
    } else {
        chain[i - 1]
    }
}

/// The users on the rungs whose inviters are in `chain`.
pub open spec fn rungs(start: i64, chain: Seq<i64>) -> Seq<i64> {
    Seq::new(chain.len(), |i: int| rung_of(start, chain, i))
}

/// The chain the settlement walks: bounded by the number of referral edges,
/// which a chain without a cycle never exceeds.
pub open spec fn full_upline(referrals: Map<i64, i64>, start: i64) -> Seq<i64> {
    upline(referrals, start, referrals.dom().len())
}

/// Index of the first element of `s` that belongs to `m`.
pub open spec fn first_member(s: Seq<i64>, m: Set<i64>) -> Option<int>
    decreases s.len(),
{
    if s.len() == 0 {
        None
    } else {
        match first_member(s.drop_last(), m) {
            Some(i) => Some(i),
            None => if m.contains(s.last()) {
                Some(s.len() - 1)
            } else {
                None
            },
        }
    }
}

/// Who receives what when a trader's chain is walked.
#[derive(Clone, Copy, Debug, PartialEq, Eq)]
pub struct UplineAwards {
    /// The direct inviter, who receives the first-level bonus.
    pub direct: Option<i64>,
    /// The nearest ancestor with broker status, who receives the broker bonus.
    pub broker: Option<i64>,
    /// The inviter of the first rung whose user is a broker, who receives
    /// the platform bonus.
    pub platform: Option<i64>,
    /// The first active KOL met on the walk, with their contracted rate.
    pub kol: Option<(i64, u64)>,
}

/// How many elements of the chain the walk visits: all of them, unless both
/// the broker and the platform bonus have been claimed, where it stops.
pub open spec fn walked_len(start: i64, chain: Seq<i64>, brokers: Set<i64>) -> int {
    match (first_member(chain, brokers), first_member(rungs(start, chain), brokers)) {
        (Some(b), Some(p)) => if b < p {
            p + 1
        } else {
            b + 1
        },
        _ => chain.len() as int,
    }
}

pub open spec fn upline_awards_of(
    start: i64,
    chain: Seq<i64>,
    brokers: Set<i64>,
    kols: Map<i64, u64>,
) -> UplineAwards {
    let walked = chain.take(walked_len(start, chain, brokers));
    UplineAwards {
        direct: if chain.len() > 0 {
            Some(chain[0])
        } else {
            None
        },
        broker: match first_member(chain, brokers) {
            Some(i) => Some(chain[i]),
            None => None,
        },
        platform: match first_member(rungs(start, chain), brokers) {
            Some(i) => Some(chain[i]),
            None => None,
        },
        kol: match first_member(walked, kols.dom()) {
            Some(i) => Some((walked[i], kols[walked[i]])),
            None => None,
        },
    }
}

/// The awards of `trader`'s chain under the given referral edges, broker set
/// and active KOL rates.
pub open spec fn upline_awards(
    trader: i64,
    referrals: Map<i64, i64>,
    brokers: Set<i64>,
    kols: Map<i64, u64>,
) -> UplineAwards {
    upline_awards_of(trader, full_upline(referrals, trader), brokers, kols)
}

/// The KOL award, where there is one, names an active KOL with their rate.
pub proof fn lemma_kol_award_is_active(
    trader: i64,
    referrals: Map<i64, i64>,
    brokers: Set<i64>,
    kols: Map<i64, u64>,
)
    ensures
        match upline_awards(trader, referrals, brokers, kols).kol {
            Some((k, rate)) => kols.contains_key(k) && rate == kols[k],
            None => true,
        },
{
    let chain = full_upline(referrals, trader);
    lemma_first_member_bounds(chain.take(walked_len(trader, chain, brokers)), kols.dom());
}

/// The first-level award goes to the trader's inviter, where there is one.
pub proof fn lemma_direct_is_inviter(
    trader: i64,
    referrals: Map<i64, i64>,
    brokers: Set<i64>,
    kols: Map<i64, u64>,
)
    requires
        referrals.dom().finite(),
    ensures
        upline_awards(trader, referrals, brokers, kols).direct == if referrals.contains_key(
            trader,
        ) {
            Some(referrals[trader])
        } else {
            None
        },
{
    let fuel = referrals.dom().len();
    if referrals.contains_key(trader) {
        vstd::set_lib::lemma_set_empty_equivalency_len(referrals.dom());
        assert(referrals.dom().contains(trader));
        assert(fuel > 0);
        lemma_upline_prefix(referrals, trader, 1, fuel);
        let one = upline(referrals, trader, 1);
        assert(upline(referrals, trader, 0) == Seq::<i64>::empty());
        assert(rung_of(trader, upline(referrals, trader, 0), 0) == trader);
        assert(one =~= seq![referrals[trader]]);
        let chain = full_upline(referrals, trader);
        assert(chain.take(1)[0] == chain[0]);
    } else if fuel > 0 {
        assert(rung_of(trader, upline(referrals, trader, 0), 0) == trader);
        lemma_upline_ended(referrals, trader, 0, fuel);
    }
}

/// The broker bonus goes to the nearest ancestor with broker status: no
/// ancestor below the recipient is a broker, and where nobody on the chain
/// is a broker nobody receives it.
pub proof fn lemma_broker_award_nearest(
    trader: i64,
    referrals: Map<i64, i64>,
    brokers: Set<i64>,
    kols: Map<i64, u64>,
)
    ensures
        ({
            let chain = full_upline(referrals, trader);
            match upline_awards(trader, referrals, brokers, kols).broker {
                Some(b) => exists|i: int|
                    0 <= i < chain.len() && chain[i] == b && brokers.contains(b) && forall|j: int|
                        0 <= j < i ==> !brokers.contains(#[trigger] chain[j]),
                None => forall|j: int| 0 <= j < chain.len() ==> !brokers.contains(#[trigger] chain[j]),
            }
        }),
{
    let chain = full_upline(referrals, trader);
    lemma_first_member_bounds(chain, brokers);
}

/// The first two elements of a chain trader → inviter → next.
pub proof fn lemma_upline_two_steps(referrals: Map<i64, i64>, trader: i64)
    requires
        referrals.dom().finite(),
        referrals.contains_key(trader),
        referrals.contains_key(referrals[trader]),
        referrals[trader] != trader,
    ensures
        full_upline(referrals, trader).len() >= 2,
        full_upline(referrals, trader)[0] == referrals[trader],
        full_upline(referrals, trader)[1] == referrals[referrals[trader]],
{
    let a = referrals[trader];
    let dom = referrals.dom();
    let rest = dom.remove(trader);
    assert(rest.contains(a));
    vstd::set_lib::lemma_set_empty_equivalency_len(rest);
    assert(rest.len() >= 1);
    assert(dom.len() >= 2);
    assert(rung_of(trader, upline(referrals, trader, 0), 0) == trader);
    assert(upline(referrals, trader, 1) =~= seq![a]);
    assert(rung_of(trader, upline(referrals, trader, 1), 1) == a);
    assert(upline(referrals, trader, 2) =~= seq![a, referrals[a]]);
    lemma_upline_prefix(referrals, trader, 2, dom.len());
    let chain = full_upline(referrals, trader);
    assert(chain.take(2)[0] == chain[0]);
    assert(chain.take(2)[1] == chain[1]);
}

/// Where neither the trader nor anybody on the chain is a broker, and the
/// direct inviter is not an active KOL but the next ancestor is, the awards
/// are the first-level bonus to the inviter and the KOL top-up to that next
/// ancestor, and nothing else.
pub proof fn lemma_awards_without_brokers(
    trader: i64,
    referrals: Map<i64, i64>,
    brokers: Set<i64>,
    kols: Map<i64, u64>,
)
    requires
        referrals.dom().finite(),
        referrals.contains_key(trader),
        referrals.contains_key(referrals[trader]),
        !kols.contains_key(referrals[trader]),
        kols.contains_key(referrals[referrals[trader]]),
        !brokers.contains(trader),
        forall|j: int|
            0 <= j < full_upline(referrals, trader).len() ==> !brokers.contains(
                #[trigger] full_upline(referrals, trader)[j],
            ),
    ensures
        ({
            let k = referrals[referrals[trader]];
            upline_awards(trader, referrals, brokers, kols) == UplineAwards {
                direct: Some(referrals[trader]),
                broker: None,
                platform: None,
                kol: Some((k, kols[k])),
            }
        }),
{
    let chain = full_upline(referrals, trader);
    let a = referrals[trader];
    let k = referrals[a];
    lemma_upline_two_steps(referrals, trader);
    lemma_first_member_bounds(chain, brokers);
    let r = rungs(trader, chain);
    lemma_first_member_bounds(r, brokers);
    if let Some(i) = first_member(r, brokers) {
        assert(r[i] == rung_of(trader, chain, i));
    }
    assert(chain.take(walked_len(trader, chain, brokers)) =~= chain);
    assert(chain.take(1) =~= seq![a]);
    assert(chain.take(1).drop_last() =~= Seq::<i64>::empty());
    assert(first_member(chain.take(1).drop_last(), kols.dom()) is None);
    assert(chain.take(1).last() == a);
    assert(!kols.dom().contains(a));
    assert(first_member(chain.take(1), kols.dom()) is None);
    assert(chain.take(2) =~= chain.take(1).push(k));
    lemma_first_member_push(chain.take(1), k, kols.dom());
    lemma_first_member_prefix(chain, 2, kols.dom());
}

/// With three brokers above a trader who is not one, and no active KOL
/// among the first two, the nearest broker takes the first-level and the
/// broker bonus, the next one the platform bonus (the nearest broker's rung
/// being the first broker rung), and the walk stops there.
pub proof fn lemma_awards_three_brokers(
    trader: i64,
    referrals: Map<i64, i64>,
    brokers: Set<i64>,
    kols: Map<i64, u64>,
)
    requires
        referrals.dom().finite(),
        referrals.contains_key(trader),
        referrals.contains_key(referrals[trader]),
        referrals.contains_key(referrals[referrals[trader]]),
        !brokers.contains(trader),
        brokers.contains(referrals[trader]),
        brokers.contains(referrals[referrals[trader]]),
        brokers.contains(referrals[referrals[referrals[trader]]]),
        !kols.contains_key(referrals[trader]),
        !kols.contains_key(referrals[referrals[trader]]),
    ensures
        upline_awards(trader, referrals, brokers, kols) == (UplineAwards {
            direct: Some(referrals[trader]),
            broker: Some(referrals[trader]),
            platform: Some(referrals[referrals[trader]]),
            kol: None,
        }),
{
    let chain = full_upline(referrals, trader);
    let a1 = referrals[trader];
    let a2 = referrals[a1];
    lemma_upline_two_steps(referrals, trader);
    assert(chain.take(1) =~= Seq::<i64>::empty().push(a1));
    lemma_first_member_push(Seq::<i64>::empty(), a1, brokers);
    lemma_first_member_prefix(chain, 1, brokers);
    let r = rungs(trader, chain);
    lemma_rungs_prefix(trader, chain, 2);
    assert(rungs(trader, chain.take(2)) =~= Seq::<i64>::empty().push(trader).push(a1));
    lemma_first_member_push(Seq::<i64>::empty(), trader, brokers);
    lemma_first_member_push(Seq::<i64>::empty().push(trader), a1, brokers);
    lemma_first_member_prefix(r, 2, brokers);
    assert(walked_len(trader, chain, brokers) == 2);
    let walked = chain.take(2);
    lemma_first_member_bounds(walked, kols.dom());
    if let Some(i) = first_member(walked, kols.dom()) {
        assert(walked[i] == a1 || walked[i] == a2);
    }
}

proof fn lemma_first_member_push(s: Seq<i64>, x: i64, m: Set<i64>)
    ensures
        first_member(s.push(x), m) == match first_member(s, m) {
            Some(i) => Some(i),
            None => if m.contains(x) {
                Some(s.len() as int)
            } else {
                None
            },
        },
{
    assert(s.push(x).drop_last() =~= s);
}

proof fn lemma_first_member_bounds(s: Seq<i64>, m: Set<i64>)
    ensures
        match first_member(s, m) {
            Some(i) => 0 <= i < s.len() && m.contains(s[i]) && forall|j: int|
                0 <= j < i ==> !m.contains(#[trigger] s[j]),
            None => forall|j: int| 0 <= j < s.len() ==> !m.contains(#[trigger] s[j]),
        },
    decreases s.len(),
{
    if s.len() > 0 {
        lemma_first_member_bounds(s.drop_last(), m);
        assert(forall|j: int| 0 <= j < s.len() - 1 ==> s.drop_last()[j] == s[j]);
    }
}

/// A first member found in a prefix is the first member of the whole.
proof fn lemma_first_member_prefix(s: Seq<i64>, k: int, m: Set<i64>)
    requires
        0 <= k <= s.len(),
        first_member(s.take(k), m) is Some,
    ensures
        first_member(s, m) == first_member(s.take(k), m),
    decreases s.len() - k,
{
    if k < s.len() {
        lemma_first_member_push(s.take(k), s[k], m);
        assert(s.take(k + 1) =~= s.take(k).push(s[k]));
        lemma_first_member_prefix(s, k + 1, m);
    } else {
        assert(s.take(k) =~= s);
    }
}

proof fn lemma_upline_len(referrals: Map<i64, i64>, start: i64, fuel: nat)
    ensures
        upline(referrals, start, fuel).len() <= fuel,
    decreases fuel,
{
    if fuel > 0 {
        lemma_upline_len(referrals, start, (fuel - 1) as nat);
    }
}

/// Once the chain has ended, more fuel does not extend it.
proof fn lemma_upline_ended(referrals: Map<i64, i64>, start: i64, k: nat, fuel: nat)
    requires
        k <= fuel,
        upline(referrals, start, k).len() == k,
        !referrals.contains_key(rung_of(start, upline(referrals, start, k), k as int)),
    ensures
        upline(referrals, start, fuel) == upline(referrals, start, k),
    decreases fuel - k,
{
    if fuel > k {
        lemma_upline_ended(referrals, start, k, (fuel - 1) as nat);
        lemma_upline_len(referrals, start, (fuel - 1) as nat);
    }
}

/// A longer walk extends a shorter one.
proof fn lemma_upline_prefix(referrals: Map<i64, i64>, start: i64, k: nat, fuel: nat)
    requires
        k <= fuel,
    ensures
        upline(referrals, start, k).len() <= upline(referrals, start, fuel).len(),
        upline(referrals, start, fuel).take(upline(referrals, start, k).len() as int)
            == upline(referrals, start, k),
    decreases fuel - k,
{
    lemma_upline_len(referrals, start, k);
    if fuel > k {
        lemma_upline_prefix(referrals, start, k, (fuel - 1) as nat);
        let a = upline(referrals, start, k);
        let b = upline(referrals, start, (fuel - 1) as nat);
        let c = upline(referrals, start, fuel);
        assert(c.take(a.len() as int) =~= b.take(a.len() as int));
    } else {
        assert(upline(referrals, start, k).take(upline(referrals, start, k).len() as int)
            =~= upline(referrals, start, k));
    }
}

proof fn lemma_rungs_prefix(start: i64, chain: Seq<i64>, k: int)
    requires
        0 <= k <= chain.len(),
    ensures
        rungs(start, chain).take(k) == rungs(start, chain.take(k)),
{
    assert(rungs(start, chain).take(k) =~= rungs(start, chain.take(k)));
}

proof fn lemma_rungs_push(start: i64, chain: Seq<i64>, x: i64)
    ensures
        rungs(start, chain.push(x)) == rungs(start, chain).push(
            rung_of(start, chain, chain.len() as int),
        ),
{
    assert(rungs(start, chain.push(x)) =~= rungs(start, chain).push(
        rung_of(start, chain, chain.len() as int),
    ));
}

/// Walks `trader`'s referral chain and decides the recipients of the
/// first-level, broker, platform and KOL awards.
///
/// The walk takes at most one step per referral edge, so malformed cyclic
/// data cannot keep it going; on such data every award still goes to the
/// first user that qualifies, as each award is claimed at most once.
pub fn walk_upline(
    trader: i64,
    referrals: &HashMap<i64, i64>,
    brokers: &HashSet<i64>,
    kols: &HashMap<i64, u64>,
) -> (r: UplineAwards)
    ensures
        r == upline_awards(trader, referrals@, brokers@, kols@),
{
    let fuel = referrals.len();
    let ghost chain = full_upline(referrals@, trader);
    let ghost b = brokers@;
    let ghost kset = kols@.dom();
    let mut k: usize = 0;
    let mut current = trader;
    let mut direct: Option<i64> = None;
    let mut broker: Option<i64> = None;
    let mut platform: Option<i64> = None;
    let mut kol: Option<(i64, u64)> = None;
    let mut stopped = false;
    while k < fuel && !stopped
        invariant
            fuel == referrals@.dom().len(),
            chain == full_upline(referrals@, trader),
            b == brokers@,
            kset == kols@.dom(),
            k <= fuel,
            !stopped ==> ({
                let walked = upline(referrals@, trader, k as nat);
                &&& walked.len() == k
                &&& current == rung_of(trader, walked, k as int)
                &&& direct == (if k > 0 {
                    Some(walked[0])
                } else {
                    None
                })
                &&& broker == match first_member(walked, b) {
                    Some(i) => Some(walked[i]),
                    None => None,
                }
                &&& platform == match first_member(rungs(trader, walked), b) {
                    Some(i) => Some(walked[i]),
                    None => None,
                }
                &&& kol == match first_member(walked, kset) {
                    Some(i) => Some((walked[i], kols@[walked[i]])),
                    None => None,
                }
                &&& !(broker is Some && platform is Some)
            }),
            stopped ==> (UplineAwards { direct, broker, platform, kol }) == upline_awards(
                trader,
                referrals@,
                brokers@,
                kols@,
            ),
        decreases fuel - k + (if stopped { 0int } else { 1int }),
    {
        let ghost walked = upline(referrals@, trader, k as nat);
        match referrals.get(&current) {
            None => {
                proof {
                    lemma_upline_ended(referrals@, trader, k as nat, fuel as nat);
                    assert(chain.take(walked_len(trader, chain, b)) =~= chain);
                }
                stopped = true;
            },
            Some(inviter) => {
                let inviter = *inviter;
                let ghost next = upline(referrals@, trader, (k + 1) as nat);
                assert(next == walked.push(inviter));
                proof {
                    lemma_first_member_push(walked, inviter, b);
                    lemma_first_member_push(walked, inviter, kset);
                    lemma_rungs_push(trader, walked, inviter);
                    lemma_first_member_push(rungs(trader, walked), current, b);
                    lemma_first_member_bounds(walked, b);
                    lemma_first_member_bounds(rungs(trader, walked), b);
                    lemma_first_member_bounds(walked, kset);
                }
                if k == 0 {
                    direct = Some(inviter);
                }
                if broker.is_none() && brokers.contains(&inviter) {
                    broker = Some(inviter);
                }
                if platform.is_none() && brokers.contains(&current) {
                    platform = Some(inviter);
                }
                if kol.is_none() {
                    match kols.get(&inviter) {
                        Some(rate) => {
                            kol = Some((inviter, *rate));
                        },
                        None => {},
                    }
                }
                assert(next[k as int] == inviter);
                assert(k > 0 ==> next[0] == walked[0]);
                current = inviter;
                k = k + 1;
                if broker.is_some() && platform.is_some() {
                    proof {
                        lemma_upline_prefix(referrals@, trader, k as nat, fuel as nat);
                        assert(chain.take(k as int) == next);
                        lemma_first_member_prefix(chain, k as int, b);
                        lemma_rungs_prefix(trader, chain, k as int);
                        lemma_first_member_prefix(rungs(trader, chain), k as int, b);
                        lemma_first_member_bounds(next, b);
                        lemma_first_member_bounds(rungs(trader, next), b);
                        assert(walked_len(trader, chain, b) == k);
                    }
                    stopped = true;
                }
            },
        }
    }
    if !stopped {
        proof {
            assert(chain == upline(referrals@, trader, k as nat));
            assert(chain.take(walked_len(trader, chain, b)) =~= chain);
        }
    }
    UplineAwards { direct, broker, platform, kol }
}

} // verus!
