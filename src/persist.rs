//! Taking the market apart for storage, and putting it back together only
//! when the parts satisfy the invariant.
use crate::bets::{keys_unique, lemma_side_total_prefix, rounds_ordered, same_key, side_total};
use crate::state::{bets_ok, pool_fits, rounds_ok, LedgerView};
use crate::types::{BetInfo, Config, Direction, FinishedRound, LiveRound, NextRound};
use vstd::prelude::*;

verus! {

/// Every field of the market, as stored between calls.
pub struct LedgerParts {
    pub config: Config,
    pub is_haulted: bool,
    pub next_round_id: u128,
    pub next_round: Option<NextRound>,
    pub live_round: Option<LiveRound>,
    pub rounds: Vec<FinishedRound>,
    pub bets: Vec<BetInfo>,
    pub accumulated_fee: u128,
}

impl View for LedgerParts {
    type V = LedgerView;

    open spec fn view(&self) -> LedgerView {
        LedgerView {
            config: self.config,
            is_haulted: self.is_haulted,
            next_round_id: self.next_round_id,
            next_round: self.next_round,
            live_round: self.live_round,
            rounds: self.rounds@,
            bets: self.bets@,
            accumulated_fee: self.accumulated_fee,
        }
    }
}

/// The stake recorded on side `d` of round `r`, when it is at most `bound`.
pub fn side_total_upto(bets: &Vec<BetInfo>, r: u128, d: Direction, bound: u128) -> (res: Option<u128>)
    ensures
        res matches Some(v) ==> v == side_total(bets@, r, d),
        res is Some <==> side_total(bets@, r, d) <= bound,
{
    let mut total: u128 = 0;
    let mut i: usize = 0;
    proof {
        assert(bets@.take(0) =~= Seq::<BetInfo>::empty());
    }
    while i < bets.len()
        invariant
            i <= bets@.len(),
            total == side_total(bets@.take(i as int), r, d),
            total <= bound,
        decreases bets@.len() - i,
    {
        proof {
            assert(bets@.take(i + 1).drop_last() =~= bets@.take(i as int));
            assert(bets@.take(i + 1).last() == bets@[i as int]);
        }
        let b = &bets[i];
        if b.round_id == r && b.direction == d {
            if b.amount > bound - total {
                proof {
                    lemma_side_total_prefix(bets@, r, d, i + 1);
                }
                return None;
            }
            total = total + b.amount;
        }
        i += 1;
    }
    proof {
        assert(bets@.take(bets@.len() as int) =~= bets@);
    }
    Some(total)
}

/// The bets are recorded in the order of their rounds.
pub fn check_rounds_ordered(bets: &Vec<BetInfo>) -> (res: bool)
    ensures
        res == rounds_ordered(bets@),
{
    let n = bets.len();
    let mut j: usize = 1;
    while j < n
        invariant
            n == bets@.len(),
            1 <= j,
            forall|a: int, b: int|
                0 <= a < b < j && b < n ==> #[trigger] bets@[a].round_id <= #[trigger] bets@[b].round_id,
        decreases n - j,
    {
        if bets[j - 1].round_id > bets[j].round_id {
            assert(!(bets@[j - 1].round_id <= bets@[j as int].round_id));
            return false;
        }
        assert forall|a: int, b: int| 0 <= a < b < j + 1 && b < n implies #[trigger] bets@[a].round_id
            <= #[trigger] bets@[b].round_id by {
            if b == j && a < j - 1 {
                assert(bets@[a].round_id <= bets@[j - 1].round_id);
            }
        }
        j += 1;
    }
    true
}

/// No player has two bets on one round.
pub fn check_keys_unique(bets: &Vec<BetInfo>) -> (res: bool)
    ensures
        res == keys_unique(bets@),
{
    let n = bets.len();
    let mut j: usize = 0;
    while j < n
        invariant
            n == bets@.len(),
            j <= n,
            forall|a: int, b: int| 0 <= a < b < j ==> !same_key(#[trigger] bets@[a], #[trigger] bets@[b]),
        decreases n - j,
    {
        let mut i: usize = 0;
        while i < j
            invariant
                n == bets@.len(),
                i <= j < n,
                forall|a: int| 0 <= a < i ==> !same_key(#[trigger] bets@[a], bets@[j as int]),
            decreases j - i,
        {
            if bets[i].round_id == bets[j].round_id && bets[i].player == bets[j].player {
                assert(same_key(bets@[i as int], bets@[j as int]));
                return false;
            }
            i += 1;
        }
        j += 1;
    }
    true
}

/// The rounds part of the invariant.
pub fn check_rounds(parts: &LedgerParts) -> (res: bool)
    ensures
        res == rounds_ok(parts.rounds@, parts.live_round, parts.next_round, parts.next_round_id),
{
    let rounds = &parts.rounds;
    let k = rounds.len();
    let mut i: usize = 0;
    while i < k
        invariant
            rounds@ == parts.rounds@,
            k == rounds@.len(),
            i <= k,
            forall|m: int|
                #![trigger rounds@[m]]
                0 <= m < i ==> {
                    &&& rounds@[m].id == m
                    &&& rounds@[m].open_time <= rounds@[m].close_time
                    &&& pool_fits(rounds@[m].bull_amount, rounds@[m].bear_amount)
                },
            forall|m: int| 0 <= m < i - 1 ==> #[trigger] rounds@[m].close_time <= rounds@[m + 1].open_time,
        decreases k - i,
    {
        let r = &rounds[i];
        if r.id != i as u128 || r.open_time > r.close_time || r.bull_amount > u128::MAX - r.bear_amount {
            proof {
                if rounds_ok(parts.rounds@, parts.live_round, parts.next_round, parts.next_round_id) {
                    assert(rounds@[i as int].id == i);
                }
            }
            return false;
        }
        if i > 0 && rounds[i - 1].close_time > r.open_time {
            proof {
                if rounds_ok(parts.rounds@, parts.live_round, parts.next_round, parts.next_round_id) {
                    let m = i - 1;
                    assert(rounds@[m].close_time <= rounds@[m + 1].open_time);
                }
            }
            return false;
        }
        assert(rounds@[i as int].id == i && pool_fits(r.bull_amount, r.bear_amount));
        i += 1;
    }
    let id = parts.next_round_id;
    let last_close: Option<u64> = if k > 0 {
        Some(rounds[k - 1].close_time)
    } else {
        None
    };
    match (parts.live_round, parts.next_round) {
        (None, None) => k == 0 && id == 0,
        (None, Some(n)) => {
            &&& n.id == k as u128
            &&& id == n.id + 1
            &&& match last_close {
                Some(c) => c <= n.open_time,
                None => true,
            }
            &&& n.bull_amount <= u128::MAX - n.bear_amount
        },
        (Some(l), Some(n)) => {
            &&& l.id == k as u128
            &&& n.id == l.id + 1
            &&& id == n.id + 1
            &&& l.open_time <= l.close_time
            &&& n.open_time == l.close_time
            &&& match last_close {
                Some(c) => c <= l.open_time,
                None => true,
            }
            &&& l.bull_amount <= u128::MAX - l.bear_amount
            &&& n.bull_amount <= u128::MAX - n.bear_amount
        },
        (Some(_), None) => false,
    }
}

/// The bets part of the invariant; the rounds part must hold already.
pub fn check_bets(parts: &LedgerParts) -> (res: bool)
    requires
        rounds_ok(parts.rounds@, parts.live_round, parts.next_round, parts.next_round_id),
    ensures
        res == bets_ok(
            parts.bets@,
            parts.rounds@,
            parts.live_round,
            parts.next_round,
            parts.next_round_id,
        ),
{
    let bets = &parts.bets;
    let mut j: usize = 0;
    while j < bets.len()
        invariant
            bets@ == parts.bets@,
            j <= bets@.len(),
            forall|m: int| 0 <= m < j ==> #[trigger] bets@[m].round_id < parts.next_round_id,
        decreases bets@.len() - j,
    {
        if bets[j].round_id >= parts.next_round_id {
            proof {
                if bets_ok(parts.bets@, parts.rounds@, parts.live_round, parts.next_round, parts.next_round_id) {
                    assert(bets@[j as int].round_id < parts.next_round_id);
                }
            }
            return false;
        }
        j += 1;
    }
    if !check_rounds_ordered(bets) {
        return false;
    }
    if !check_keys_unique(bets) {
        return false;
    }
    let rounds = &parts.rounds;
    let k = rounds.len();
    let mut i: usize = 0;
    while i < k
        invariant
            rounds@ == parts.rounds@,
            bets@ == parts.bets@,
            k == rounds@.len(),
            i <= k,
            forall|m: int|
                0 <= m < i ==> {
                    &&& side_total(bets@, m as u128, Direction::Bull) <= #[trigger] rounds@[m].bull_amount
                    &&& side_total(bets@, m as u128, Direction::Bear) <= rounds@[m].bear_amount
                },
        decreases k - i,
    {
        let r = &rounds[i];
        if side_total_upto(bets, i as u128, Direction::Bull, r.bull_amount).is_none()
            || side_total_upto(bets, i as u128, Direction::Bear, r.bear_amount).is_none() {
            proof {
                if bets_ok(parts.bets@, parts.rounds@, parts.live_round, parts.next_round, parts.next_round_id) {
                    assert(side_total(bets@, i as u128, Direction::Bull) <= rounds@[i as int].bull_amount);
                }
            }
            return false;
        }
        i += 1;
    }
    if let Some(l) = parts.live_round {
        if side_total_upto(bets, l.id, Direction::Bull, l.bull_amount) != Some(l.bull_amount)
            || side_total_upto(bets, l.id, Direction::Bear, l.bear_amount) != Some(l.bear_amount) {
            return false;
        }
    }
    if let Some(n) = parts.next_round {
        if side_total_upto(bets, n.id, Direction::Bull, n.bull_amount) != Some(n.bull_amount)
            || side_total_upto(bets, n.id, Direction::Bear, n.bear_amount) != Some(n.bear_amount) {
            return false;
        }
    }
    true
}

} // verus!
