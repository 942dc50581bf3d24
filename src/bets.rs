//! Sums and filters over the sequence of recorded bets, with their lemmas.
use crate::settlement::{lemma_share_within_pool, payout, pool_of, side_amount};
use crate::types::{BetInfo, Direction, FinishedRound};
use vstd::prelude::*;

verus! {

/// The total net stake recorded on side `d` of round `round_id`.
pub open spec fn side_total(bets: Seq<BetInfo>, round_id: u128, d: Direction) -> int
    decreases bets.len(),
{
    if bets.len() == 0 {
        0
    } else {
        let b = bets.last();
        side_total(bets.drop_last(), round_id, d) + if b.round_id == round_id && b.direction == d {
            b.amount as int
        } else {
            0
        }
    }
}

/// Two bets with the same round and the same player.
pub open spec fn same_key(a: BetInfo, b: BetInfo) -> bool {
    a.round_id == b.round_id && a.player@ == b.player@
}

/// No player has two bets on one round.
pub open spec fn keys_unique(bets: Seq<BetInfo>) -> bool {
    forall|i: int, j: int| 0 <= i < j < bets.len() ==> !same_key(#[trigger] bets[i], #[trigger] bets[j])
}

/// Some bet of `player` on round `round_id` is recorded.
pub open spec fn has_bet(bets: Seq<BetInfo>, round_id: u128, player: Seq<char>) -> bool {
    exists|j: int| 0 <= j < bets.len() && #[trigger] bets[j].round_id == round_id && bets[j].player@ == player
}

/// The net stake of `player` on side `d` of round `round_id`.
pub open spec fn stake_on(bets: Seq<BetInfo>, round_id: u128, player: Seq<char>, d: Direction) -> int {
    if has_bet(bets, round_id, player) {
        let j = choose|j: int|
            0 <= j < bets.len() && #[trigger] bets[j].round_id == round_id && bets[j].player@ == player;
        if bets[j].direction == d {
            bets[j].amount as int
        } else {
            0
        }
    } else {
        0
    }
}

/// A bet of `player` on one of the first `finished` rounds, which are settled.
pub open spec fn is_claimable(b: BetInfo, player: Seq<char>, finished: nat) -> bool {
    b.player@ == player && b.round_id < finished
}

/// The bets left once `player` has collected from the settled rounds.
pub open spec fn unclaimed(bets: Seq<BetInfo>, player: Seq<char>, finished: nat) -> Seq<BetInfo>
    decreases bets.len(),
{
    if bets.len() == 0 {
        bets
    } else {
        let rest = unclaimed(bets.drop_last(), player, finished);
        if is_claimable(bets.last(), player, finished) {
            rest
        } else {
            rest.push(bets.last())
        }
    }
}

/// What `player` is owed over all settled rounds, `rounds[i]` being round `i`.
pub open spec fn claim_total(bets: Seq<BetInfo>, rounds: Seq<FinishedRound>, player: Seq<char>) -> int
    decreases bets.len(),
{
    if bets.len() == 0 {
        0
    } else {
        let b = bets.last();
        claim_total(bets.drop_last(), rounds, player) + if is_claimable(b, player, rounds.len()) {
            payout(rounds[b.round_id as int], b)
        } else {
            0
        }
    }
}

/// What all the bets recorded on `round` are paid together.
pub open spec fn round_payout_total(bets: Seq<BetInfo>, round: FinishedRound) -> int
    decreases bets.len(),
{
    if bets.len() == 0 {
        0
    } else {
        let b = bets.last();
        round_payout_total(bets.drop_last(), round) + if b.round_id == round.id {
            payout(round, b)
        } else {
            0
        }
    }
}

/// The bets of `player`, in the order recorded, on rounds after `start_after`.
pub open spec fn history(bets: Seq<BetInfo>, player: Seq<char>, start_after: Option<u128>) -> Seq<
    BetInfo,
>
    decreases bets.len(),
{
    if bets.len() == 0 {
        bets
    } else {
        let rest = history(bets.drop_last(), player, start_after);
        let b = bets.last();
        if b.player@ == player && (start_after is None || b.round_id > start_after->0) {
            rest.push(b)
        } else {
            rest
        }
    }
}

pub proof fn lemma_side_total_push(bets: Seq<BetInfo>, b: BetInfo)
    ensures
        forall|r: u128, d: Direction|
            #[trigger] side_total(bets.push(b), r, d) == side_total(bets, r, d) + if b.round_id == r
                && b.direction == d {
                b.amount as int
            } else {
                0
            },
{
    assert(bets.push(b).drop_last() =~= bets);
}

pub proof fn lemma_side_total_nonneg(bets: Seq<BetInfo>, r: u128, d: Direction)
    ensures
        side_total(bets, r, d) >= 0,
    decreases bets.len(),
{
    if bets.len() > 0 {
        lemma_side_total_nonneg(bets.drop_last(), r, d);
    }
}

/// A round that no recorded bet names has nothing staked on it.
pub proof fn lemma_side_total_absent(bets: Seq<BetInfo>, r: u128, d: Direction)
    requires
        forall|j: int| 0 <= j < bets.len() ==> #[trigger] bets[j].round_id != r,
    ensures
        side_total(bets, r, d) == 0,
    decreases bets.len(),
{
    if bets.len() > 0 {
        let s = bets.drop_last();
        assert forall|j: int| 0 <= j < s.len() implies #[trigger] s[j].round_id != r by {
            assert(s[j] == bets[j]);
        }
        lemma_side_total_absent(s, r, d);
    }
}

/// One stake is part of its side's total.
pub proof fn lemma_amount_within_side_total(bets: Seq<BetInfo>, j: int)
    requires
        0 <= j < bets.len(),
    ensures
        bets[j].amount <= side_total(bets, bets[j].round_id, bets[j].direction),
    decreases bets.len(),
{
    let s = bets.drop_last();
    if j == bets.len() - 1 {
        lemma_side_total_nonneg(s, bets[j].round_id, bets[j].direction);
    } else {
        assert(s[j] == bets[j]);
        lemma_amount_within_side_total(s, j);
    }
}

/// Every bet left after a collection was recorded before it.
pub proof fn lemma_unclaimed_from(bets: Seq<BetInfo>, player: Seq<char>, finished: nat)
    ensures
        forall|i: int|
            0 <= i < unclaimed(bets, player, finished).len() ==> bets.contains(
                #[trigger] unclaimed(bets, player, finished)[i],
            ),
        forall|i: int|
            0 <= i < unclaimed(bets, player, finished).len() ==> !is_claimable(
                #[trigger] unclaimed(bets, player, finished)[i],
                player,
                finished,
            ),
    decreases bets.len(),
{
    if bets.len() > 0 {
        let s = bets.drop_last();
        lemma_unclaimed_from(s, player, finished);
        let u = unclaimed(bets, player, finished);
        let us = unclaimed(s, player, finished);
        assert forall|i: int| 0 <= i < u.len() implies bets.contains(#[trigger] u[i]) by {
            if i < us.len() {
                assert(u[i] == us[i]);
                let k = choose|k: int| 0 <= k < s.len() && s[k] == us[i];
                assert(bets[k] == s[k]);
            } else {
                assert(u[i] == bets[bets.len() - 1]);
            }
        }
        assert forall|i: int| 0 <= i < u.len() implies !is_claimable(
            #[trigger] u[i],
            player,
            finished,
        ) by {
            if i < us.len() {
                assert(u[i] == us[i]);
            }
        }
    }
}

/// A collection keeps the stakes on unsettled rounds and never adds any.
pub proof fn lemma_unclaimed_side_total(
    bets: Seq<BetInfo>,
    player: Seq<char>,
    finished: nat,
    r: u128,
    d: Direction,
)
    ensures
        side_total(unclaimed(bets, player, finished), r, d) <= side_total(bets, r, d),
        r >= finished ==> side_total(unclaimed(bets, player, finished), r, d) == side_total(
            bets,
            r,
            d,
        ),
    decreases bets.len(),
{
    if bets.len() > 0 {
        let s = bets.drop_last();
        lemma_unclaimed_side_total(s, player, finished, r, d);
        lemma_side_total_push(unclaimed(s, player, finished), bets.last());
    }
}

/// A collection keeps the keys of the bets unique.
pub proof fn lemma_unclaimed_unique(bets: Seq<BetInfo>, player: Seq<char>, finished: nat)
    requires
        keys_unique(bets),
    ensures
        keys_unique(unclaimed(bets, player, finished)),
    decreases bets.len(),
{
    if bets.len() > 0 {
        let s = bets.drop_last();
        assert(keys_unique(s)) by {
            assert forall|i: int, j: int| 0 <= i < j < s.len() implies !same_key(
                #[trigger] s[i],
                #[trigger] s[j],
            ) by {
                assert(s[i] == bets[i] && s[j] == bets[j]);
            }
        }
        lemma_unclaimed_unique(s, player, finished);
        lemma_unclaimed_from(s, player, finished);
        let us = unclaimed(s, player, finished);
        let x = bets.last();
        if !is_claimable(x, player, finished) {
            let u = us.push(x);
            assert forall|i: int, j: int| 0 <= i < j < u.len() implies !same_key(
                #[trigger] u[i],
                #[trigger] u[j],
            ) by {
                if j == u.len() - 1 {
                    assert(u[i] == us[i]);
                    assert(s.contains(us[i]));
                    let k = choose|k: int| 0 <= k < s.len() && s[k] == us[i];
                    assert(bets[k] == s[k]);
                    assert(!same_key(bets[k], bets[bets.len() - 1]));
                } else {
                    assert(u[i] == us[i] && u[j] == us[j]);
                }
            }
        }
    }
}

/// Payouts are never negative.
pub proof fn lemma_payout_nonneg(round: FinishedRound, b: BetInfo)
    ensures
        payout(round, b) >= 0,
{
    if round.bull_amount != 0 && round.bear_amount != 0 {
        if let Some(w) = round.winner {
            if w == b.direction {
                lemma_share_within_pool(
                    pool_of(round),
                    0,
                    side_amount(round, w) as int,
                );
                assert(pool_of(round) * b.amount >= 0) by (nonlinear_arith)
                    requires
                        pool_of(round) >= 0,
                ;
                vstd::arithmetic::div_mod::lemma_div_is_ordered(
                    0,
                    pool_of(round) * b.amount,
                    side_amount(round, w) as int,
                );
            }
        }
    }
}

/// The amount owed grows with the bets looked at.
pub proof fn lemma_claim_total_prefix(
    bets: Seq<BetInfo>,
    rounds: Seq<FinishedRound>,
    player: Seq<char>,
    i: int,
)
    requires
        0 <= i <= bets.len(),
    ensures
        0 <= claim_total(bets.take(i), rounds, player) <= claim_total(bets, rounds, player),
    decreases bets.len(),
{
    if bets.len() > 0 {
        let s = bets.drop_last();
        let b = bets.last();
        if is_claimable(b, player, rounds.len()) {
            lemma_payout_nonneg(rounds[b.round_id as int], b);
        }
        if i == bets.len() {
            assert(bets.take(i) =~= bets);
            lemma_claim_total_prefix(s, rounds, player, s.len() as int);
            assert(s.take(s.len() as int) =~= s);
        } else {
            assert(bets.take(i) =~= s.take(i));
            lemma_claim_total_prefix(s, rounds, player, i);
        }
    } else {
        assert(bets.take(i) =~= bets);
    }
}

/// Once collected, nothing more is owed on the settled rounds.
pub proof fn lemma_unclaimed_owes_nothing(
    bets: Seq<BetInfo>,
    rounds: Seq<FinishedRound>,
    player: Seq<char>,
)
    ensures
        claim_total(unclaimed(bets, player, rounds.len()), rounds, player) == 0,
    decreases bets.len(),
{
    if bets.len() > 0 {
        let s = bets.drop_last();
        lemma_unclaimed_owes_nothing(s, rounds, player);
        let us = unclaimed(s, player, rounds.len());
        if !is_claimable(bets.last(), player, rounds.len()) {
            assert(us.push(bets.last()).drop_last() =~= us);
        }
    }
}

/// The bets of a player on a prefix of the record come first in the history.
pub proof fn lemma_history_prefix(
    bets: Seq<BetInfo>,
    player: Seq<char>,
    start_after: Option<u128>,
    i: int,
)
    requires
        0 <= i <= bets.len(),
    ensures
        history(bets.take(i), player, start_after).len() <= history(bets, player, start_after).len(),
        history(bets.take(i), player, start_after) =~= history(bets, player, start_after).take(
            history(bets.take(i), player, start_after).len() as int,
        ),
    decreases bets.len(),
{
    if i == bets.len() {
        assert(bets.take(i) =~= bets);
    } else {
        let s = bets.drop_last();
        assert(bets.take(i) =~= s.take(i));
        lemma_history_prefix(s, player, start_after, i);
    }
}


/// The total on one side grows with the bets looked at.
pub proof fn lemma_side_total_prefix(bets: Seq<BetInfo>, r: u128, d: Direction, i: int)
    requires
        0 <= i <= bets.len(),
    ensures
        0 <= side_total(bets.take(i), r, d) <= side_total(bets, r, d),
    decreases bets.len(),
{
    lemma_side_total_nonneg(bets.take(i), r, d);
    if i == bets.len() {
        assert(bets.take(i) =~= bets);
    } else {
        let s = bets.drop_last();
        assert(bets.take(i) =~= s.take(i));
        lemma_side_total_prefix(s, r, d, i);
    }
}


/// The bets are recorded in the order of their rounds.
pub open spec fn rounds_ordered(bets: Seq<BetInfo>) -> bool {
    forall|i: int, j: int| 0 <= i < j < bets.len() ==> #[trigger] bets[i].round_id <= #[trigger] bets[j].round_id
}

/// A collection keeps the bets in the order of their rounds.
pub proof fn lemma_unclaimed_ordered(bets: Seq<BetInfo>, player: Seq<char>, finished: nat)
    requires
        rounds_ordered(bets),
    ensures
        rounds_ordered(unclaimed(bets, player, finished)),
    decreases bets.len(),
{
    if bets.len() > 0 {
        let s = bets.drop_last();
        assert(rounds_ordered(s)) by {
            assert forall|i: int, j: int| 0 <= i < j < s.len() implies #[trigger] s[i].round_id
                <= #[trigger] s[j].round_id by {
                assert(s[i] == bets[i] && s[j] == bets[j]);
            }
        }
        lemma_unclaimed_ordered(s, player, finished);
        lemma_unclaimed_from(s, player, finished);
        let us = unclaimed(s, player, finished);
        let x = bets.last();
        if !is_claimable(x, player, finished) {
            let u = us.push(x);
            assert forall|i: int, j: int| 0 <= i < j < u.len() implies #[trigger] u[i].round_id
                <= #[trigger] u[j].round_id by {
                assert(u[i] == us[i]);
                if j == u.len() - 1 {
                    assert(s.contains(us[i]));
                    let k = choose|k: int| 0 <= k < s.len() && s[k] == us[i];
                    assert(bets[k] == s[k]);
                    assert(bets[k].round_id <= bets[bets.len() - 1].round_id);
                } else {
                    assert(u[j] == us[j]);
                }
            }
        }
    }
}

/// The history holds bets of the player, each recorded before.
pub proof fn lemma_history_from(bets: Seq<BetInfo>, player: Seq<char>, start_after: Option<u128>)
    ensures
        forall|i: int|
            0 <= i < history(bets, player, start_after).len() ==> bets.contains(
                #[trigger] history(bets, player, start_after)[i],
            ) && history(bets, player, start_after)[i].player@ == player,
    decreases bets.len(),
{
    if bets.len() > 0 {
        let s = bets.drop_last();
        lemma_history_from(s, player, start_after);
        let h = history(bets, player, start_after);
        let hs = history(s, player, start_after);
        assert forall|i: int| 0 <= i < h.len() implies bets.contains(#[trigger] h[i]) && h[i].player@
            == player by {
            if i < hs.len() {
                assert(h[i] == hs[i]);
                let k = choose|k: int| 0 <= k < s.len() && s[k] == hs[i];
                assert(bets[k] == s[k]);
            } else {
                assert(h[i] == bets[bets.len() - 1]);
            }
        }
    }
}

/// With bets in round order and one bet per player and round, a player's
/// history goes strictly up in round id.
pub proof fn lemma_history_ascending(bets: Seq<BetInfo>, player: Seq<char>, start_after: Option<u128>)
    requires
        rounds_ordered(bets),
        keys_unique(bets),
    ensures
        forall|i: int, j: int|
            0 <= i < j < history(bets, player, start_after).len() ==> (#[trigger] history(
                bets,
                player,
                start_after,
            )[i]).round_id < (#[trigger] history(bets, player, start_after)[j]).round_id,
    decreases bets.len(),
{
    if bets.len() > 0 {
        let s = bets.drop_last();
        assert(rounds_ordered(s) && keys_unique(s)) by {
            assert forall|i: int, j: int| 0 <= i < j < s.len() implies #[trigger] s[i].round_id
                <= #[trigger] s[j].round_id && !same_key(s[i], s[j]) by {
                assert(s[i] == bets[i] && s[j] == bets[j]);
            }
        }
        lemma_history_ascending(s, player, start_after);
        lemma_history_from(s, player, start_after);
        let h = history(bets, player, start_after);
        let hs = history(s, player, start_after);
        let x = bets.last();
        assert forall|i: int, j: int| 0 <= i < j < h.len() implies (#[trigger] h[i]).round_id < (
        #[trigger] h[j]).round_id by {
            assert(h[i] == hs[i]);
            if j < hs.len() {
                assert(h[j] == hs[j]);
            } else {
                assert(h[j] == x);
                assert(s.contains(hs[i]));
                let k = choose|k: int| 0 <= k < s.len() && s[k] == hs[i];
                assert(bets[k] == s[k]);
                assert(bets[k].round_id <= bets[bets.len() - 1].round_id);
                assert(!same_key(bets[k], bets[bets.len() - 1]));
            }
        }
    }
}

} // verus!
