//! What holds of every reachable state of the market, and of settlement.
use crate::bets::{
    has_bet, lemma_payout_nonneg, lemma_side_total_absent, lemma_side_total_nonneg,
    lemma_side_total_push, lemma_unclaimed_from, lemma_unclaimed_ordered,
    lemma_unclaimed_owes_nothing, lemma_unclaimed_side_total, lemma_unclaimed_unique,
    round_payout_total, same_key, side_total,
};
use crate::settlement::{finish, payout, pool_of, side_amount};
use crate::state::LedgerView;
use crate::types::{BetInfo, Config, Direction, FinishedRound};
use vstd::prelude::*;

verus! {

/// A fresh market satisfies the invariant.
pub proof fn initial_is_wf(config: Config)
    ensures
        LedgerView::initial(config).wf(),
{
}

/// Taking a bet keeps the invariant.
pub proof fn bet_keeps_invariant(
    s: LedgerView,
    player: String,
    round_id: u128,
    direction: Direction,
    gross: u128,
    now: u64,
)
    requires
        s.wf(),
        s.bet_check(player@, round_id, direction, gross, now) is Ok,
    ensures
        s.with_bet(player, round_id, direction, gross).wf(),
{
    let t = s.with_bet(player, round_id, direction, gross);
    let b = t.bets.last();
    let n = s.next_round->0;
    assert(t.bets == s.bets.push(b));
    lemma_side_total_push(s.bets, b);
    assert forall|j: int| 0 <= j < t.bets.len() implies #[trigger] t.bets[j].round_id
        < t.next_round_id by {
        if j < s.bets.len() {
            assert(t.bets[j] == s.bets[j]);
        }
    }
    assert forall|i: int, j: int| 0 <= i < j < t.bets.len() implies !same_key(
        #[trigger] t.bets[i],
        #[trigger] t.bets[j],
    ) by {
        assert(t.bets[i] == s.bets[i]);
        if j < s.bets.len() {
            assert(t.bets[j] == s.bets[j]);
        } else {
            if same_key(s.bets[i], b) {
                assert(has_bet(s.bets, round_id, player@));
            }
        }
    }
    assert forall|i: int, j: int| 0 <= i < j < t.bets.len() implies #[trigger] t.bets[i].round_id
        <= #[trigger] t.bets[j].round_id by {
        assert(t.bets[i] == s.bets[i]);
        assert(s.bets[i].round_id < s.next_round_id);
        if j < s.bets.len() {
            assert(t.bets[j] == s.bets[j]);
        }
    }
    assert forall|i: int| 0 <= i < t.rounds.len() implies {
        &&& side_total(t.bets, i as u128, Direction::Bull) <= #[trigger] t.rounds[i].bull_amount
        &&& side_total(t.bets, i as u128, Direction::Bear) <= t.rounds[i].bear_amount
    } by {
        assert(side_total(t.bets, i as u128, Direction::Bull) == side_total(
            s.bets,
            i as u128,
            Direction::Bull,
        ));
        assert(side_total(t.bets, i as u128, Direction::Bear) == side_total(
            s.bets,
            i as u128,
            Direction::Bear,
        ));
    }
    assert(side_total(t.bets, n.id, Direction::Bull) == side_total(s.bets, n.id, Direction::Bull) + if direction
        == Direction::Bull {
        b.amount as int
    } else {
        0
    });
    assert(side_total(t.bets, n.id, Direction::Bear) == side_total(s.bets, n.id, Direction::Bear) + if direction
        == Direction::Bear {
        b.amount as int
    } else {
        0
    });
    if let Some(l) = s.live_round {
        assert(side_total(t.bets, l.id, Direction::Bull) == side_total(s.bets, l.id, Direction::Bull));
        assert(side_total(t.bets, l.id, Direction::Bear) == side_total(s.bets, l.id, Direction::Bear));
    }
    assert(t.rounds_wf());
    assert(t.bets_wf());
}

/// Settling a due live round keeps the invariant.
pub proof fn close_keeps_invariant(s: LedgerView, now: u64, price: u128)
    requires
        s.wf(),
    ensures
        s.after_close(now, price).wf(),
{
    if s.closes(now) {
        let t = s.after_close(now, price);
        let l = s.live_round->0;
        let k = s.rounds.len() as int;
        assert(t.rounds[k] == finish(l, price));
        assert forall|i: int| 0 <= i < t.rounds.len() implies {
            &&& #[trigger] t.rounds[i].id == i
            &&& t.rounds[i].open_time <= t.rounds[i].close_time
            &&& crate::state::pool_fits(t.rounds[i].bull_amount, t.rounds[i].bear_amount)
        } by {
            if i < k {
                assert(t.rounds[i] == s.rounds[i]);
            }
        }
        assert forall|i: int| 0 <= i < t.rounds.len() - 1 implies #[trigger] t.rounds[i].close_time
            <= t.rounds[i + 1].open_time by {
            assert(t.rounds[i] == s.rounds[i]);
            if i + 1 < k {
                assert(t.rounds[i + 1] == s.rounds[i + 1]);
            }
        }
        assert forall|i: int| 0 <= i < t.rounds.len() implies {
            &&& side_total(t.bets, i as u128, Direction::Bull) <= #[trigger] t.rounds[i].bull_amount
            &&& side_total(t.bets, i as u128, Direction::Bear) <= t.rounds[i].bear_amount
        } by {
            if i < k {
                assert(t.rounds[i] == s.rounds[i]);
            }
        }
    }
}

/// Opening a bidding round, and making the previous one live, keeps the
/// invariant.
pub proof fn open_keeps_invariant(s: LedgerView, now: u64, price: u128)
    requires
        s.wf(),
        s.opens(now),
        s.open_fits(now),
    ensures
        s.after_open(now, price).wf(),
{
    let t = s.after_open(now, price);
    let nb = s.new_bidding(now);
    assert forall|j: int| 0 <= j < s.bets.len() implies #[trigger] s.bets[j].round_id != nb.id by {
    }
    lemma_side_total_absent(s.bets, nb.id, Direction::Bull);
    lemma_side_total_absent(s.bets, nb.id, Direction::Bear);
    assert forall|j: int| 0 <= j < t.bets.len() implies #[trigger] t.bets[j].round_id
        < t.next_round_id by {
        assert(s.bets[j].round_id < s.next_round_id);
    }
}

/// Advancing the rounds keeps the invariant, keeps every settled round as it
/// was, and never lowers the id counter.
pub proof fn advance_keeps_invariant(s: LedgerView, now: u64, price: u128)
    requires
        s.wf(),
        s.advanced(now, price) is Ok,
    ensures
        s.advanced(now, price)->Ok_0.wf(),
        s.rounds.is_prefix_of(s.advanced(now, price)->Ok_0.rounds),
        s.next_round_id <= s.advanced(now, price)->Ok_0.next_round_id,
{
    close_keeps_invariant(s, now, price);
    let c = s.after_close(now, price);
    assert(s.rounds.is_prefix_of(c.rounds));
    if c.opens(now) {
        open_keeps_invariant(c, now, price);
    }
}

/// A collection keeps the invariant.
pub proof fn collect_keeps_invariant(s: LedgerView, player: Seq<char>)
    requires
        s.wf(),
    ensures
        s.after_collect(player).wf(),
{
    let t = s.after_collect(player);
    let k = s.rounds.len();
    lemma_unclaimed_from(s.bets, player, k);
    lemma_unclaimed_unique(s.bets, player, k);
    lemma_unclaimed_ordered(s.bets, player, k);
    assert forall|j: int| 0 <= j < t.bets.len() implies #[trigger] t.bets[j].round_id
        < t.next_round_id by {
        assert(s.bets.contains(t.bets[j]));
        let m = choose|m: int| 0 <= m < s.bets.len() && s.bets[m] == t.bets[j];
        assert(s.bets[m].round_id < s.next_round_id);
    }
    assert forall|i: int| 0 <= i < t.rounds.len() implies {
        &&& side_total(t.bets, i as u128, Direction::Bull) <= #[trigger] t.rounds[i].bull_amount
        &&& side_total(t.bets, i as u128, Direction::Bear) <= t.rounds[i].bear_amount
    } by {
        lemma_unclaimed_side_total(s.bets, player, k, i as u128, Direction::Bull);
        lemma_unclaimed_side_total(s.bets, player, k, i as u128, Direction::Bear);
    }
    if let Some(l) = s.live_round {
        lemma_unclaimed_side_total(s.bets, player, k, l.id, Direction::Bull);
        lemma_unclaimed_side_total(s.bets, player, k, l.id, Direction::Bear);
    }
    if let Some(n) = s.next_round {
        lemma_unclaimed_side_total(s.bets, player, k, n.id, Direction::Bull);
        lemma_unclaimed_side_total(s.bets, player, k, n.id, Direction::Bear);
    }
    assert(t.bets_wf());
}

/// Round ids strictly increase: through the settled rounds, then the live
/// round, then the bidding round, and all stay below the id counter.
pub proof fn round_ids_increase(s: LedgerView)
    requires
        s.wf(),
    ensures
        forall|i: int, j: int|
            0 <= i < j < s.rounds.len() ==> #[trigger] s.rounds[i].id < #[trigger] s.rounds[j].id,
        forall|i: int|
            0 <= i < s.rounds.len() ==> #[trigger] s.rounds[i].id < s.next_round_id,
        s.live_round matches Some(l) ==> (forall|i: int|
            0 <= i < s.rounds.len() ==> #[trigger] s.rounds[i].id < l.id),
        s.live_round matches Some(l) ==> s.next_round matches Some(n) && l.id < n.id,
        s.next_round matches Some(n) ==> n.id < s.next_round_id,
{
}

/// A player who has just collected is owed nothing more, so collecting
/// again at once finds nothing to claim.
pub proof fn no_double_claim(s: LedgerView, player: Seq<char>)
    ensures
        s.after_collect(player).claimable(player) == 0,
{
    lemma_unclaimed_owes_nothing(s.bets, s.rounds, player);
}

/// The pools of the bidding and of the live round are the sums of the net
/// stakes recorded on them.
pub proof fn pools_match_stakes(s: LedgerView)
    requires
        s.wf(),
    ensures
        s.next_round matches Some(n) ==> side_total(s.bets, n.id, Direction::Bull) + side_total(
            s.bets,
            n.id,
            Direction::Bear,
        ) == n.bull_amount + n.bear_amount,
        s.live_round matches Some(l) ==> side_total(s.bets, l.id, Direction::Bull) + side_total(
            s.bets,
            l.id,
            Direction::Bear,
        ) == l.bull_amount + l.bear_amount,
{
}

/// When a round is settled, its pool is the sum of the net stakes recorded
/// on it.
pub proof fn settled_pool_matches_stakes(s: LedgerView, now: u64, price: u128)
    requires
        s.wf(),
        s.closes(now),
    ensures
        ({
            let t = s.after_close(now, price);
            let r = t.rounds.last();
            side_total(t.bets, r.id, Direction::Bull) + side_total(t.bets, r.id, Direction::Bear)
                == pool_of(r)
        }),
{
}

/// A winning stake on a round with bettors on both sides is paid its share
/// of the whole pool: `floor(pool * stake / winning side total)`.
pub proof fn winner_paid_pro_rata(round: FinishedRound, bet: BetInfo)
    requires
        round.bull_amount > 0,
        round.bear_amount > 0,
        round.winner == Some(bet.direction),
    ensures
        payout(round, bet) == pool_of(round) * bet.amount / (side_amount(round, bet.direction) as int),
{
}

/// A round with an empty side, or whose price held, pays every bet its
/// exact net stake back.
pub proof fn push_refunds_stake(round: FinishedRound, bet: BetInfo)
    requires
        round.bull_amount == 0 || round.bear_amount == 0 || round.winner is None,
    ensures
        payout(round, bet) == bet.amount,
{
}

/// Floor division never adds up to more than the division of the sum.
proof fn lemma_floor_add(x: int, y: int, w: int)
    requires
        0 <= x,
        0 <= y,
        0 < w,
    ensures
        x / w + y / w <= (x + y) / w,
{
    vstd::arithmetic::div_mod::lemma_fundamental_div_mod(x, w);
    vstd::arithmetic::div_mod::lemma_fundamental_div_mod(y, w);
    let q = x / w + y / w;
    assert(w * q <= x + y) by (nonlinear_arith)
        requires
            x == w * (x / w) + x % w,
            y == w * (y / w) + y % w,
            x % w >= 0,
            y % w >= 0,
            q == x / w + y / w,
    ;
    vstd::arithmetic::div_mod::lemma_div_is_ordered(w * q, x + y, w);
    vstd::arithmetic::div_mod::lemma_div_multiples_vanish(q, w);
}

/// On a two-sided round won by `w`, the bets together are paid at most the
/// pool's share of the winning stakes recorded.
proof fn lemma_winner_payouts(bets: Seq<BetInfo>, round: FinishedRound, w: Direction)
    requires
        round.bull_amount > 0,
        round.bear_amount > 0,
        round.winner == Some(w),
    ensures
        0 <= round_payout_total(bets, round) <= pool_of(round) * side_total(bets, round.id, w) / (
        side_amount(round, w) as int),
    decreases bets.len(),
{
    let side = side_amount(round, w) as int;
    let pool = pool_of(round);
    lemma_side_total_nonneg(bets, round.id, w);
    if bets.len() > 0 {
        let s = bets.drop_last();
        let b = bets.last();
        lemma_winner_payouts(s, round, w);
        lemma_side_total_nonneg(s, round.id, w);
        let st = side_total(s, round.id, w);
        if b.round_id == round.id && b.direction == w {
            assert(pool * st + pool * b.amount == pool * (st + b.amount)) by (nonlinear_arith);
            assert(pool * st >= 0 && pool * b.amount >= 0) by (nonlinear_arith)
                requires
                    pool >= 0,
                    st >= 0,
                    b.amount >= 0,
            ;
            lemma_floor_add(pool * st, pool * b.amount, side);
        } else if b.round_id == round.id {
            lemma_payout_nonneg(round, b);
        }
    }
}

/// On a round that refunds, the bets together are paid their stakes.
proof fn lemma_refund_payouts(bets: Seq<BetInfo>, round: FinishedRound)
    requires
        round.bull_amount == 0 || round.bear_amount == 0 || round.winner is None,
    ensures
        round_payout_total(bets, round) == side_total(bets, round.id, Direction::Bull) + side_total(
            bets,
            round.id,
            Direction::Bear,
        ),
    decreases bets.len(),
{
    if bets.len() > 0 {
        lemma_refund_payouts(bets.drop_last(), round);
    }
}

/// When the stakes recorded on a settled round are within its pools, the
/// bets on it are paid at most the whole pool: rounding down may leave a
/// remainder unclaimed, never a deficit.
pub proof fn payouts_within_pool(bets: Seq<BetInfo>, round: FinishedRound)
    requires
        side_total(bets, round.id, Direction::Bull) <= round.bull_amount,
        side_total(bets, round.id, Direction::Bear) <= round.bear_amount,
    ensures
        round_payout_total(bets, round) <= pool_of(round),
{
    lemma_side_total_nonneg(bets, round.id, Direction::Bull);
    lemma_side_total_nonneg(bets, round.id, Direction::Bear);
    if round.bull_amount == 0 || round.bear_amount == 0 || round.winner is None {
        lemma_refund_payouts(bets, round);
    } else {
        let w = round.winner->0;
        lemma_winner_payouts(bets, round, w);
        crate::settlement::lemma_share_within_pool(
            pool_of(round),
            side_total(bets, round.id, w),
            side_amount(round, w) as int,
        );
    }
}

/// Every settled round of a market owes its remaining bettors at most its
/// pool.
pub proof fn settled_rounds_solvent(s: LedgerView)
    requires
        s.wf(),
    ensures
        forall|i: int|
            0 <= i < s.rounds.len() ==> round_payout_total(s.bets, #[trigger] s.rounds[i])
                <= pool_of(s.rounds[i]),
{
    assert forall|i: int| 0 <= i < s.rounds.len() implies round_payout_total(
        s.bets,
        #[trigger] s.rounds[i],
    ) <= pool_of(s.rounds[i]) by {
        assert(s.rounds[i].id == i as u128);
        payouts_within_pool(s.bets, s.rounds[i]);
    }
}

} // verus!
