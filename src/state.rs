//! The abstract state of the market, its invariant and its transitions.
use crate::bets::{claim_total, has_bet, keys_unique, rounds_ordered, side_total, unclaimed};
use crate::settlement::{burn_fee_of, finish, gaming_fee_of, round_nanos, went_live};
use crate::types::{
    BetInfo, Config, ContractError, Direction, FinishedRound, LiveRound, NextRound, PartialConfig,
    WalletInfo,
};
use vstd::prelude::*;

verus! {

/// The whole market as a mathematical value.
pub struct LedgerView {
    pub config: Config,
    pub is_haulted: bool,
    /// The id that the next bidding round will get.
    pub next_round_id: u128,
    /// The round that accepts bets.
    pub next_round: Option<NextRound>,
    /// The round that waits for its close.
    pub live_round: Option<LiveRound>,
    /// The settled rounds; `rounds[i]` is round `i`.
    pub rounds: Seq<FinishedRound>,
    pub bets: Seq<BetInfo>,
    /// The gaming fees collected and not yet distributed.
    pub accumulated_fee: u128,
}

/// The size of a round's pool fits in an amount.
pub open spec fn pool_fits(bull: u128, bear: u128) -> bool {
    bull + bear <= u128::MAX
}

/// `config` with the fields that `update` sets replaced.
pub open spec fn merged(config: Config, update: PartialConfig) -> Config {
    Config {
        next_round_seconds: match update.next_round_seconds {
            Some(v) => v,
            None => config.next_round_seconds,
        },
        fast_oracle_addr: match update.fast_oracle_addr {
            Some(v) => v,
            None => config.fast_oracle_addr,
        },
        minimum_bet: match update.minimum_bet {
            Some(v) => v,
            None => config.minimum_bet,
        },
        burn_fee: match update.burn_fee {
            Some(v) => v,
            None => config.burn_fee,
        },
        gaming_fee: match update.gaming_fee {
            Some(v) => v,
            None => config.gaming_fee,
        },
        token_addr: match update.token_addr {
            Some(v) => v,
            None => config.token_addr,
        },
    }
}

/// The net amount that a bet of `gross` adds to the pool.
pub open spec fn net_of(config: Config, gross: u128) -> int {
    gross - burn_fee_of(config, gross) - gaming_fee_of(config, gross)
}

/// The sum of the ratios of `wallets`.
pub open spec fn ratio_sum(wallets: Seq<WalletInfo>) -> int
    decreases wallets.len(),
{
    if wallets.len() == 0 {
        0
    } else {
        ratio_sum(wallets.drop_last()) + wallets.last().ratio
    }
}

/// The sum of the ratios of a prefix is within the whole sum.
pub proof fn lemma_ratio_sum_prefix(wallets: Seq<WalletInfo>, i: int)
    requires
        0 <= i <= wallets.len(),
    ensures
        0 <= ratio_sum(wallets.take(i)) <= ratio_sum(wallets),
    decreases wallets.len(),
{
    if i == wallets.len() {
        assert(wallets.take(i) =~= wallets);
        if wallets.len() > 0 {
            lemma_ratio_sum_prefix(wallets.drop_last(), i - 1);
            assert(wallets.drop_last().take(i - 1) =~= wallets.drop_last());
        }
    } else {
        assert(wallets.take(i) =~= wallets.drop_last().take(i));
        lemma_ratio_sum_prefix(wallets.drop_last(), i);
    }
}

/// The number of bets on a page of the history when none is asked for.
pub const DEFAULT_LIMIT: u32 = 10;

/// The most bets that a page of the history holds.
pub const MAX_LIMIT: u32 = 30;

/// How many bets one page of the history holds for a requested `limit`.
pub open spec fn page_size(limit: Option<u32>) -> nat {
    match limit {
        None => DEFAULT_LIMIT as nat,
        Some(l) => if l > MAX_LIMIT {
            MAX_LIMIT as nat
        } else {
            l as nat
        },
    }
}

/// The settled rounds are rounds `0 .. k` in order, at most one round is
/// live and at most one takes bets, their ids follow each other, and
/// each round's window starts no earlier than the previous one closed.
pub open spec fn rounds_ok(
    rounds: Seq<FinishedRound>,
    live_round: Option<LiveRound>,
    next_round: Option<NextRound>,
    next_round_id: u128,
) -> bool {
    let k = rounds.len();
    &&& forall|i: int|
        0 <= i < k ==> {
            &&& #[trigger] rounds[i].id == i
            &&& rounds[i].open_time <= rounds[i].close_time
            &&& pool_fits(rounds[i].bull_amount, rounds[i].bear_amount)
        }
    &&& forall|i: int|
        0 <= i < k - 1 ==> #[trigger] rounds[i].close_time <= rounds[i + 1].open_time
    &&& match (live_round, next_round) {
        (None, None) => k == 0 && next_round_id == 0,
        (None, Some(n)) => {
            &&& n.id == k
            &&& next_round_id == k + 1
            &&& k > 0 ==> rounds[k - 1].close_time <= n.open_time
            &&& pool_fits(n.bull_amount, n.bear_amount)
        },
        (Some(l), Some(n)) => {
            &&& l.id == k
            &&& n.id == k + 1
            &&& next_round_id == k + 2
            &&& l.open_time <= l.close_time
            &&& n.open_time == l.close_time
            &&& k > 0 ==> rounds[k - 1].close_time <= l.open_time
            &&& pool_fits(l.bull_amount, l.bear_amount)
            &&& pool_fits(n.bull_amount, n.bear_amount)
        },
        (Some(_), None) => false,
    }
}

/// Each bet names a round that exists, the bets are recorded in the order
/// of their rounds, no player bets twice on a round,
/// the pools of the open rounds are exactly the stakes recorded on them,
/// and a settled round's stakes still recorded are within its pools.
pub open spec fn bets_ok(
    bets: Seq<BetInfo>,
    rounds: Seq<FinishedRound>,
    live_round: Option<LiveRound>,
    next_round: Option<NextRound>,
    next_round_id: u128,
) -> bool {
    &&& forall|j: int| 0 <= j < bets.len() ==> #[trigger] bets[j].round_id < next_round_id
    &&& keys_unique(bets)
    &&& rounds_ordered(bets)
    &&& forall|i: int|
        0 <= i < rounds.len() ==> {
            &&& side_total(bets, i as u128, Direction::Bull) <= #[trigger] rounds[i].bull_amount
            &&& side_total(bets, i as u128, Direction::Bear) <= rounds[i].bear_amount
        }
    &&& live_round matches Some(l) ==> {
        &&& side_total(bets, l.id, Direction::Bull) == l.bull_amount
        &&& side_total(bets, l.id, Direction::Bear) == l.bear_amount
    }
    &&& next_round matches Some(n) ==> {
        &&& side_total(bets, n.id, Direction::Bull) == n.bull_amount
        &&& side_total(bets, n.id, Direction::Bear) == n.bear_amount
    }
}

/// The invariant does not depend on the configuration, the pause flag or
/// the collected fees.
pub proof fn lemma_wf_settings_free(a: LedgerView, b: LedgerView)
    requires
        a.next_round_id == b.next_round_id,
        a.next_round == b.next_round,
        a.live_round == b.live_round,
        a.rounds == b.rounds,
        a.bets == b.bets,
    ensures
        a.wf() == b.wf(),
{
}

impl LedgerView {
    pub open spec fn rounds_wf(self) -> bool {
        rounds_ok(self.rounds, self.live_round, self.next_round, self.next_round_id)
    }

    pub open spec fn bets_wf(self) -> bool {
        bets_ok(self.bets, self.rounds, self.live_round, self.next_round, self.next_round_id)
    }

    pub open spec fn wf(self) -> bool {
        self.rounds_wf() && self.bets_wf()
    }

    /// A fresh market: no round yet, nothing staked, not paused.
    pub open spec fn initial(config: Config) -> LedgerView {
        LedgerView {
            config,
            is_haulted: false,
            next_round_id: 0,
            next_round: None,
            live_round: None,
            rounds: Seq::empty(),
            bets: Seq::empty(),
            accumulated_fee: 0,
        }
    }

    /// Why a bet of `gross` by `player` on `round_id` at `now` is refused,
    /// checked in this order, or `Ok` when it is taken.
    pub open spec fn bet_check(
        self,
        player: Seq<char>,
        round_id: u128,
        direction: Direction,
        gross: u128,
        now: u64,
    ) -> Result<(), ContractError> {
        if self.is_haulted {
            Err(ContractError::Paused)
        } else if !(self.next_round matches Some(n) && n.id == round_id) {
            Err(ContractError::WrongRound)
        } else if now > self.next_round->0.open_time {
            Err(ContractError::BiddingClosed)
        } else if has_bet(self.bets, round_id, player) {
            Err(ContractError::AlreadyBet)
        } else if net_of(self.config, gross) < 0 || self.accumulated_fee + gaming_fee_of(
            self.config,
            gross,
        ) > u128::MAX || self.next_round->0.bull_amount + self.next_round->0.bear_amount + net_of(
            self.config,
            gross,
        ) > u128::MAX {
            Err(ContractError::Overflow)
        } else {
            Ok(())
        }
    }

    /// The market once the bet has been taken: the net stake is recorded
    /// and added to its side of the bidding round, the gaming fee is kept.
    pub open spec fn with_bet(
        self,
        player: String,
        round_id: u128,
        direction: Direction,
        gross: u128,
    ) -> LedgerView {
        let n = self.next_round->0;
        let net = net_of(self.config, gross);
        LedgerView {
            next_round: Some(
                match direction {
                    Direction::Bull => NextRound { bull_amount: (n.bull_amount + net) as u128, ..n },
                    Direction::Bear => NextRound { bear_amount: (n.bear_amount + net) as u128, ..n },
                },
            ),
            bets: self.bets.push(
                BetInfo { player, round_id, amount: net as u128, direction },
            ),
            accumulated_fee: (self.accumulated_fee + gaming_fee_of(self.config, gross)) as u128,
            ..self
        }
    }

    /// The live round is due to close at `now`.
    pub open spec fn closes(self, now: u64) -> bool {
        self.live_round matches Some(l) && now >= l.close_time
    }

    /// The market once a due live round has been settled at `price`.
    pub open spec fn after_close(self, now: u64, price: u128) -> LedgerView {
        if self.closes(now) {
            LedgerView {
                live_round: None,
                rounds: self.rounds.push(finish(self.live_round->0, price)),
                ..self
            }
        } else {
            self
        }
    }

    /// A new bidding round is due: there is none yet, or the bidding round
    /// may go live because no round is live and its opening time has come.
    pub open spec fn opens(self, now: u64) -> bool {
        match self.next_round {
            None => true,
            Some(n) => self.live_round is None && now >= n.open_time,
        }
    }

    /// The times and the counter that opening rounds at `now` needs fit.
    pub open spec fn open_fits(self, now: u64) -> bool {
        now + 2 * round_nanos(self.config) <= u64::MAX && self.next_round_id < u128::MAX
    }

    /// The bidding round that is opened at `now`: its window starts when the
    /// round that goes live closes, one round length from now.
    pub open spec fn new_bidding(self, now: u64) -> NextRound {
        NextRound {
            id: self.next_round_id,
            bid_time: now,
            open_time: (now + round_nanos(self.config)) as u64,
            close_time: (now + 2 * round_nanos(self.config)) as u64,
            bull_amount: 0,
            bear_amount: 0,
        }
    }

    /// The market once the bidding round, if any, has gone live at `price`
    /// and a new bidding round has been opened.
    pub open spec fn after_open(self, now: u64, price: u128) -> LedgerView {
        LedgerView {
            live_round: match self.next_round {
                Some(n) => Some(went_live(n, now, price, self.config)),
                None => self.live_round,
            },
            next_round: Some(self.new_bidding(now)),
            next_round_id: (self.next_round_id + 1) as u128,
            ..self
        }
    }

    /// The outcome of advancing the rounds at `now` with the oracle at `price`.
    pub open spec fn advanced(self, now: u64, price: u128) -> Result<LedgerView, ContractError> {
        if self.is_haulted {
            Err(ContractError::Paused)
        } else {
            let closed = self.after_close(now, price);
            if !closed.opens(now) {
                Ok(closed)
            } else if closed.open_fits(now) {
                Ok(closed.after_open(now, price))
            } else {
                Err(ContractError::Overflow)
            }
        }
    }

    /// What `player` is owed over the settled rounds.
    pub open spec fn claimable(self, player: Seq<char>) -> int {
        claim_total(self.bets, self.rounds, player)
    }

    /// The market once `player` has collected: the bets on settled rounds
    /// are gone.
    pub open spec fn after_collect(self, player: Seq<char>) -> LedgerView {
        LedgerView { bets: unclaimed(self.bets, player, self.rounds.len()), ..self }
    }
}

} // verus!
