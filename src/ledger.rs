//! The market's state and every operation on it.
use crate::arith::mul_ratio;
use crate::bets::{
    claim_total, has_bet, history, keys_unique, lemma_amount_within_side_total,
    lemma_claim_total_prefix, lemma_history_ascending, lemma_history_prefix, stake_on, unclaimed,
};
use crate::laws::{advance_keeps_invariant, bet_keeps_invariant, collect_keeps_invariant};
use crate::persist::{check_bets, check_rounds, LedgerParts};
use crate::settlement::{
    burn_fee_of, compute_burn_fee, compute_gaming_fee, compute_round_close, compute_round_open,
    finish, gaming_fee_of, lemma_share_within_pool, round_end, settle_bet,
};
use crate::state::{
    lemma_ratio_sum_prefix, lemma_wf_settings_free, merged, net_of, page_size, ratio_sum,
    LedgerView, DEFAULT_LIMIT, MAX_LIMIT,
};
use crate::types::{
    AdvanceReport, BetInfo, BetReceipt, Config, ContractError, Direction, FinishedRound,
    LiveRound, MyCurrentPositionResponse, MyGameResponse, NextRound, PartialConfig,
    PendingRewardResponse, StatusResponse, WalletInfo, WalletShare, RATIO_ONE,
};
use vstd::prelude::*;

verus! {

/// `admin` is known and is `sender`.
pub open spec fn is_admin(sender: Seq<char>, admin: Option<String>) -> bool {
    admin matches Some(a) && a@ == sender
}

/// Only the admin may pass: `admin` is the address that the chain reports as
/// the contract's admin, if any.
pub fn assert_is_admin(sender: &String, admin: &Option<String>) -> (r: Result<(), ContractError>)
    ensures
        r is Ok <==> is_admin(sender@, *admin),
        r is Err ==> r->Err_0 == ContractError::Unauthorized,
{
    match admin {
        Some(a) => if *a == *sender {
            Ok(())
        } else {
            Err(ContractError::Unauthorized)
        },
        None => Err(ContractError::Unauthorized),
    }
}

pub(crate) fn clone_bet(b: &BetInfo) -> (r: BetInfo)
    ensures
        r == *b,
{
    BetInfo { player: b.player.clone(), round_id: b.round_id, amount: b.amount, direction: b.direction }
}

pub(crate) fn clone_config(c: &Config) -> (r: Config)
    ensures
        r == *c,
{
    Config {
        next_round_seconds: c.next_round_seconds,
        fast_oracle_addr: c.fast_oracle_addr.clone(),
        minimum_bet: c.minimum_bet,
        burn_fee: c.burn_fee,
        gaming_fee: c.gaming_fee,
        token_addr: c.token_addr.clone(),
    }
}

/// The market: configuration, pause flag, rounds, bets and collected fees.
pub struct Ledger {
    config: Config,
    is_haulted: bool,
    next_round_id: u128,
    next_round: Option<NextRound>,
    live_round: Option<LiveRound>,
    rounds: Vec<FinishedRound>,
    bets: Vec<BetInfo>,
    accumulated_fee: u128,
}

impl View for Ledger {
    type V = LedgerView;

    closed spec fn view(&self) -> LedgerView {
        LedgerView {
            config: self.config,
            is_haulted: self.is_haulted,
            next_round_id: self.next_round_id,
            next_round: self.next_round,
            live_round: self.live_round,
            rounds: self.rounds@,
            bets: self.bets@,
            accumulated_fee: self.accumulated_fee,
        }
    }
}

impl Ledger {
    /// A market with `config`, no round yet and nothing staked.
    pub fn new(config: Config) -> (r: Ledger)
        ensures
            r@ == LedgerView::initial(config),
            r@.wf(),
    {
        let r = Ledger {
            config,
            is_haulted: false,
            next_round_id: 0,
            next_round: None,
            live_round: None,
            rounds: Vec::new(),
            bets: Vec::new(),
            accumulated_fee: 0,
        };
        assert(r@ == LedgerView::initial(config)) by {
            assert(r.rounds@ =~= Seq::<FinishedRound>::empty());
            assert(r.bets@ =~= Seq::<BetInfo>::empty());
        }
        r
    }

    /// Every field of the market, to be stored.
    pub fn into_parts(self) -> (r: LedgerParts)
        ensures
            r@ == self@,
    {
        LedgerParts {
            config: self.config,
            is_haulted: self.is_haulted,
            next_round_id: self.next_round_id,
            next_round: self.next_round,
            live_round: self.live_round,
            rounds: self.rounds,
            bets: self.bets,
            accumulated_fee: self.accumulated_fee,
        }
    }

    /// The market made of stored `parts`, or `None` when they break the
    /// invariant.
    pub fn from_parts(parts: LedgerParts) -> (r: Option<Ledger>)
        ensures
            r matches Some(l) ==> l@ == parts@ && l@.wf(),
            r is None <==> !parts@.wf(),
    {
        if !check_rounds(&parts) || !check_bets(&parts) {
            return None;
        }
        Some(
            Ledger {
                config: parts.config,
                is_haulted: parts.is_haulted,
                next_round_id: parts.next_round_id,
                next_round: parts.next_round,
                live_round: parts.live_round,
                rounds: parts.rounds,
                bets: parts.bets,
                accumulated_fee: parts.accumulated_fee,
            },
        )
    }

    pub fn config(&self) -> (r: Config)
        ensures
            r == self@.config,
    {
        clone_config(&self.config)
    }

    pub fn is_haulted(&self) -> (r: bool)
        ensures
            r == self@.is_haulted,
    {
        self.is_haulted
    }

    /// The gaming fees collected and not yet distributed.
    pub fn accumulated_fee(&self) -> (r: u128)
        ensures
            r == self@.accumulated_fee,
    {
        self.accumulated_fee
    }

    /// The bidding and the live round.
    pub fn status(&self) -> (r: StatusResponse)
        ensures
            r.bidding_round == self@.next_round,
            r.live_round == self@.live_round,
    {
        StatusResponse { bidding_round: self.next_round, live_round: self.live_round }
    }

    /// The settled round `round_id`, or `NotFound` while it has not settled.
    pub fn finished_round(&self, round_id: u128) -> (r: Result<FinishedRound, ContractError>)
        requires
            self@.wf(),
        ensures
            round_id < self@.rounds.len() ==> r == Ok::<FinishedRound, ContractError>(
                self@.rounds[round_id as int],
            ),
            round_id >= self@.rounds.len() ==> r == Err::<FinishedRound, ContractError>(
                ContractError::NotFound,
            ),
    {
        if round_id < self.rounds.len() as u128 {
            Ok(self.rounds[round_id as usize])
        } else {
            Err(ContractError::NotFound)
        }
    }

    /// Bets and round advancement are refused while paused.
    pub fn assert_not_haulted(&self) -> (r: Result<(), ContractError>)
        ensures
            r is Ok <==> !self@.is_haulted,
            r is Err ==> r->Err_0 == ContractError::Paused,
    {
        if self.is_haulted {
            Err(ContractError::Paused)
        } else {
            Ok(())
        }
    }

    /// Pauses or resumes bets and round advancement; admin only.
    pub fn update_hault(&mut self, sender: &String, admin: &Option<String>, is_haulted: bool) -> (r:
        Result<(), ContractError>)
        requires
            old(self)@.wf(),
        ensures
            final(self)@.wf(),
            r is Ok <==> is_admin(sender@, *admin),
            r is Ok ==> final(self)@ == (LedgerView { is_haulted, ..old(self)@ }),
            r is Err ==> r->Err_0 == ContractError::Unauthorized && final(self)@ == old(self)@,
    {
        assert_is_admin(sender, admin)?;
        let ghost before = self@;
        self.is_haulted = is_haulted;
        proof {
            lemma_wf_settings_free(self@, before);
        }
        Ok(())
    }

    /// Replaces the configuration fields that `update` sets; admin only.
    pub fn update_config(&mut self, sender: &String, admin: &Option<String>, update: PartialConfig) -> (r:
        Result<(), ContractError>)
        requires
            old(self)@.wf(),
        ensures
            final(self)@.wf(),
            r is Ok <==> is_admin(sender@, *admin),
            r is Ok ==> final(self)@ == (LedgerView {
                config: merged(old(self)@.config, update),
                ..old(self)@
            }),
            r is Err ==> r->Err_0 == ContractError::Unauthorized && final(self)@ == old(self)@,
    {
        assert_is_admin(sender, admin)?;
        let config = Config {
            next_round_seconds: match update.next_round_seconds {
                Some(v) => v,
                None => self.config.next_round_seconds,
            },
            fast_oracle_addr: match update.fast_oracle_addr {
                Some(v) => v,
                None => self.config.fast_oracle_addr.clone(),
            },
            minimum_bet: match update.minimum_bet {
                Some(v) => v,
                None => self.config.minimum_bet,
            },
            burn_fee: match update.burn_fee {
                Some(v) => v,
                None => self.config.burn_fee,
            },
            gaming_fee: match update.gaming_fee {
                Some(v) => v,
                None => self.config.gaming_fee,
            },
            token_addr: match update.token_addr {
                Some(v) => v,
                None => self.config.token_addr.clone(),
            },
        };
        let ghost before = self@;
        self.config = config;
        proof {
            lemma_wf_settings_free(self@, before);
        }
        Ok(())
    }

    /// The index of the bet of `player` on round `round_id`, if recorded.
    fn find_bet(&self, round_id: u128, player: &String) -> (r: Option<usize>)
        ensures
            r matches Some(j) ==> j < self@.bets.len() && self@.bets[j as int].round_id == round_id
                && self@.bets[j as int].player@ == player@,
            r is None ==> !has_bet(self@.bets, round_id, player@),
    {
        let mut i: usize = 0;
        while i < self.bets.len()
            invariant
                i <= self.bets@.len(),
                forall|j: int|
                    0 <= j < i ==> !(#[trigger] self.bets@[j].round_id == round_id
                        && self.bets@[j].player@ == player@),
            decreases self.bets@.len() - i,
        {
            if self.bets[i].round_id == round_id && self.bets[i].player == *player {
                return Some(i);
            }
            i += 1;
        }
        None
    }

    /// The bidding round, provided that its id is `round_id`.
    pub fn assert_is_current_round(&self, round_id: u128) -> (r: Result<NextRound, ContractError>)
        ensures
            self@.next_round matches Some(n) ==> (n.id == round_id ==> r == Ok::<
                NextRound,
                ContractError,
            >(n)),
            !(self@.next_round matches Some(n) && n.id == round_id) ==> r == Err::<
                NextRound,
                ContractError,
            >(ContractError::WrongRound),
    {
        match self.next_round {
            Some(n) => if n.id == round_id {
                Ok(n)
            } else {
                Err(ContractError::WrongRound)
            },
            None => Err(ContractError::WrongRound),
        }
    }

    /// Takes a bet of `gross` by `player` on side `direction` of the bidding
    /// round `round_id` at time `now`. The fees are taken from `gross`, the
    /// rest is staked; the burnt part never enters custody.
    pub fn place_bet(
        &mut self,
        player: String,
        round_id: u128,
        direction: Direction,
        gross: u128,
        now: u64,
    ) -> (r: Result<BetReceipt, ContractError>)
        requires
            old(self)@.wf(),
        ensures
            final(self)@.wf(),
            old(self)@.bet_check(player@, round_id, direction, gross, now) matches Err(e) ==> r == Err::<
                BetReceipt,
                ContractError,
            >(e) && final(self)@ == old(self)@,
            old(self)@.bet_check(player@, round_id, direction, gross, now) is Ok ==> r is Ok
                && final(self)@ == old(self)@.with_bet(player, round_id, direction, gross),
            r matches Ok(receipt) ==> {
                &&& receipt.amount == net_of(old(self)@.config, gross)
                &&& receipt.burn_fee == burn_fee_of(old(self)@.config, gross)
                &&& receipt.gaming_fee == gaming_fee_of(old(self)@.config, gross)
                &&& receipt.custody_amount == gross - burn_fee_of(old(self)@.config, gross)
                &&& receipt.side_total == match direction {
                    Direction::Bull => final(self)@.next_round->0.bull_amount,
                    Direction::Bear => final(self)@.next_round->0.bear_amount,
                }
            },
    {
        self.assert_not_haulted()?;
        let mut round = self.assert_is_current_round(round_id)?;
        if now > round.open_time {
            return Err(ContractError::BiddingClosed);
        }
        if self.find_bet(round_id, &player).is_some() {
            return Err(ContractError::AlreadyBet);
        }
        proof {
            let c = self@.config;
            assert(c.burn_fee * gross >= 0 && c.gaming_fee * gross >= 0) by (nonlinear_arith);
        }
        let burn_fee = compute_burn_fee(&self.config, gross)?;
        let gaming_fee = compute_gaming_fee(&self.config, gross)?;
        if burn_fee > gross || gaming_fee > gross - burn_fee {
            return Err(ContractError::Overflow);
        }
        let amount: u128 = gross - burn_fee - gaming_fee;
        if self.accumulated_fee > u128::MAX - gaming_fee {
            return Err(ContractError::Overflow);
        }
        if round.bull_amount + round.bear_amount > u128::MAX - amount {
            return Err(ContractError::Overflow);
        }
        proof {
            bet_keeps_invariant(self@, player, round_id, direction, gross, now);
        }
        let side_total = match direction {
            Direction::Bull => {
                round.bull_amount = round.bull_amount + amount;
                round.bull_amount
            },
            Direction::Bear => {
                round.bear_amount = round.bear_amount + amount;
                round.bear_amount
            },
        };
        self.next_round = Some(round);
        self.bets.push(BetInfo { player, round_id, amount, direction });
        self.accumulated_fee = self.accumulated_fee + gaming_fee;
        Ok(
            BetReceipt {
                amount,
                burn_fee,
                gaming_fee,
                custody_amount: gross - burn_fee,
                side_total,
            },
        )
    }

    /// Advances the rounds at time `now`, `price` being the oracle's price
    /// now. A live round whose close time has come is settled and archived;
    /// then, if no round is live and the bidding round's open time has come,
    /// the bidding round goes live and a new bidding round opens, whose
    /// window starts when the new live round closes. The first call opens
    /// the first bidding round. Calling it early changes nothing.
    pub fn advance_round(&mut self, now: u64, price: u128) -> (r: Result<AdvanceReport, ContractError>)
        requires
            old(self)@.wf(),
        ensures
            final(self)@.wf(),
            old(self)@.advanced(now, price) matches Err(e) ==> r == Err::<AdvanceReport, ContractError>(
                e,
            ) && final(self)@ == old(self)@,
            old(self)@.advanced(now, price) matches Ok(v) ==> r is Ok && final(self)@ == v,
            r matches Ok(report) ==> {
                &&& report.closed == if old(self)@.closes(now) {
                    Some(finish(old(self)@.live_round->0, price))
                } else {
                    None
                }
                &&& report.opened == if old(self)@.after_close(now, price).opens(now)
                    && old(self)@.next_round is Some {
                    final(self)@.live_round
                } else {
                    None
                }
                &&& report.bidding_opened == if old(self)@.after_close(now, price).opens(now) {
                    Some(old(self)@.next_round_id)
                } else {
                    None
                }
            },
            old(self)@.rounds.is_prefix_of(final(self)@.rounds),
            old(self)@.next_round_id <= final(self)@.next_round_id,
    {
        self.assert_not_haulted()?;
        let closes = match self.live_round {
            Some(l) => now >= l.close_time,
            None => false,
        };
        let opens = match self.next_round {
            None => true,
            Some(n) => (self.live_round.is_none() || closes) && now >= n.open_time,
        };
        let mut live: Option<LiveRound> = None;
        let mut bidding: Option<NextRound> = None;
        if opens {
            let open_time = round_end(&self.config, now)?;
            let close_time = round_end(&self.config, open_time)?;
            if self.next_round_id == u128::MAX {
                return Err(ContractError::Overflow);
            }
            if let Some(n) = self.next_round {
                live = Some(compute_round_open(&n, now, price, &self.config)?);
            }
            bidding = Some(
                NextRound {
                    id: self.next_round_id,
                    bid_time: now,
                    open_time,
                    close_time,
                    bull_amount: 0,
                    bear_amount: 0,
                },
            );
        }
        proof {
            advance_keeps_invariant(self@, now, price);
        }
        let mut closed: Option<FinishedRound> = None;
        if closes {
            if let Some(l) = self.live_round {
                let finished = compute_round_close(&l, price);
                self.rounds.push(finished);
                self.live_round = None;
                closed = Some(finished);
            }
        }
        let mut bidding_opened: Option<u128> = None;
        if opens {
            if live.is_some() {
                self.live_round = live;
            }
            self.next_round = bidding;
            bidding_opened = Some(self.next_round_id);
            self.next_round_id = self.next_round_id + 1;
        }
        Ok(AdvanceReport { closed, opened: live, bidding_opened })
    }

    /// What `player` is owed over the settled rounds, or `Overflow` when the
    /// sum does not fit in an amount.
    fn claimable(&self, player: &String) -> (r: Result<u128, ContractError>)
        requires
            self@.wf(),
        ensures
            0 <= self@.claimable(player@),
            self@.claimable(player@) <= u128::MAX ==> r == Ok::<u128, ContractError>(
                self@.claimable(player@) as u128,
            ),
            self@.claimable(player@) > u128::MAX ==> r == Err::<u128, ContractError>(
                ContractError::Overflow,
            ),
    {
        let ghost s = self@;
        proof {
            lemma_claim_total_prefix(s.bets, s.rounds, player@, s.bets.len() as int);
            assert(s.bets.take(s.bets.len() as int) =~= s.bets);
        }
        let k = self.rounds.len();
        let mut total: u128 = 0;
        let mut i: usize = 0;
        proof {
            assert(s.bets.take(0) =~= Seq::<BetInfo>::empty());
        }
        while i < self.bets.len()
            invariant
                s == self@,
                s.wf(),
                k == s.rounds.len(),
                i <= s.bets.len(),
                total == claim_total(s.bets.take(i as int), s.rounds, player@),
            decreases s.bets.len() - i,
        {
            let b = &self.bets[i];
            proof {
                assert(s.bets.take(i + 1).drop_last() =~= s.bets.take(i as int));
                assert(s.bets.take(i + 1).last() == s.bets[i as int]);
            }
            if b.player == *player && b.round_id < k as u128 {
                let idx = b.round_id as usize;
                proof {
                    lemma_amount_within_side_total(s.bets, i as int);
                    assert(s.rounds[idx as int].id == idx);
                }
                let p = settle_bet(&self.rounds[idx], b);
                if total > u128::MAX - p {
                    proof {
                        lemma_claim_total_prefix(s.bets, s.rounds, player@, i + 1);
                    }
                    return Err(ContractError::Overflow);
                }
                total = total + p;
            }
            i += 1;
        }
        Ok(total)
    }

    /// What `player` would receive from a collection now.
    pub fn pending_reward(&self, player: &String) -> (r: Result<PendingRewardResponse, ContractError>)
        requires
            self@.wf(),
        ensures
            self@.claimable(player@) <= u128::MAX ==> (r matches Ok(p) && p.pending_reward
                == self@.claimable(player@)),
            self@.claimable(player@) > u128::MAX ==> r == Err::<PendingRewardResponse, ContractError>(
                ContractError::Overflow,
            ),
    {
        let pending_reward = self.claimable(player)?;
        Ok(PendingRewardResponse { pending_reward })
    }

    /// Pays `player` what the settled rounds owe: every bet of theirs on a
    /// settled round is removed, which is what keeps a bet from being paid
    /// twice, and the sum is returned. Bets on rounds not yet settled stay.
    /// Fails with `NothingToClaim`, changing nothing, when the sum is zero.
    pub fn collect_winnings(&mut self, player: &String) -> (r: Result<u128, ContractError>)
        requires
            old(self)@.wf(),
        ensures
            final(self)@.wf(),
            old(self)@.claimable(player@) == 0 ==> r == Err::<u128, ContractError>(
                ContractError::NothingToClaim,
            ) && final(self)@ == old(self)@,
            old(self)@.claimable(player@) > u128::MAX ==> r == Err::<u128, ContractError>(
                ContractError::Overflow,
            ) && final(self)@ == old(self)@,
            0 < old(self)@.claimable(player@) <= u128::MAX ==> r == Ok::<u128, ContractError>(
                old(self)@.claimable(player@) as u128,
            ) && final(self)@ == old(self)@.after_collect(player@),
    {
        let total = self.claimable(player)?;
        if total == 0 {
            return Err(ContractError::NothingToClaim);
        }
        let ghost s = self@;
        let k = self.rounds.len();
        let mut kept: Vec<BetInfo> = Vec::new();
        let mut i: usize = 0;
        proof {
            assert(s.bets.take(0) =~= Seq::<BetInfo>::empty());
        }
        while i < self.bets.len()
            invariant
                s == self@,
                k == s.rounds.len(),
                i <= s.bets.len(),
                kept@ == unclaimed(s.bets.take(i as int), player@, k as nat),
            decreases s.bets.len() - i,
        {
            let b = &self.bets[i];
            proof {
                assert(s.bets.take(i + 1).drop_last() =~= s.bets.take(i as int));
                assert(s.bets.take(i + 1).last() == s.bets[i as int]);
            }
            if !(b.player == *player && b.round_id < k as u128) {
                kept.push(clone_bet(b));
            }
            i += 1;
        }
        proof {
            assert(s.bets.take(s.bets.len() as int) =~= s.bets);
            collect_keeps_invariant(s, player@);
        }
        self.bets = kept;
        Ok(total)
    }

    /// Pays the collected gaming fees out to `dev_wallet_list`, each wallet
    /// its ratio's share rounded down, and resets the collected total; admin
    /// only. The ratios must add up to exactly one, else nothing is paid.
    pub fn distribute_fund(
        &mut self,
        sender: &String,
        admin: &Option<String>,
        dev_wallet_list: &Vec<WalletInfo>,
    ) -> (r: Result<Vec<WalletShare>, ContractError>)
        requires
            old(self)@.wf(),
        ensures
            final(self)@.wf(),
            !is_admin(sender@, *admin) ==> (r matches Err(e) && e == ContractError::Unauthorized
                && final(self)@ == old(self)@),
            is_admin(sender@, *admin) && ratio_sum(dev_wallet_list@) != RATIO_ONE ==> r == Err::<
                Vec<WalletShare>,
                ContractError,
            >(ContractError::WrongRatio) && final(self)@ == old(self)@,
            is_admin(sender@, *admin) && ratio_sum(dev_wallet_list@) == RATIO_ONE ==> r is Ok
                && final(self)@ == (LedgerView { accumulated_fee: 0, ..old(self)@ }),
            r matches Ok(shares) ==> {
                &&& shares@.len() == dev_wallet_list@.len()
                &&& forall|i: int|
                    0 <= i < shares@.len() ==> {
                        &&& (#[trigger] shares@[i]).address == dev_wallet_list@[i].address
                        &&& shares@[i].amount == old(self)@.accumulated_fee
                            * dev_wallet_list@[i].ratio / (RATIO_ONE as int)
                    }
            },
    {
        if let Err(e) = assert_is_admin(sender, admin) {
            return Err(e);
        }
        let ghost w = dev_wallet_list@;
        let n = dev_wallet_list.len();
        let mut total: u128 = 0;
        let mut within = true;
        let mut i: usize = 0;
        proof {
            assert(w.take(0) =~= Seq::<WalletInfo>::empty());
        }
        while i < n && within
            invariant
                w == dev_wallet_list@,
                n == w.len(),
                i <= n,
                within ==> total == ratio_sum(w.take(i as int)),
                total <= RATIO_ONE,
                !within ==> ratio_sum(w) > RATIO_ONE,
            decreases n - i,
        {
            proof {
                assert(w.take(i + 1).drop_last() =~= w.take(i as int));
                lemma_ratio_sum_prefix(w, i + 1);
            }
            let ratio = dev_wallet_list[i].ratio;
            if ratio > RATIO_ONE - total {
                within = false;
            } else {
                total = total + ratio;
            }
            i += 1;
        }
        proof {
            assert(w.take(n as int) =~= w);
        }
        if !within || total != RATIO_ONE {
            return Err(ContractError::WrongRatio);
        }
        let fee = self.accumulated_fee;
        let mut shares: Vec<WalletShare> = Vec::new();
        let mut j: usize = 0;
        while j < n
            invariant
                self@ == old(self)@,
                w == dev_wallet_list@,
                n == w.len(),
                ratio_sum(w) == RATIO_ONE,
                j <= n,
                shares@.len() == j,
                forall|m: int|
                    0 <= m < j ==> {
                        &&& (#[trigger] shares@[m]).address == w[m].address
                        &&& shares@[m].amount == fee * w[m].ratio / (RATIO_ONE as int)
                    },
            decreases n - j,
        {
            let wallet = &dev_wallet_list[j];
            proof {
                lemma_ratio_sum_prefix(w, j as int);
                lemma_ratio_sum_prefix(w, j + 1);
                assert(w.take(j + 1).drop_last() =~= w.take(j as int));
                lemma_share_within_pool(fee as int, wallet.ratio as int, RATIO_ONE as int);
            }
            let amount = mul_ratio(fee, wallet.ratio);
            shares.push(WalletShare { address: wallet.address.clone(), amount });
            j += 1;
        }
        let ghost before = self@;
        self.accumulated_fee = 0;
        proof {
            lemma_wf_settings_free(self@, before);
        }
        Ok(shares)
    }

    /// The net stakes of `player` on the bull and on the bear side of round
    /// `round_id`.
    fn stake(&self, round_id: u128, player: &String) -> (r: (u128, u128))
        requires
            keys_unique(self@.bets),
        ensures
            r.0 == stake_on(self@.bets, round_id, player@, Direction::Bull),
            r.1 == stake_on(self@.bets, round_id, player@, Direction::Bear),
    {
        match self.find_bet(round_id, player) {
            Some(j) => {
                let ghost bets = self@.bets;
                proof {
                    let c = choose|c: int|
                        0 <= c < bets.len() && #[trigger] bets[c].round_id == round_id
                            && bets[c].player@ == player@;
                    if c < j {
                        assert(!crate::bets::same_key(bets[c], bets[j as int]));
                    } else if j < c {
                        assert(!crate::bets::same_key(bets[j as int], bets[c]));
                    }
                    assert(c == j);
                }
                let b = &self.bets[j];
                match b.direction {
                    Direction::Bull => (b.amount, 0),
                    Direction::Bear => (0, b.amount),
                }
            },
            None => (0, 0),
        }
    }

    /// The stakes of `player` in the bidding and in the live round.
    pub fn my_current_position(&self, player: &String) -> (r: MyCurrentPositionResponse)
        requires
            self@.wf(),
        ensures
            r.next_bull_amount == match self@.next_round {
                Some(n) => stake_on(self@.bets, n.id, player@, Direction::Bull),
                None => 0,
            },
            r.next_bear_amount == match self@.next_round {
                Some(n) => stake_on(self@.bets, n.id, player@, Direction::Bear),
                None => 0,
            },
            r.live_bull_amount == match self@.live_round {
                Some(l) => stake_on(self@.bets, l.id, player@, Direction::Bull),
                None => 0,
            },
            r.live_bear_amount == match self@.live_round {
                Some(l) => stake_on(self@.bets, l.id, player@, Direction::Bear),
                None => 0,
            },
    {
        let (next_bull_amount, next_bear_amount) = match self.next_round {
            Some(n) => self.stake(n.id, player),
            None => (0, 0),
        };
        let (live_bull_amount, live_bear_amount) = match self.live_round {
            Some(l) => self.stake(l.id, player),
            None => (0, 0),
        };
        MyCurrentPositionResponse {
            live_bear_amount,
            live_bull_amount,
            next_bear_amount,
            next_bull_amount,
        }
    }

    /// One page of the bets of `player`, by ascending round id, on rounds
    /// after `start_after`; `limit` bets at most, `DEFAULT_LIMIT`
    /// when not given and never more than `MAX_LIMIT`.
    pub fn my_game_list(&self, player: &String, start_after: Option<u128>, limit: Option<u32>) -> (r:
        MyGameResponse)
        requires
            self@.wf(),
        ensures
            forall|i: int, j: int|
                0 <= i < j < r.my_game_list@.len() ==> (#[trigger] r.my_game_list@[i]).round_id < (
                #[trigger] r.my_game_list@[j]).round_id,
            ({
                let h = history(self@.bets, player@, start_after);
                r.my_game_list@ == h.take(
                    if page_size(limit) < h.len() {
                        page_size(limit) as int
                    } else {
                        h.len() as int
                    },
                )
            }),
    {
        let page: u32 = match limit {
            None => DEFAULT_LIMIT,
            Some(l) => if l > MAX_LIMIT {
                MAX_LIMIT
            } else {
                l
            },
        };
        let ghost bets = self@.bets;
        let mut out: Vec<BetInfo> = Vec::new();
        let mut i: usize = 0;
        proof {
            assert(bets.take(0) =~= Seq::<BetInfo>::empty());
        }
        while i < self.bets.len() && out.len() < page as usize
            invariant
                bets == self@.bets,
                page == page_size(limit),
                i <= bets.len(),
                out@.len() <= page,
                out@ == history(bets.take(i as int), player@, start_after),
            decreases bets.len() - i,
        {
            let b = &self.bets[i];
            proof {
                assert(bets.take(i + 1).drop_last() =~= bets.take(i as int));
                assert(bets.take(i + 1).last() == bets[i as int]);
            }
            let after = match start_after {
                None => true,
                Some(a) => b.round_id > a,
            };
            if b.player == *player && after {
                out.push(clone_bet(b));
            }
            i += 1;
        }
        proof {
            lemma_history_ascending(bets, player@, start_after);
            lemma_history_prefix(bets, player@, start_after, i as int);
            if i == bets.len() {
                assert(bets.take(i as int) =~= bets);
            }
        }
        MyGameResponse { my_game_list: out }
    }
}

} // verus!
