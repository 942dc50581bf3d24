//! Fees, winner determination and the payout of one bet.
use crate::arith::{checked_multiply_ratio, multiply_ratio, plus_seconds};
use crate::types::{
    BetInfo, Config, ContractError, Direction, FinishedRound, LiveRound, NextRound,
    FEE_DENOMINATOR, NANOS_PER_SECOND,
};
use vstd::arithmetic::div_mod::{lemma_div_by_multiple, lemma_div_is_ordered};
use vstd::arithmetic::mul::lemma_mul_left_inequality;
use vstd::prelude::*;

verus! {

/// The burnt part of a bet of `gross`, rounded down.
pub open spec fn burn_fee_of(config: Config, gross: u128) -> int {
    config.burn_fee * gross / (FEE_DENOMINATOR as int)
}

/// The part of a bet of `gross` that the protocol keeps, rounded down.
pub open spec fn gaming_fee_of(config: Config, gross: u128) -> int {
    config.gaming_fee * gross / (FEE_DENOMINATOR as int)
}

/// The length of a round under `config`, in nanoseconds.
pub open spec fn round_nanos(config: Config) -> int {
    config.next_round_seconds * NANOS_PER_SECOND
}

/// Bulls win when the price rose, bears when it fell, nobody when it held.
pub open spec fn winner_of(open_price: u128, close_price: u128) -> Option<Direction> {
    if close_price > open_price {
        Some(Direction::Bull)
    } else if close_price < open_price {
        Some(Direction::Bear)
    } else {
        None
    }
}

/// The round `live` settled at `close_price`.
pub open spec fn finish(live: LiveRound, close_price: u128) -> FinishedRound {
    FinishedRound {
        id: live.id,
        bid_time: live.bid_time,
        open_time: live.open_time,
        close_time: live.close_time,
        open_price: live.open_price,
        close_price,
        winner: winner_of(live.open_price, close_price),
        bull_amount: live.bull_amount,
        bear_amount: live.bear_amount,
    }
}

/// The bidding round `round` made live at `now` with price `open_price`.
pub open spec fn went_live(round: NextRound, now: u64, open_price: u128, config: Config) -> LiveRound {
    LiveRound {
        id: round.id,
        bid_time: round.bid_time,
        open_time: now,
        close_time: (now + round_nanos(config)) as u64,
        open_price,
        bull_amount: round.bull_amount,
        bear_amount: round.bear_amount,
    }
}

/// The total staked on side `d` of `round`.
pub open spec fn side_amount(round: FinishedRound, d: Direction) -> u128 {
    match d {
        Direction::Bull => round.bull_amount,
        Direction::Bear => round.bear_amount,
    }
}

/// The whole pool of `round`.
pub open spec fn pool_of(round: FinishedRound) -> int {
    round.bull_amount + round.bear_amount
}

/// What `bet` is owed from the settled `round`: the stake back when one side
/// stayed empty or the price held, nothing on the losing side, and the
/// stake's share of the whole pool on the winning side.
pub open spec fn payout(round: FinishedRound, bet: BetInfo) -> int {
    if round.bull_amount == 0 || round.bear_amount == 0 {
        bet.amount as int
    } else {
        match round.winner {
            None => bet.amount as int,
            Some(w) => if w == bet.direction {
                pool_of(round) * bet.amount / (side_amount(round, w) as int)
            } else {
                0
            },
        }
    }
}

/// Floor division by the larger of two factors does not exceed the other.
pub proof fn lemma_share_within_pool(pool: int, stake: int, side: int)
    requires
        0 <= pool,
        0 <= stake <= side,
        0 < side,
    ensures
        0 <= pool * stake / side <= pool,
{
    if pool > 0 {
        lemma_mul_left_inequality(pool, stake, side);
    }
    assert(0 <= pool * stake) by (nonlinear_arith)
        requires
            0 <= pool,
            0 <= stake,
    ;
    lemma_div_is_ordered(0, pool * stake, side);
    lemma_div_is_ordered(pool * stake, pool * side, side);
    lemma_div_by_multiple(pool, side);
}

/// The fee at `rate` of `gross`: `rate * gross / FEE_DENOMINATOR`, or
/// `Overflow` when that does not fit in 128 bits.
fn fee_at(rate: u128, gross: u128) -> (r: Result<u128, ContractError>)
    ensures
        r is Ok <==> rate * gross / (FEE_DENOMINATOR as int) <= u128::MAX,
        r is Ok ==> r->Ok_0 == rate * gross / (FEE_DENOMINATOR as int),
        r is Err ==> r->Err_0 == ContractError::Overflow,
{
    match checked_multiply_ratio(rate, gross, FEE_DENOMINATOR) {
        Ok(v) => Ok(v),
        Err(_) => Err(ContractError::Overflow),
    }
}

pub fn compute_burn_fee(config: &Config, gross: u128) -> (r: Result<u128, ContractError>)
    ensures
        r is Ok <==> burn_fee_of(*config, gross) <= u128::MAX,
        r is Ok ==> r->Ok_0 == burn_fee_of(*config, gross),
        r is Err ==> r->Err_0 == ContractError::Overflow,
{
    fee_at(config.burn_fee, gross)
}

pub fn compute_gaming_fee(config: &Config, gross: u128) -> (r: Result<u128, ContractError>)
    ensures
        r is Ok <==> gaming_fee_of(*config, gross) <= u128::MAX,
        r is Ok ==> r->Ok_0 == gaming_fee_of(*config, gross),
        r is Err ==> r->Err_0 == ContractError::Overflow,
{
    fee_at(config.gaming_fee, gross)
}

/// The time one round length after `start`, or `Overflow`.
pub fn round_end(config: &Config, start: u64) -> (r: Result<u64, ContractError>)
    ensures
        r is Ok <==> start + round_nanos(*config) <= u64::MAX,
        r is Ok ==> r->Ok_0 == start + round_nanos(*config),
        r is Err ==> r->Err_0 == ContractError::Overflow,
{
    let max_seconds: u64 = u64::MAX / NANOS_PER_SECOND;
    if config.next_round_seconds > max_seconds as u128 {
        return Err(ContractError::Overflow);
    }
    let seconds: u64 = config.next_round_seconds as u64;
    assert(seconds * NANOS_PER_SECOND <= u64::MAX) by (nonlinear_arith)
        requires
            seconds <= max_seconds,
            max_seconds == u64::MAX / NANOS_PER_SECOND,
    ;
    let nanos: u64 = seconds * NANOS_PER_SECOND;
    if start > u64::MAX - nanos {
        return Err(ContractError::Overflow);
    }
    Ok(plus_seconds(start, seconds))
}

/// Makes the bidding round `round` live at `now`: the round is open from
/// `now` and closes one round length later.
pub fn compute_round_open(round: &NextRound, now: u64, open_price: u128, config: &Config) -> (r:
    Result<LiveRound, ContractError>)
    ensures
        r is Ok <==> now + round_nanos(*config) <= u64::MAX,
        r is Ok ==> r->Ok_0 == went_live(*round, now, open_price, *config),
        r is Err ==> r->Err_0 == ContractError::Overflow,
{
    let close_time = round_end(config, now)?;
    Ok(
        LiveRound {
            id: round.id,
            bid_time: round.bid_time,
            open_time: now,
            close_time,
            open_price,
            bull_amount: round.bull_amount,
            bear_amount: round.bear_amount,
        },
    )
}

/// Settles the live round at `close_price`.
pub fn compute_round_close(round: &LiveRound, close_price: u128) -> (r: FinishedRound)
    ensures
        r == finish(*round, close_price),
{
    let winner = if close_price > round.open_price {
        Some(Direction::Bull)
    } else if close_price < round.open_price {
        Some(Direction::Bear)
    } else {
        None
    };
    FinishedRound {
        id: round.id,
        bid_time: round.bid_time,
        open_time: round.open_time,
        close_time: round.close_time,
        open_price: round.open_price,
        close_price,
        winner,
        bull_amount: round.bull_amount,
        bear_amount: round.bear_amount,
    }
}

/// What `bet` is owed from the settled `round`. The bet must belong to the
/// round's pool: its stake is part of its side's total.
pub fn settle_bet(round: &FinishedRound, bet: &BetInfo) -> (r: u128)
    requires
        pool_of(*round) <= u128::MAX,
        bet.amount <= side_amount(*round, bet.direction),
    ensures
        r == payout(*round, *bet),
        r <= pool_of(*round),
{
    if round.bull_amount == 0 || round.bear_amount == 0 {
        return bet.amount;
    }
    let pool: u128 = round.bull_amount + round.bear_amount;
    match round.winner {
        None => bet.amount,
        Some(w) => {
            if w == bet.direction {
                let side = match w {
                    Direction::Bull => round.bull_amount,
                    Direction::Bear => round.bear_amount,
                };
                proof {
                    lemma_share_within_pool(pool as int, bet.amount as int, side as int);
                }
                multiply_ratio(pool, bet.amount, side)
            } else {
                0
            }
        },
    }
}

} // verus!
