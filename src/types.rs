use vstd::prelude::*;
use vstd::string::StringExecFns;

verus! {

/// The side of a bet: the price goes up (`Bull`) or down (`Bear`).
#[derive(PartialEq, Eq, Structural, Clone, Copy, Debug)]
pub enum Direction {
    Bull,
    Bear,
}

impl Direction {
    pub open spec fn name(self) -> Seq<char> {
        match self {
            Direction::Bull => seq!['b', 'u', 'l', 'l'],
            Direction::Bear => seq!['b', 'e', 'a', 'r'],
        }
    }

    /// The lower-case name of the side, as it appears in events.
    pub fn to_string(&self) -> (r: String)
        ensures
            r@ == self.name(),
    {
        match self {
            Direction::Bull => {
                let r = String::from_str("bull");
                proof {
                    reveal_strlit("bull");
                }
                r
            },
            Direction::Bear => {
                let r = String::from_str("bear");
                proof {
                    reveal_strlit("bear");
                }
                r
            },
        }
    }
}


/// Fee rates are stored in hundredths of a percent of this unit: a fee of
/// `f` takes `gross * f / (FEE_PRECISION * 100)`.
pub const FEE_PRECISION: u128 = 100;

/// The denominator of every fee computation.
pub const FEE_DENOMINATOR: u128 = 10000;

/// Ratios are fixed-point values with eighteen decimal places: this is 1.
pub const RATIO_ONE: u128 = 1_000_000_000_000_000_000;

/// Timestamps are nanoseconds since the epoch.
pub const NANOS_PER_SECOND: u64 = 1_000_000_000;

/// Parameters which the admin may change.
#[derive(Clone, Debug, PartialEq, Eq)]
pub struct Config {
    /// The length in seconds of every round that is opened from now on.
    pub next_round_seconds: u128,
    pub fast_oracle_addr: String,
    pub minimum_bet: u128,
    /// Share of each bet that is burnt, in units of 1 / (FEE_PRECISION * 100).
    pub burn_fee: u128,
    /// Share of each bet that the protocol keeps, in the same units.
    pub gaming_fee: u128,
    pub token_addr: String,
}

/// An update of some of the fields of a `Config`; `None` keeps a field.
#[derive(Clone, Debug, PartialEq, Eq)]
pub struct PartialConfig {
    pub next_round_seconds: Option<u128>,
    pub fast_oracle_addr: Option<String>,
    pub minimum_bet: Option<u128>,
    pub burn_fee: Option<u128>,
    pub gaming_fee: Option<u128>,
    pub token_addr: Option<String>,
}

/// The round that accepts bets.
#[derive(Clone, Copy, Debug, PartialEq, Eq, Structural)]
pub struct NextRound {
    pub id: u128,
    pub bid_time: u64,
    pub open_time: u64,
    pub close_time: u64,
    pub bull_amount: u128,
    pub bear_amount: u128,
}

/// The round whose opening price is known and which waits for its close.
#[derive(Clone, Copy, Debug, PartialEq, Eq, Structural)]
pub struct LiveRound {
    pub id: u128,
    pub bid_time: u64,
    pub open_time: u64,
    pub close_time: u64,
    pub open_price: u128,
    pub bull_amount: u128,
    pub bear_amount: u128,
}

/// A settled round; it never changes once archived.
#[derive(Clone, Copy, Debug, PartialEq, Eq, Structural)]
pub struct FinishedRound {
    pub id: u128,
    pub bid_time: u64,
    pub open_time: u64,
    pub close_time: u64,
    pub open_price: u128,
    pub close_price: u128,
    /// `None` when the price did not move: every bettor gets the stake back.
    pub winner: Option<Direction>,
    pub bull_amount: u128,
    pub bear_amount: u128,
}

/// One bet: `amount` is what stays in the pool once the fees are taken.
#[derive(Clone, Debug, PartialEq, Eq)]
pub struct BetInfo {
    pub player: String,
    pub round_id: u128,
    pub amount: u128,
    pub direction: Direction,
}

/// A wallet that receives the share `ratio / RATIO_ONE` of the collected fees.
#[derive(Clone, Debug, PartialEq, Eq)]
pub struct WalletInfo {
    pub address: String,
    pub ratio: u128,
}

/// What one wallet receives from a fee distribution.
#[derive(Clone, Debug, PartialEq, Eq)]
pub struct WalletShare {
    pub address: String,
    pub amount: u128,
}

/// What a taken bet costs the player and adds to the pool.
#[derive(Clone, Copy, Debug, PartialEq, Eq, Structural)]
pub struct BetReceipt {
    /// The net stake recorded.
    pub amount: u128,
    /// Burnt straight from the player's balance.
    pub burn_fee: u128,
    /// Kept by the protocol until distributed.
    pub gaming_fee: u128,
    /// Moved from the player into custody: the bet less the burnt part.
    pub custody_amount: u128,
    /// The new total of the side bet on.
    pub side_total: u128,
}

/// What one advance of the rounds did.
#[derive(Clone, Copy, Debug, PartialEq, Eq, Structural)]
pub struct AdvanceReport {
    /// The live round that was settled.
    pub closed: Option<FinishedRound>,
    /// The bidding round that went live.
    pub opened: Option<LiveRound>,
    /// The id of the bidding round that was opened.
    pub bidding_opened: Option<u128>,
}

#[derive(Clone, Copy, Debug, PartialEq, Eq, Structural)]
pub struct MigrateMsg {}

#[derive(Clone, Copy, Debug, PartialEq, Eq, Structural)]
pub struct StatusResponse {
    pub bidding_round: Option<NextRound>,
    pub live_round: Option<LiveRound>,
}

/// The net stake of one address in the bidding and in the live round.
#[derive(Clone, Copy, Debug, PartialEq, Eq, Structural)]
pub struct MyCurrentPositionResponse {
    pub live_bear_amount: u128,
    pub live_bull_amount: u128,
    pub next_bear_amount: u128,
    pub next_bull_amount: u128,
}

#[derive(Clone, Debug, PartialEq, Eq)]
pub struct MyGameResponse {
    pub my_game_list: Vec<BetInfo>,
}

#[derive(Clone, Copy, Debug, PartialEq, Eq, Structural)]
pub struct PendingRewardResponse {
    pub pending_reward: u128,
}

#[derive(Clone, Copy, Debug, PartialEq, Eq, Structural)]
pub enum ContractError {
    /// The sender is not the admin.
    Unauthorized,
    /// Bets and round advancement are paused.
    Paused,
    /// The bet names a round that is not the one accepting bets.
    WrongRound,
    /// The round named by the bet stopped accepting bets.
    BiddingClosed,
    /// The player has already bet on this round.
    AlreadyBet,
    /// The player is owed nothing.
    NothingToClaim,
    /// The wallet ratios do not add up to exactly one.
    WrongRatio,
    /// No round with the requested id has finished.
    NotFound,
    /// An amount, a time or a counter would leave its range.
    Overflow,
}

} // verus!
