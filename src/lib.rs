//! A binary-outcome price prediction market: rounds move from bidding to
//! live to finished, bets are recorded per (round, player), and settled
//! rounds pay the winning side pro rata out of the whole pool.
mod arith;
pub mod bets;
pub mod laws;
pub mod ledger;
pub mod oracle;
pub mod persist;
pub mod settlement;
pub mod state;
pub mod types;
