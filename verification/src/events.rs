use vstd::prelude::*;

use crate::key::AccountKey;
use crate::state::MarketType;

verus! {

/// Notice that a market was opened.
#[derive(Clone, Debug, PartialEq, Eq)]
pub struct MarketCreated {
    pub market: AccountKey,
    pub stream: AccountKey,
    pub market_type: MarketType,
    pub outcomes: Vec<String>,
    pub timestamp: i64,
}

/// Notice that a bet was accepted. `price` is the payment that the caller has
/// to move from the bettor into the market's custody.
#[derive(Clone, Copy, Debug, PartialEq, Eq)]
pub struct BetPlaced {
    pub market: AccountKey,
    pub bettor: AccountKey,
    pub outcome_id: u8,
    pub shares: u64,
    pub price: u64,
    pub timestamp: i64,
}

/// Notice that a validator's vote was recorded.
#[derive(Clone, Copy, Debug, PartialEq, Eq)]
pub struct ValidationVote {
    pub market: AccountKey,
    pub validator: AccountKey,
    pub voted_outcome: u8,
    pub stake_weight: u64,
    pub timestamp: i64,
}

/// Notice that winnings were claimed. `payout` is the amount that the caller
/// has to move from the market's custody to the bettor.
#[derive(Clone, Copy, Debug, PartialEq, Eq)]
pub struct WinningsClaimed {
    pub market: AccountKey,
    pub bettor: AccountKey,
    pub payout: u64,
    pub timestamp: i64,
}

} // verus!
