use vstd::prelude::*;

use crate::key::AccountKey;

verus! {

/// Largest count of validators that a seed can draw for a committee; the
/// count drawn lies between 0 and this, both included.
pub const MIN_VALIDATORS: u8 = 3;

/// Stake a participant must have invested before it may validate.
pub const VALIDATOR_STAKE_REQUIREMENT: u64 = 10_000_000;

/// Seconds from the opening of a resolution record to the end of its dispute
/// window.
pub const DISPUTE_WINDOW: i64 = 3600;

/// Highest fee a market may charge, in basis points.
pub const MAX_FEE_BPS: u16 = 1000;

/// Denominator of a fee in basis points.
pub const BPS_DENOMINATOR: u64 = 10_000;

/// Scale of a fixed-point price.
pub const PRICE_SCALE: u64 = 1_000_000;

/// Reserve each outcome is seeded with when a market is opened without
/// liquidity of its own.
pub const DEFAULT_LIQUIDITY_PER_OUTCOME: u64 = 1_000_000_000;

#[derive(Clone, Copy, Debug, PartialEq, Eq, Structural)]
pub enum MarketType {
    Binary,
    MultiOutcome { max: u8 },
    OverUnder { line: u64 },
}

#[derive(Clone, Copy, Debug, PartialEq, Eq, Structural)]
pub enum ResolutionStatus {
    AwaitingRandomness,
    SelectingValidators,
    UnderValidation,
    Disputed,
    Finalized,
    ForcedByRandomness,
}

#[derive(Clone, Copy, Debug, PartialEq, Eq, Structural)]
pub enum RandomnessUseCase {
    ValidatorSelection,
    TieBreaker,
    DisputeResolution,
    FairDistribution,
}

/// One outcome of a market, with its share inventory and its reserve.
#[derive(Clone, Debug, PartialEq, Eq)]
pub struct MarketOutcome {
    pub id: u8,
    pub description: String,
    pub total_shares: u64,
    pub liquidity_reserve: u64,
    pub total_backing: u64,
}

/// A validator's recorded vote.
#[derive(Clone, Copy, Debug, PartialEq, Eq)]
pub struct ValidatorVote {
    pub validator: AccountKey,
    pub voted_outcome: u8,
    pub vote_timestamp: i64,
    pub stake_amount: u64,
}

/// A candidate for the validator committee.
#[derive(Clone, Copy, Debug, PartialEq, Eq)]
pub struct EligibleValidator {
    pub pubkey: AccountKey,
    pub stake: u64,
}

/// What one participant holds of one outcome.
#[derive(Clone, Copy, Debug, PartialEq, Eq, Structural)]
pub struct OutcomePosition {
    pub outcome_id: u8,
    pub shares: u64,
    pub avg_entry_price: u64,
    pub invested: u64,
}

/// A prediction market over one stream.
#[derive(Clone, Debug, PartialEq, Eq)]
pub struct BettingMarket {
    pub stream: AccountKey,
    pub host: AccountKey,
    pub mint: AccountKey,
    pub market_type: MarketType,
    pub outcomes: Vec<MarketOutcome>,
    pub total_pool: u64,
    pub total_liquidity: u64,
    pub resolution_time: i64,
    pub resolved: bool,
    pub winning_outcome: Option<u8>,
    pub randomness_requested: bool,
    pub fee_percentage: u16,
    pub created_at: i64,
    pub bump: u8,
}

/// The resolution record of one market.
#[derive(Clone, Debug, PartialEq, Eq)]
pub struct MarketResolution {
    pub market: AccountKey,
    pub proposed_outcome: Option<u8>,
    pub validators: Vec<AccountKey>,
    pub validator_votes: Vec<ValidatorVote>,
    pub dispute_end_time: i64,
    pub resolution_status: ResolutionStatus,
    pub randomness_seed: [u8; 32],
    pub randomness_use_case: RandomnessUseCase,
    pub total_stake_validating: u64,
    pub eligible_validators: Vec<EligibleValidator>,
    pub bump: u8,
}

/// What one participant holds in one market.
#[derive(Clone, Debug, PartialEq, Eq)]
pub struct BettorPosition {
    pub bettor: AccountKey,
    pub market: AccountKey,
    pub positions: Vec<OutcomePosition>,
    pub total_invested: u64,
    pub total_returned: u64,
    pub has_claimed: bool,
    pub is_eligible_validator: bool,
    pub created_at: i64,
    pub bump: u8,
}

/// Mathematical value of a [`MarketOutcome`].
pub struct OutcomeView {
    pub id: u8,
    pub description: Seq<char>,
    pub total_shares: nat,
    pub liquidity_reserve: nat,
    pub total_backing: nat,
}

/// Mathematical value of a [`BettingMarket`].
pub struct MarketView {
    pub stream: AccountKey,
    pub host: AccountKey,
    pub mint: AccountKey,
    pub market_type: MarketType,
    pub outcomes: Seq<OutcomeView>,
    pub total_pool: nat,
    pub total_liquidity: nat,
    pub resolution_time: int,
    pub resolved: bool,
    pub winning_outcome: Option<u8>,
    pub randomness_requested: bool,
    pub fee_percentage: nat,
    pub created_at: int,
    pub bump: u8,
}

/// Mathematical value of a [`MarketResolution`].
pub struct ResolutionView {
    pub market: AccountKey,
    pub proposed_outcome: Option<u8>,
    pub validators: Seq<AccountKey>,
    pub validator_votes: Seq<ValidatorVote>,
    pub dispute_end_time: int,
    pub resolution_status: ResolutionStatus,
    pub randomness_seed: Seq<u8>,
    pub randomness_use_case: RandomnessUseCase,
    pub total_stake_validating: nat,
    pub eligible_validators: Seq<EligibleValidator>,
    pub bump: u8,
}

/// Mathematical value of a [`BettorPosition`].
pub struct PositionView {
    pub bettor: AccountKey,
    pub market: AccountKey,
    pub positions: Seq<OutcomePosition>,
    pub total_invested: nat,
    pub total_returned: nat,
    pub has_claimed: bool,
    pub is_eligible_validator: bool,
    pub created_at: int,
    pub bump: u8,
}

impl View for MarketOutcome {
    type V = OutcomeView;

    open spec fn view(&self) -> OutcomeView {
        OutcomeView {
            id: self.id,
            description: self.description@,
            total_shares: self.total_shares as nat,
            liquidity_reserve: self.liquidity_reserve as nat,
            total_backing: self.total_backing as nat,
        }
    }
}

/// The outcomes of a market, each taken by its value.
pub open spec fn outcome_views(outcomes: Seq<MarketOutcome>) -> Seq<OutcomeView> {
    Seq::new(outcomes.len(), |i: int| outcomes[i]@)
}

impl View for BettingMarket {
    type V = MarketView;

    open spec fn view(&self) -> MarketView {
        MarketView {
            stream: self.stream,
            host: self.host,
            mint: self.mint,
            market_type: self.market_type,
            outcomes: outcome_views(self.outcomes@),
            total_pool: self.total_pool as nat,
            total_liquidity: self.total_liquidity as nat,
            resolution_time: self.resolution_time as int,
            resolved: self.resolved,
            winning_outcome: self.winning_outcome,
            randomness_requested: self.randomness_requested,
            fee_percentage: self.fee_percentage as nat,
            created_at: self.created_at as int,
            bump: self.bump,
        }
    }
}

impl View for MarketResolution {
    type V = ResolutionView;

    open spec fn view(&self) -> ResolutionView {
        ResolutionView {
            market: self.market,
            proposed_outcome: self.proposed_outcome,
            validators: self.validators@,
            validator_votes: self.validator_votes@,
            dispute_end_time: self.dispute_end_time as int,
            resolution_status: self.resolution_status,
            randomness_seed: self.randomness_seed@,
            randomness_use_case: self.randomness_use_case,
            total_stake_validating: self.total_stake_validating as nat,
            eligible_validators: self.eligible_validators@,
            bump: self.bump,
        }
    }
}

impl View for BettorPosition {
    type V = PositionView;

    open spec fn view(&self) -> PositionView {
        PositionView {
            bettor: self.bettor,
            market: self.market,
            positions: self.positions@,
            total_invested: self.total_invested as nat,
            total_returned: self.total_returned as nat,
            has_claimed: self.has_claimed,
            is_eligible_validator: self.is_eligible_validator,
            created_at: self.created_at as int,
            bump: self.bump,
        }
    }
}

/// Sum of the backing of all outcomes.
pub open spec fn total_backing(outcomes: Seq<OutcomeView>) -> nat
    decreases outcomes.len(),
{
    if outcomes.len() == 0 {
        0
    } else {
        total_backing(outcomes.drop_last()) + outcomes.last().total_backing
    }
}

/// Sum of what a participant invested over all its entries.
pub open spec fn total_invested(positions: Seq<OutcomePosition>) -> nat
    decreases positions.len(),
{
    if positions.len() == 0 {
        0
    } else {
        total_invested(positions.drop_last()) + positions.last().invested as nat
    }
}

/// Sum of the stake of all recorded votes.
pub open spec fn total_vote_stake(votes: Seq<ValidatorVote>) -> nat
    decreases votes.len(),
{
    if votes.len() == 0 {
        0
    } else {
        total_vote_stake(votes.drop_last()) + votes.last().stake_amount as nat
    }
}

impl MarketView {
    /// The pool holds exactly what was paid for the outcomes, every outcome
    /// carries its own index and has a reserve, and a market is resolved
    /// exactly when it names a winner.
    pub open spec fn wf(self) -> bool {
        &&& self.total_pool == total_backing(self.outcomes)
        &&& self.outcomes.len() <= 256
        &&& forall|i: int| 0 <= i < self.outcomes.len() ==> (#[trigger] self.outcomes[i]).id == i
        &&& forall|i: int|
            0 <= i < self.outcomes.len() ==> (#[trigger] self.outcomes[i]).liquidity_reserve > 0
        &&& self.resolved <==> self.winning_outcome is Some
    }
}

impl PositionView {
    /// No outcome has two entries, and the total is the sum of the entries.
    pub open spec fn wf(self) -> bool {
        &&& self.total_invested == total_invested(self.positions)
        &&& forall|i: int, j: int|
            0 <= i < j < self.positions.len() ==> (#[trigger] self.positions[i]).outcome_id != (
            #[trigger] self.positions[j]).outcome_id
    }
}

impl ResolutionView {
    /// No validator has two votes, and the validating stake is the sum of the
    /// votes' stakes.
    pub open spec fn wf(self) -> bool {
        &&& self.total_stake_validating == total_vote_stake(self.validator_votes)
        &&& forall|i: int, j: int|
            0 <= i < j < self.validator_votes.len() ==> (#[trigger] self.validator_votes[i]).validator
                != (#[trigger] self.validator_votes[j]).validator
    }
}

} // verus!
