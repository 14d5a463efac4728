use vidbloq_market::consensus::ValidatorVoteOnOutcome;
use vidbloq_market::error::StreamError;
use vidbloq_market::events::ValidationVote;
use vidbloq_market::key::AccountKey;
use vidbloq_market::state::{
    BettingMarket, BettorPosition, MarketOutcome, MarketResolution, MarketType,
    RandomnessUseCase, ResolutionStatus, ValidatorVote,
};

fn voter(n: u8) -> AccountKey {
    AccountKey { bytes: [n; 32] }
}

fn choice(id: u8) -> MarketOutcome {
    MarketOutcome {
        id,
        description: String::from("choice"),
        total_shares: 0,
        liquidity_reserve: 1_000,
        total_backing: 0,
    }
}

fn ballot(validator: u8, voted_outcome: u8, stake_amount: u64) -> ValidatorVote {
    ValidatorVote { validator: voter(validator), voted_outcome, vote_timestamp: 0, stake_amount }
}

fn vote_context(validator: u8, stake: u64, committee: Vec<AccountKey>) -> ValidatorVoteOnOutcome {
    ValidatorVoteOnOutcome {
        validator: voter(validator),
        market_key: voter(200),
        market: BettingMarket {
            stream: voter(201),
            host: voter(202),
            mint: voter(203),
            market_type: MarketType::MultiOutcome { max: 3 },
            outcomes: vec![choice(0), choice(1), choice(2)],
            total_pool: 0,
            total_liquidity: 0,
            resolution_time: 100,
            resolved: false,
            winning_outcome: None,
            randomness_requested: false,
            fee_percentage: 0,
            created_at: 0,
            bump: 0,
        },
        resolution: MarketResolution {
            market: voter(200),
            proposed_outcome: None,
            validators: committee,
            validator_votes: Vec::new(),
            dispute_end_time: 3_700,
            resolution_status: ResolutionStatus::UnderValidation,
            randomness_seed: [0; 32],
            randomness_use_case: RandomnessUseCase::ValidatorSelection,
            total_stake_validating: 0,
            eligible_validators: Vec::new(),
            bump: 0,
        },
        position: BettorPosition {
            bettor: voter(validator),
            market: voter(200),
            positions: Vec::new(),
            total_invested: stake,
            total_returned: 0,
            has_claimed: false,
            is_eligible_validator: true,
            created_at: 0,
            bump: 0,
        },
    }
}

fn tally_context(votes: Vec<ValidatorVote>, total: u64) -> ValidatorVoteOnOutcome {
    let mut ctx = vote_context(1, 0, vec![voter(1), voter(2), voter(3)]);
    ctx.resolution.validator_votes = votes;
    ctx.resolution.total_stake_validating = total;
    ctx
}

#[test]
fn split_stake_does_not_finalize() {
    // 40 / 35 / 25 of 100: the most is 40, two thirds are 66
    let mut ctx = tally_context(vec![ballot(1, 0, 40), ballot(2, 1, 35), ballot(3, 2, 25)], 100);
    let before = ctx.clone();
    assert_eq!(ctx.check_consensus(), Ok(()));
    assert_eq!(ctx, before);
    assert_eq!(ctx.resolution.resolution_status, ResolutionStatus::UnderValidation);
    assert_eq!(ctx.resolution.proposed_outcome, None);
}

#[test]
fn two_thirds_of_the_stake_finalize() {
    let mut ctx = tally_context(vec![ballot(1, 2, 30), ballot(2, 1, 66), ballot(3, 2, 4)], 100);
    assert_eq!(ctx.check_consensus(), Ok(()));
    assert_eq!(ctx.resolution.resolution_status, ResolutionStatus::Finalized);
    assert_eq!(ctx.resolution.proposed_outcome, Some(1));

    let mut ctx = tally_context(vec![ballot(1, 2, 30), ballot(2, 1, 65), ballot(3, 2, 5)], 100);
    assert_eq!(ctx.check_consensus(), Ok(()));
    assert_eq!(ctx.resolution.resolution_status, ResolutionStatus::UnderValidation);
}

#[test]
fn stake_of_one_outcome_is_summed_over_its_votes() {
    let mut ctx = tally_context(vec![ballot(1, 2, 30), ballot(2, 1, 31), ballot(3, 2, 39)], 100);
    assert_eq!(ctx.check_consensus(), Ok(()));
    assert_eq!(ctx.resolution.resolution_status, ResolutionStatus::Finalized);
    assert_eq!(ctx.resolution.proposed_outcome, Some(2));
}

#[test]
fn equal_stakes_go_to_the_outcome_voted_first() {
    let mut ctx = tally_context(vec![ballot(1, 2, 50), ballot(2, 1, 50)], 60);
    assert_eq!(ctx.check_consensus(), Ok(()));
    assert_eq!(ctx.resolution.proposed_outcome, Some(2));

    let mut ctx = tally_context(vec![ballot(1, 1, 50), ballot(2, 2, 50)], 60);
    assert_eq!(ctx.check_consensus(), Ok(()));
    assert_eq!(ctx.resolution.proposed_outcome, Some(1));
}

#[test]
fn votes_without_stake_propose_the_first_outcome() {
    let mut ctx = tally_context(Vec::new(), 0);
    assert_eq!(ctx.check_consensus(), Ok(()));
    assert_eq!(ctx.resolution.resolution_status, ResolutionStatus::Finalized);
    assert_eq!(ctx.resolution.proposed_outcome, Some(0));
}

#[test]
fn evaluation_leaves_other_states_alone() {
    for status in [
        ResolutionStatus::AwaitingRandomness,
        ResolutionStatus::SelectingValidators,
        ResolutionStatus::Disputed,
        ResolutionStatus::Finalized,
        ResolutionStatus::ForcedByRandomness,
    ] {
        let mut ctx = tally_context(vec![ballot(1, 1, 100)], 100);
        ctx.resolution.resolution_status = status;
        let before = ctx.clone();
        assert_eq!(ctx.check_consensus(), Ok(()));
        assert_eq!(ctx, before);
    }
}

#[test]
fn stake_that_does_not_fit_stops_the_evaluation() {
    let mut ctx = tally_context(vec![ballot(1, 1, u64::MAX), ballot(2, 1, 1)], 100);
    let before = ctx.clone();
    assert_eq!(ctx.check_consensus(), Err(StreamError::MathOverflow));
    assert_eq!(ctx, before);
}

#[test]
fn votes_are_recorded_and_evaluated_at_quorum() {
    let committee = vec![voter(1), voter(2), voter(3)];
    let mut ctx = vote_context(1, 40_000_000, committee);
    assert_eq!(
        ctx.vote(0, 500),
        Ok(ValidationVote {
            market: voter(200),
            validator: voter(1),
            voted_outcome: 0,
            stake_weight: 40_000_000,
            timestamp: 500,
        })
    );
    assert_eq!(
        ctx.resolution.validator_votes,
        vec![ValidatorVote {
            validator: voter(1),
            voted_outcome: 0,
            vote_timestamp: 500,
            stake_amount: 40_000_000,
        }]
    );
    assert_eq!(ctx.resolution.total_stake_validating, 40_000_000);
    assert_eq!(ctx.resolution.resolution_status, ResolutionStatus::UnderValidation);

    ctx.validator = voter(2);
    ctx.position.total_invested = 35_000_000;
    assert!(ctx.vote(1, 501).is_ok());
    assert_eq!(ctx.resolution.total_stake_validating, 75_000_000);
    assert_eq!(ctx.resolution.resolution_status, ResolutionStatus::UnderValidation);

    ctx.validator = voter(3);
    ctx.position.total_invested = 25_000_000;
    assert!(ctx.vote(2, 502).is_ok());
    assert_eq!(ctx.resolution.total_stake_validating, 100_000_000);
    assert_eq!(ctx.resolution.validator_votes.len(), 3);
    // 40 of 100 million is below two thirds: 66_666_666
    assert_eq!(ctx.resolution.resolution_status, ResolutionStatus::UnderValidation);
    assert_eq!(ctx.resolution.proposed_outcome, None);
}

#[test]
fn vote_that_completes_a_supermajority_finalizes() {
    let committee = vec![voter(1), voter(2), voter(3)];
    let mut ctx = vote_context(1, 70_000_000, committee);
    assert!(ctx.vote(1, 1).is_ok());
    // one vote is below the quorum of two
    assert_eq!(ctx.resolution.resolution_status, ResolutionStatus::UnderValidation);
    ctx.validator = voter(2);
    ctx.position.total_invested = 30_000_000;
    assert!(ctx.vote(0, 2).is_ok());
    assert_eq!(ctx.resolution.resolution_status, ResolutionStatus::Finalized);
    assert_eq!(ctx.resolution.proposed_outcome, Some(1));
    // the market itself is not resolved by the vote
    assert!(!ctx.market.resolved);
    assert_eq!(ctx.market.winning_outcome, None);

    // a finalized resolution takes no further vote
    ctx.validator = voter(3);
    let before = ctx.clone();
    assert_eq!(ctx.vote(0, 3), Err(StreamError::InvalidResolutionState));
    assert_eq!(ctx, before);
}

#[test]
fn vote_outside_validation_is_refused() {
    let mut ctx = vote_context(1, 40_000_000, vec![voter(1)]);
    ctx.resolution.resolution_status = ResolutionStatus::AwaitingRandomness;
    let before = ctx.clone();
    assert_eq!(ctx.vote(0, 1), Err(StreamError::InvalidResolutionState));
    assert_eq!(ctx, before);
}

#[test]
fn vote_of_a_stranger_is_refused() {
    let mut ctx = vote_context(4, 40_000_000, vec![voter(1), voter(2)]);
    let before = ctx.clone();
    assert_eq!(ctx.vote(0, 1), Err(StreamError::NotValidator));
    assert_eq!(ctx, before);
}

#[test]
fn vote_without_the_required_stake_is_refused() {
    let mut ctx = vote_context(1, 9_999_999, vec![voter(1), voter(2)]);
    let before = ctx.clone();
    assert_eq!(ctx.vote(0, 1), Err(StreamError::InsufficientStakeForValidation));
    assert_eq!(ctx, before);
    ctx.position.total_invested = 10_000_000;
    assert!(ctx.vote(0, 1).is_ok());
}

#[test]
fn vote_for_an_unknown_outcome_is_refused() {
    let mut ctx = vote_context(1, 40_000_000, vec![voter(1), voter(2)]);
    let before = ctx.clone();
    assert_eq!(ctx.vote(3, 1), Err(StreamError::InvalidOutcome));
    assert_eq!(ctx, before);
}

#[test]
fn second_vote_of_a_validator_is_refused() {
    let mut ctx = vote_context(1, 40_000_000, vec![voter(1), voter(2), voter(3), voter(4)]);
    assert!(ctx.vote(0, 1).is_ok());
    let before = ctx.clone();
    assert_eq!(ctx.vote(1, 2), Err(StreamError::AlreadyVoted));
    assert_eq!(ctx, before);
}

#[test]
fn vote_that_overflows_the_validating_stake_is_refused() {
    let mut ctx = vote_context(1, 40_000_000, vec![voter(1), voter(2), voter(3), voter(4)]);
    ctx.resolution.total_stake_validating = u64::MAX - 1;
    let before = ctx.clone();
    assert_eq!(ctx.vote(0, 1), Err(StreamError::MathOverflow));
    assert_eq!(ctx, before);

    // the stake on one outcome does not fit once the vote is counted
    let mut ctx = vote_context(1, 40_000_000, vec![voter(1), voter(2)]);
    ctx.resolution.validator_votes = vec![ballot(2, 0, u64::MAX)];
    ctx.resolution.total_stake_validating = 0;
    let before = ctx.clone();
    assert_eq!(ctx.vote(0, 1), Err(StreamError::MathOverflow));
    assert_eq!(ctx, before);
}

#[test]
fn committee_of_one_finalizes_on_its_vote() {
    let mut ctx = vote_context(1, 10_000_000, vec![voter(1)]);
    assert!(ctx.vote(2, 9).is_ok());
    assert_eq!(ctx.resolution.resolution_status, ResolutionStatus::Finalized);
    assert_eq!(ctx.resolution.proposed_outcome, Some(2));
}
