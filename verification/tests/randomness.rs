use vidbloq_market::error::StreamError;
use vidbloq_market::key::AccountKey;
use vidbloq_market::randomness::{CallbackProcessRandomness, RequestMarketRandomness};
use vidbloq_market::state::{
    BettingMarket, EligibleValidator, MarketOutcome, MarketResolution, MarketType,
    RandomnessUseCase, ResolutionStatus, ValidatorVote,
};

fn seat(n: u8) -> AccountKey {
    AccountKey { bytes: [n; 32] }
}

fn candidate(n: u8) -> EligibleValidator {
    EligibleValidator { pubkey: seat(n), stake: 10_000_000 }
}

fn option(id: u8) -> MarketOutcome {
    MarketOutcome {
        id,
        description: String::from("option"),
        total_shares: 0,
        liquidity_reserve: 1_000,
        total_backing: 0,
    }
}

fn market_of(outcomes: u8) -> BettingMarket {
    BettingMarket {
        stream: seat(201),
        host: seat(202),
        mint: seat(203),
        market_type: MarketType::MultiOutcome { max: 10 },
        outcomes: (0..outcomes).map(option).collect(),
        total_pool: 0,
        total_liquidity: 0,
        resolution_time: 1_000,
        resolved: false,
        winning_outcome: None,
        randomness_requested: false,
        fee_percentage: 0,
        created_at: 0,
        bump: 0,
    }
}

fn unwritten_resolution() -> MarketResolution {
    MarketResolution {
        market: AccountKey::unset(),
        proposed_outcome: None,
        validators: Vec::new(),
        validator_votes: Vec::new(),
        dispute_end_time: 0,
        resolution_status: ResolutionStatus::AwaitingRandomness,
        randomness_seed: [0; 32],
        randomness_use_case: RandomnessUseCase::ValidatorSelection,
        total_stake_validating: 0,
        eligible_validators: Vec::new(),
        bump: 0,
    }
}

fn awaiting(use_case: RandomnessUseCase, pool: Vec<EligibleValidator>) -> MarketResolution {
    MarketResolution {
        market: seat(200),
        randomness_use_case: use_case,
        eligible_validators: pool,
        dispute_end_time: 4_600,
        ..unwritten_resolution()
    }
}

fn request_context() -> RequestMarketRandomness {
    RequestMarketRandomness {
        requestor: seat(50),
        market_key: seat(200),
        market: market_of(2),
        resolution: unwritten_resolution(),
    }
}

#[test]
fn first_request_opens_the_resolution() {
    let mut ctx = request_context();
    let pool = vec![candidate(3), candidate(1)];
    assert_eq!(
        ctx.request_randomness(RandomnessUseCase::ValidatorSelection, pool.clone(), 9, 1_000),
        Ok(())
    );
    assert_eq!(
        ctx.resolution,
        MarketResolution {
            market: seat(200),
            proposed_outcome: None,
            validators: Vec::new(),
            validator_votes: Vec::new(),
            dispute_end_time: 4_600,
            resolution_status: ResolutionStatus::AwaitingRandomness,
            randomness_seed: [0; 32],
            randomness_use_case: RandomnessUseCase::ValidatorSelection,
            total_stake_validating: 0,
            eligible_validators: pool,
            bump: 9,
        }
    );
    assert_eq!(ctx.market, market_of(2));
}

#[test]
fn later_request_keeps_votes_and_awaits_a_seed_again() {
    let mut ctx = request_context();
    ctx.resolution = MarketResolution {
        market: seat(200),
        proposed_outcome: Some(1),
        validators: vec![seat(1)],
        validator_votes: vec![ValidatorVote {
            validator: seat(1),
            voted_outcome: 1,
            vote_timestamp: 5,
            stake_amount: 10_000_000,
        }],
        dispute_end_time: 77,
        resolution_status: ResolutionStatus::Finalized,
        randomness_seed: [3; 32],
        randomness_use_case: RandomnessUseCase::ValidatorSelection,
        total_stake_validating: 10_000_000,
        eligible_validators: vec![candidate(1)],
        bump: 4,
    };
    let mut expected = ctx.resolution.clone();
    assert_eq!(
        ctx.request_randomness(RandomnessUseCase::TieBreaker, vec![candidate(8)], 9, 5),
        Ok(())
    );
    expected.randomness_use_case = RandomnessUseCase::TieBreaker;
    expected.eligible_validators = vec![candidate(8)];
    expected.resolution_status = ResolutionStatus::AwaitingRandomness;
    assert_eq!(ctx.resolution, expected);
}

#[test]
fn selection_is_requested_only_from_the_deadline_on() {
    let mut ctx = request_context();
    let before = ctx.clone();
    assert_eq!(
        ctx.request_randomness(RandomnessUseCase::ValidatorSelection, vec![candidate(1)], 0, 999),
        Err(StreamError::MarketNotReady)
    );
    assert_eq!(ctx, before);
    // the other uses do not wait for the deadline
    assert_eq!(ctx.request_randomness(RandomnessUseCase::TieBreaker, Vec::new(), 0, 999), Ok(()));
}

#[test]
fn selection_needs_a_candidate() {
    let mut ctx = request_context();
    let before = ctx.clone();
    assert_eq!(
        ctx.request_randomness(RandomnessUseCase::ValidatorSelection, Vec::new(), 0, 1_000),
        Err(StreamError::InsufficientValidators)
    );
    assert_eq!(ctx, before);
}

#[test]
fn dispute_window_must_fit_the_clock() {
    let mut ctx = request_context();
    ctx.market.resolution_time = 0;
    let before = ctx.clone();
    assert_eq!(
        ctx.request_randomness(RandomnessUseCase::TieBreaker, Vec::new(), 0, i64::MAX - 3_599),
        Err(StreamError::MathOverflow)
    );
    assert_eq!(ctx, before);
    assert_eq!(
        ctx.request_randomness(RandomnessUseCase::TieBreaker, Vec::new(), 0, i64::MAX - 3_600),
        Ok(())
    );
    assert_eq!(ctx.resolution.dispute_end_time, i64::MAX);
}

#[test]
fn tie_break_commits_the_drawn_outcome() {
    // the last byte decides: 7 mod 3 outcomes
    let mut ctx = CallbackProcessRandomness {
        market: market_of(3),
        resolution: awaiting(RandomnessUseCase::TieBreaker, Vec::new()),
    };
    assert_eq!(ctx.process_randomness([7; 32]), Ok(()));
    assert!(ctx.market.resolved);
    assert_eq!(ctx.market.winning_outcome, Some(1));
    assert_eq!(ctx.resolution.resolution_status, ResolutionStatus::ForcedByRandomness);
    assert_eq!(ctx.resolution.randomness_seed, [7; 32]);

    // a byte of 255 is passed over for three outcomes: the byte before it decides
    let mut seed = [0u8; 32];
    seed[31] = 255;
    seed[30] = 8;
    let mut ctx = CallbackProcessRandomness {
        market: market_of(3),
        resolution: awaiting(RandomnessUseCase::TieBreaker, Vec::new()),
    };
    assert_eq!(ctx.process_randomness(seed), Ok(()));
    assert_eq!(ctx.market.winning_outcome, Some(2));
}

#[test]
fn tie_break_always_draws_an_outcome_of_the_market() {
    for outcomes in 1u8..=9 {
        for byte in [0u8, 1, 2, 3, 100, 254, 255] {
            let mut ctx = CallbackProcessRandomness {
                market: market_of(outcomes),
                resolution: awaiting(RandomnessUseCase::TieBreaker, Vec::new()),
            };
            assert_eq!(ctx.process_randomness([byte; 32]), Ok(()));
            assert!(ctx.market.winning_outcome.unwrap() < outcomes);
        }
    }
}

#[test]
fn same_seed_draws_the_same_outcome() {
    let mut seed = [9u8; 32];
    seed[31] = 201;
    let mut first = CallbackProcessRandomness {
        market: market_of(5),
        resolution: awaiting(RandomnessUseCase::TieBreaker, Vec::new()),
    };
    let mut second = first.clone();
    assert_eq!(first.process_randomness(seed), Ok(()));
    assert_eq!(second.process_randomness(seed), Ok(()));
    assert_eq!(first, second);
    assert_eq!(first.market.winning_outcome, Some(1));
}

#[test]
fn tie_break_needs_an_outcome() {
    let mut ctx = CallbackProcessRandomness {
        market: market_of(0),
        resolution: awaiting(RandomnessUseCase::TieBreaker, Vec::new()),
    };
    let before = ctx.clone();
    assert_eq!(ctx.process_randomness([7; 32]), Err(StreamError::InvalidOutcome));
    assert_eq!(ctx, before);
}

#[test]
fn seed_seats_a_committee_from_the_ordered_candidates() {
    // count: 7 mod 4 = 3, place: 7 mod 3 = 1 in the order 10, 20, 30
    let mut ctx = CallbackProcessRandomness {
        market: market_of(2),
        resolution: awaiting(
            RandomnessUseCase::ValidatorSelection,
            vec![candidate(30), candidate(10), candidate(20)],
        ),
    };
    let market_before = ctx.market.clone();
    assert_eq!(ctx.process_randomness([7; 32]), Ok(()));
    assert_eq!(ctx.resolution.validators, vec![seat(20), seat(30), seat(10)]);
    assert_eq!(ctx.resolution.resolution_status, ResolutionStatus::UnderValidation);
    assert_eq!(ctx.resolution.randomness_seed, [7; 32]);
    assert_eq!(ctx.market, market_before);

    // count: 5 mod 4 = 1, place: 5 mod 3 = 2
    let mut ctx = CallbackProcessRandomness {
        market: market_of(2),
        resolution: awaiting(
            RandomnessUseCase::ValidatorSelection,
            vec![candidate(30), candidate(10), candidate(20)],
        ),
    };
    assert_eq!(ctx.process_randomness([5; 32]), Ok(()));
    assert_eq!(ctx.resolution.validators, vec![seat(30)]);
}

#[test]
fn committee_does_not_depend_on_the_order_of_the_candidates() {
    let orders: [[u8; 4]; 4] = [[1, 2, 3, 4], [4, 3, 2, 1], [2, 4, 1, 3], [3, 1, 4, 2]];
    for order in orders {
        let mut ctx = CallbackProcessRandomness {
            market: market_of(2),
            resolution: awaiting(
                RandomnessUseCase::ValidatorSelection,
                order.iter().map(|n| candidate(*n)).collect(),
            ),
        };
        // count: 6 mod 4 = 2, place: 6 mod 4 = 2
        assert_eq!(ctx.process_randomness([6; 32]), Ok(()));
        assert_eq!(ctx.resolution.validators, vec![seat(3), seat(4)]);
    }
}

#[test]
fn committee_is_no_larger_than_the_pool() {
    // count: 3, place: 7 mod 2 = 1
    let mut ctx = CallbackProcessRandomness {
        market: market_of(2),
        resolution: awaiting(
            RandomnessUseCase::ValidatorSelection,
            vec![candidate(9), candidate(8)],
        ),
    };
    assert_eq!(ctx.process_randomness([7; 32]), Ok(()));
    assert_eq!(ctx.resolution.validators, vec![seat(9), seat(8)]);

    // count: 4 mod 4 = 0
    let mut ctx = CallbackProcessRandomness {
        market: market_of(2),
        resolution: awaiting(
            RandomnessUseCase::ValidatorSelection,
            vec![candidate(9), candidate(8)],
        ),
    };
    assert_eq!(ctx.process_randomness([4; 32]), Ok(()));
    assert_eq!(ctx.resolution.validators, Vec::new());
    assert_eq!(ctx.resolution.resolution_status, ResolutionStatus::UnderValidation);
}

#[test]
fn seed_is_taken_once() {
    let mut ctx = CallbackProcessRandomness {
        market: market_of(3),
        resolution: awaiting(RandomnessUseCase::TieBreaker, Vec::new()),
    };
    assert_eq!(ctx.process_randomness([7; 32]), Ok(()));
    let after_first = ctx.clone();
    assert_eq!(ctx.process_randomness([8; 32]), Err(StreamError::InvalidResolutionState));
    assert_eq!(ctx, after_first);

    let mut ctx = CallbackProcessRandomness {
        market: market_of(2),
        resolution: awaiting(RandomnessUseCase::ValidatorSelection, vec![candidate(1)]),
    };
    assert_eq!(ctx.process_randomness([7; 32]), Ok(()));
    let after_first = ctx.clone();
    assert_eq!(ctx.process_randomness([7; 32]), Err(StreamError::InvalidResolutionState));
    assert_eq!(ctx, after_first);
}

#[test]
fn selection_without_candidates_is_refused() {
    let mut ctx = CallbackProcessRandomness {
        market: market_of(2),
        resolution: awaiting(RandomnessUseCase::ValidatorSelection, Vec::new()),
    };
    let before = ctx.clone();
    assert_eq!(ctx.process_randomness([7; 32]), Err(StreamError::InsufficientValidators));
    assert_eq!(ctx, before);
}

#[test]
fn selection_from_more_candidates_than_a_draw_covers_is_refused() {
    let wide = |n: u32| {
        let mut bytes = [0u8; 32];
        bytes[0] = (n / 256) as u8;
        bytes[1] = (n % 256) as u8;
        EligibleValidator { pubkey: AccountKey { bytes }, stake: 10_000_000 }
    };
    let pool: Vec<EligibleValidator> = (0..257u32).map(wide).collect();
    let mut ctx = CallbackProcessRandomness {
        market: market_of(2),
        resolution: awaiting(RandomnessUseCase::ValidatorSelection, pool),
    };
    let before = ctx.clone();
    assert_eq!(ctx.process_randomness([7; 32]), Err(StreamError::MathOverflow));
    assert_eq!(ctx, before);

    // 257 entries that put 251 keys forward are within what a draw covers
    let pool: Vec<EligibleValidator> = (0..257u32).map(|n| candidate((n % 251) as u8)).collect();
    let mut ctx = CallbackProcessRandomness {
        market: market_of(2),
        resolution: awaiting(RandomnessUseCase::ValidatorSelection, pool),
    };
    // count: 7 mod 4 = 3, place: 7 mod 251 = 7
    assert_eq!(ctx.process_randomness([7; 32]), Ok(()));
    assert_eq!(ctx.resolution.validators, vec![seat(7), seat(8), seat(9)]);
}

#[test]
fn candidate_put_forward_twice_is_seated_once() {
    // count: 2 mod 4 = 2, but only one key is put forward
    let mut ctx = CallbackProcessRandomness {
        market: market_of(2),
        resolution: awaiting(
            RandomnessUseCase::ValidatorSelection,
            vec![candidate(5), candidate(5)],
        ),
    };
    assert_eq!(ctx.process_randomness([2; 32]), Ok(()));
    assert_eq!(ctx.resolution.validators, vec![seat(5)]);

    // count: 3, place: 7 mod 2 = 1 among the keys 1 and 2
    let mut ctx = CallbackProcessRandomness {
        market: market_of(2),
        resolution: awaiting(
            RandomnessUseCase::ValidatorSelection,
            vec![candidate(2), candidate(1), candidate(2), candidate(1), candidate(1)],
        ),
    };
    assert_eq!(ctx.process_randomness([7; 32]), Ok(()));
    assert_eq!(ctx.resolution.validators, vec![seat(2), seat(1)]);

    let mut ctx = CallbackProcessRandomness {
        market: market_of(2),
        resolution: awaiting(
            RandomnessUseCase::ValidatorSelection,
            vec![candidate(4), candidate(4), candidate(9)],
        ),
    };
    ctx.resolution.resolution_status = ResolutionStatus::SelectingValidators;
    assert_eq!(ctx.select_validators(2, 0), Ok(()));
    assert_eq!(ctx.resolution.validators, vec![seat(4), seat(9)]);
}

#[test]
fn committee_never_holds_a_validator_twice() {
    let pools: [Vec<u8>; 4] = [vec![1, 1, 1], vec![3, 1, 3, 2], vec![9, 8, 9, 8, 7, 7], vec![6]];
    for pool in pools {
        for byte in 0u8..=40 {
            let mut ctx = CallbackProcessRandomness {
                market: market_of(2),
                resolution: awaiting(
                    RandomnessUseCase::ValidatorSelection,
                    pool.iter().map(|n| candidate(*n)).collect(),
                ),
            };
            assert_eq!(ctx.process_randomness([byte; 32]), Ok(()));
            let seated = &ctx.resolution.validators;
            for i in 0..seated.len() {
                assert!(pool.iter().any(|n| seat(*n) == seated[i]));
                for j in (i + 1)..seated.len() {
                    assert_ne!(seated[i], seated[j]);
                }
            }
            assert!(!ctx.market.resolved);
            assert_eq!(ctx.market.winning_outcome, None);
        }
    }
}

#[test]
fn seed_for_another_use_changes_nothing() {
    for use_case in [RandomnessUseCase::DisputeResolution, RandomnessUseCase::FairDistribution] {
        let mut ctx = CallbackProcessRandomness {
            market: market_of(2),
            resolution: awaiting(use_case, vec![candidate(1)]),
        };
        let before = ctx.clone();
        assert_eq!(ctx.process_randomness([7; 32]), Ok(()));
        assert_eq!(ctx, before);
    }
}

#[test]
fn committee_is_seated_only_while_selecting() {
    let mut ctx = CallbackProcessRandomness {
        market: market_of(2),
        resolution: awaiting(
            RandomnessUseCase::ValidatorSelection,
            vec![candidate(2), candidate(1), candidate(3)],
        ),
    };
    let before = ctx.clone();
    assert_eq!(ctx.select_validators(2, 0), Err(StreamError::InvalidResolutionState));
    assert_eq!(ctx, before);
    ctx.resolution.resolution_status = ResolutionStatus::SelectingValidators;
    assert_eq!(ctx.select_validators(2, 2), Ok(()));
    assert_eq!(ctx.resolution.validators, vec![seat(3), seat(1)]);
    assert_eq!(ctx.resolution.resolution_status, ResolutionStatus::UnderValidation);
}

#[test]
fn tie_is_broken_only_on_an_outcome_of_the_market() {
    let mut ctx = CallbackProcessRandomness {
        market: market_of(2),
        resolution: awaiting(RandomnessUseCase::TieBreaker, Vec::new()),
    };
    let before = ctx.clone();
    assert_eq!(ctx.break_tie([1; 32], 2), Err(StreamError::InvalidOutcome));
    assert_eq!(ctx, before);
    assert_eq!(ctx.break_tie([1; 32], 1), Ok(()));
    assert_eq!(ctx.market.winning_outcome, Some(1));
    assert!(ctx.market.resolved);
    assert_eq!(ctx.break_tie([1; 32], 0), Err(StreamError::InvalidResolutionState));
}
