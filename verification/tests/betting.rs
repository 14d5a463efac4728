use vidbloq_market::betting::PlaceBet;
use vidbloq_market::error::StreamError;
use vidbloq_market::events::BetPlaced;
use vidbloq_market::key::AccountKey;
use vidbloq_market::state::{
    BettingMarket, BettorPosition, MarketOutcome, MarketType, OutcomePosition,
};

fn key(n: u8) -> AccountKey {
    AccountKey { bytes: [n; 32] }
}

fn outcome(id: u8, reserve: u64) -> MarketOutcome {
    MarketOutcome {
        id,
        description: format!("outcome {}", id),
        total_shares: 0,
        liquidity_reserve: reserve,
        total_backing: 0,
    }
}

fn open_market(reserve: u64) -> BettingMarket {
    BettingMarket {
        stream: key(1),
        host: key(2),
        mint: key(3),
        market_type: MarketType::Binary,
        outcomes: vec![outcome(0, reserve), outcome(1, reserve)],
        total_pool: 0,
        total_liquidity: 0,
        resolution_time: 1_000,
        resolved: false,
        winning_outcome: None,
        randomness_requested: false,
        fee_percentage: 500,
        created_at: 0,
        bump: 254,
    }
}

fn blank_position() -> BettorPosition {
    BettorPosition {
        bettor: AccountKey::unset(),
        market: AccountKey::unset(),
        positions: Vec::new(),
        total_invested: 0,
        total_returned: 0,
        has_claimed: false,
        is_eligible_validator: false,
        created_at: 0,
        bump: 0,
    }
}

fn bet_context(reserve: u64) -> PlaceBet {
    PlaceBet {
        bettor: key(9),
        betting_market_key: key(7),
        betting_market: open_market(reserve),
        bettor_position: blank_position(),
    }
}

#[test]
fn first_bet_opens_the_position_and_moves_the_market() {
    let mut ctx = bet_context(1_000_000_000);
    let receipt = ctx.place_bet(0, 1_000_000, 0, 251, 10).unwrap();
    assert_eq!(
        receipt,
        BetPlaced {
            market: key(7),
            bettor: key(9),
            outcome_id: 0,
            shares: 999_000,
            price: 1_000_000,
            timestamp: 10,
        }
    );
    let touched = &ctx.betting_market.outcomes[0];
    assert_eq!(touched.total_shares, 999_000);
    assert_eq!(touched.total_backing, 1_000_000);
    assert_eq!(touched.liquidity_reserve, 1_000_500_000);
    assert_eq!(ctx.betting_market.outcomes[1], outcome(1, 1_000_000_000));
    assert_eq!(ctx.betting_market.total_pool, 1_000_000);
    assert_eq!(ctx.bettor_position.bettor, key(9));
    assert_eq!(ctx.bettor_position.market, key(7));
    assert_eq!(ctx.bettor_position.created_at, 10);
    assert_eq!(ctx.bettor_position.bump, 251);
    assert_eq!(
        ctx.bettor_position.positions,
        vec![OutcomePosition {
            outcome_id: 0,
            shares: 999_000,
            // 1_000_000 * 1_000_000 / 999_000
            avg_entry_price: 1_001_001,
            invested: 1_000_000,
        }]
    );
    assert_eq!(ctx.bettor_position.total_invested, 1_000_000);
    assert!(!ctx.bettor_position.is_eligible_validator);
}

#[test]
fn second_bet_on_an_outcome_reprices_the_entry() {
    let mut ctx = bet_context(1_000_000_000);
    ctx.place_bet(0, 1_000_000, 0, 251, 10).unwrap();
    // reserve is now 1_000_500_000: 1_000_500_000 * 2_000_000 / 1_002_500_000
    let receipt = ctx.place_bet(0, 2_000_000, 0, 1, 20).unwrap();
    assert_eq!(receipt.shares, 1_996_009);
    assert_eq!(
        ctx.bettor_position.positions,
        vec![OutcomePosition {
            outcome_id: 0,
            shares: 2_995_009,
            // 3_000_000 * 1_000_000 / 2_995_009
            avg_entry_price: 1_001_666,
            invested: 3_000_000,
        }]
    );
    // an opened record keeps its creation time and bump
    assert_eq!(ctx.bettor_position.created_at, 10);
    assert_eq!(ctx.bettor_position.bump, 251);
    assert_eq!(ctx.bettor_position.total_invested, 3_000_000);
    assert_eq!(ctx.betting_market.total_pool, 3_000_000);
    assert_eq!(ctx.betting_market.outcomes[0].liquidity_reserve, 1_001_500_000);
}

#[test]
fn bet_on_another_outcome_appends_an_entry() {
    let mut ctx = bet_context(1_000_000_000);
    ctx.place_bet(0, 1_000_000, 0, 251, 10).unwrap();
    ctx.place_bet(1, 1_000_000, 0, 251, 11).unwrap();
    assert_eq!(ctx.bettor_position.positions.len(), 2);
    assert_eq!(ctx.bettor_position.positions[1].outcome_id, 1);
    assert_eq!(ctx.bettor_position.positions[1].shares, 999_000);
    assert_eq!(ctx.bettor_position.total_invested, 2_000_000);
}

#[test]
fn pool_equals_the_sum_of_accepted_payments() {
    let mut ctx = bet_context(1_000_000_000);
    let payments: [(u8, u64); 5] =
        [(0, 1_000_000), (1, 2_500_000), (0, 7), (1, 123_456_789), (0, 40_000_000)];
    let mut accepted: u64 = 0;
    for (outcome_id, payment) in payments {
        if ctx.place_bet(outcome_id, payment, 0, 0, 5).is_ok() {
            accepted += payment;
        }
        assert_eq!(ctx.betting_market.total_pool, accepted);
        let backing: u64 = ctx.betting_market.outcomes.iter().map(|o| o.total_backing).sum();
        assert_eq!(backing, accepted);
    }
    // a refused bet adds nothing
    assert_eq!(ctx.place_bet(0, 0, 0, 0, 5), Err(StreamError::InvalidAmount));
    assert_eq!(ctx.betting_market.total_pool, accepted);
}

#[test]
fn stake_threshold_makes_an_eligible_validator_for_good() {
    let mut ctx = bet_context(1_000_000_000);
    ctx.place_bet(0, 9_999_999, 0, 0, 5).unwrap();
    assert!(!ctx.bettor_position.is_eligible_validator);
    ctx.place_bet(1, 1, 0, 0, 5).unwrap_err();
    ctx.place_bet(1, 2, 0, 0, 5).unwrap();
    assert_eq!(ctx.bettor_position.total_invested, 10_000_001);
    assert!(ctx.bettor_position.is_eligible_validator);
}

#[test]
fn bet_on_resolved_market_is_refused() {
    let mut ctx = bet_context(1_000_000_000);
    ctx.betting_market.resolved = true;
    ctx.betting_market.winning_outcome = Some(0);
    let before = ctx.clone();
    assert_eq!(ctx.place_bet(0, 1_000_000, 0, 0, 5), Err(StreamError::MarketResolved));
    assert_eq!(ctx, before);
}

#[test]
fn bet_at_the_deadline_is_refused() {
    let mut ctx = bet_context(1_000_000_000);
    let before = ctx.clone();
    assert_eq!(ctx.place_bet(0, 1_000_000, 0, 0, 1_000), Err(StreamError::BettingClosed));
    assert_eq!(ctx, before);
    assert!(ctx.place_bet(0, 1_000_000, 0, 0, 999).is_ok());
}

#[test]
fn bet_on_unknown_outcome_is_refused() {
    let mut ctx = bet_context(1_000_000_000);
    let before = ctx.clone();
    assert_eq!(ctx.place_bet(2, 1_000_000, 0, 0, 5), Err(StreamError::InvalidOutcome));
    assert_eq!(ctx, before);
}

#[test]
fn bet_that_buys_no_share_is_refused() {
    let mut ctx = bet_context(10);
    let before = ctx.clone();
    assert_eq!(ctx.place_bet(0, 1, 0, 0, 5), Err(StreamError::InvalidAmount));
    assert_eq!(ctx, before);
}

#[test]
fn bet_below_the_minimum_shares_is_refused() {
    let mut ctx = bet_context(1_000_000_000);
    let before = ctx.clone();
    assert_eq!(ctx.place_bet(0, 1_000_000, 999_001, 0, 5), Err(StreamError::SlippageExceeded));
    assert_eq!(ctx, before);
    assert!(ctx.place_bet(0, 1_000_000, 999_000, 0, 5).is_ok());
}

#[test]
fn bet_that_overflows_a_counter_is_refused_whole() {
    let mut ctx = bet_context(1_000_000_000);
    ctx.betting_market.total_pool = u64::MAX - 10;
    let before = ctx.clone();
    assert_eq!(ctx.place_bet(0, 1_000_000, 0, 0, 5), Err(StreamError::MathOverflow));
    assert_eq!(ctx, before);

    // the entry price of a first purchase must fit: payment * 1_000_000
    let mut ctx = bet_context(u64::MAX / 2);
    let before = ctx.clone();
    assert_eq!(
        ctx.place_bet(0, 20_000_000_000_000, 0, 0, 5),
        Err(StreamError::MathOverflow)
    );
    assert_eq!(ctx, before);
}

#[test]
fn quote_prices_against_the_outcome_reserve() {
    let mut ctx = bet_context(1_000);
    ctx.betting_market.outcomes[1].liquidity_reserve = 3_000;
    assert_eq!(ctx.calculate_shares_for_purchase(0, 1_000), Ok(500));
    assert_eq!(ctx.calculate_shares_for_purchase(1, 1_000), Ok(750));
}
