use vstd::prelude::*;

use crate::amm::{amm_shares, lemma_shares_bounded, quote_result, shares_for_payment};
use crate::error::StreamError;
use crate::events::BetPlaced;
use crate::key::AccountKey;
use crate::state::{
    outcome_views, total_backing, total_invested, BettingMarket, BettorPosition, MarketView,
    OutcomePosition, OutcomeView, PositionView, PRICE_SCALE, VALIDATOR_STAKE_REQUIREMENT,
};

verus! {

/// Index of the first entry that a participant holds of an outcome, or the
/// number of entries where it holds none.
pub open spec fn position_slot(positions: Seq<OutcomePosition>, outcome_id: u8) -> int
    decreases positions.len(),
{
    if positions.len() == 0 {
        0
    } else if positions[0].outcome_id == outcome_id {
        0
    } else {
        1 + position_slot(positions.skip(1), outcome_id)
    }
}

/// An outcome after a payment bought `shares` of it: half of the payment
/// deepens the reserve.
pub open spec fn outcome_after_bet(outcome: OutcomeView, payment: nat, shares: nat) -> OutcomeView {
    OutcomeView {
        total_shares: outcome.total_shares + shares,
        total_backing: outcome.total_backing + payment,
        liquidity_reserve: outcome.liquidity_reserve + payment / 2,
        ..outcome
    }
}

/// A market after a payment was accepted on one of its outcomes.
pub open spec fn market_after_bet(market: MarketView, outcome_id: u8, payment: nat) -> MarketView {
    let outcome = market.outcomes[outcome_id as int];
    let shares = amm_shares(outcome.liquidity_reserve, payment);
    MarketView {
        outcomes: market.outcomes.update(
            outcome_id as int,
            outcome_after_bet(outcome, payment, shares),
        ),
        total_pool: market.total_pool + payment,
        ..market
    }
}

/// An entry after a further purchase, with its volume-weighted entry price.
pub open spec fn entry_after_bet(entry: OutcomePosition, payment: nat, shares: nat) -> OutcomePosition {
    OutcomePosition {
        outcome_id: entry.outcome_id,
        shares: (entry.shares + shares) as u64,
        avg_entry_price: (((entry.invested + payment) * PRICE_SCALE) / (entry.shares + shares)) as u64,
        invested: (entry.invested + payment) as u64,
    }
}

/// The entry that a first purchase of an outcome creates.
pub open spec fn first_entry(outcome_id: u8, payment: nat, shares: nat) -> OutcomePosition {
    OutcomePosition {
        outcome_id,
        shares: shares as u64,
        avg_entry_price: ((payment * PRICE_SCALE) / (shares as int)) as u64,
        invested: payment as u64,
    }
}

/// A participant's entries after a purchase: the first entry of the outcome
/// grows, or a new one is appended.
pub open spec fn positions_after_bet(
    positions: Seq<OutcomePosition>,
    outcome_id: u8,
    payment: nat,
    shares: nat,
) -> Seq<OutcomePosition> {
    let slot = position_slot(positions, outcome_id);
    if slot < positions.len() {
        positions.update(slot, entry_after_bet(positions[slot], payment, shares))
    } else {
        positions.push(first_entry(outcome_id, payment, shares))
    }
}

/// The record as a bet finds it: one whose participant is still unset is
/// opened for the bettor first.
pub open spec fn opened_position(
    position: PositionView,
    bettor: AccountKey,
    market: AccountKey,
    now: int,
    bump: u8,
) -> PositionView {
    if position.bettor.is_unset() {
        PositionView {
            bettor,
            market,
            positions: Seq::empty(),
            total_invested: 0,
            total_returned: 0,
            has_claimed: false,
            is_eligible_validator: false,
            created_at: now,
            bump,
        }
    } else {
        position
    }
}

/// An opened record after a purchase. Eligibility as a validator is gained at
/// the stake threshold and never lost.
pub open spec fn position_after_bet(
    position: PositionView,
    outcome_id: u8,
    payment: nat,
    shares: nat,
) -> PositionView {
    PositionView {
        positions: positions_after_bet(position.positions, outcome_id, payment, shares),
        total_invested: position.total_invested + payment,
        is_eligible_validator: position.is_eligible_validator || position.total_invested + payment
            >= VALIDATOR_STAKE_REQUIREMENT,
        ..position
    }
}

/// Whether some counter of the market or of the opened record cannot take the
/// purchase.
pub open spec fn bet_overflows(
    market: MarketView,
    position: PositionView,
    outcome_id: u8,
    payment: nat,
    shares: nat,
) -> bool {
    let outcome = market.outcomes[outcome_id as int];
    let slot = position_slot(position.positions, outcome_id);
    ||| outcome.total_shares + shares > u64::MAX
    ||| outcome.total_backing + payment > u64::MAX
    ||| outcome.liquidity_reserve + payment / 2 > u64::MAX
    ||| market.total_pool + payment > u64::MAX
    ||| slot < position.positions.len() && {
        let entry = position.positions[slot];
        ||| entry.invested + payment > u64::MAX
        ||| entry.shares + shares > u64::MAX
        ||| (entry.invested + payment) * PRICE_SCALE > u64::MAX
    }
    ||| slot >= position.positions.len() && payment * PRICE_SCALE > u64::MAX
    ||| position.total_invested + payment > u64::MAX
}

/// Why a bet is refused, if it is. The checks are listed in the order in which
/// they are made.
pub open spec fn bet_rejection(
    market: MarketView,
    position: PositionView,
    outcome_id: u8,
    payment: nat,
    min_shares: nat,
    now: int,
) -> Option<StreamError> {
    if market.resolved {
        Some(StreamError::MarketResolved)
    } else if now >= market.resolution_time {
        Some(StreamError::BettingClosed)
    } else if outcome_id >= market.outcomes.len() {
        Some(StreamError::InvalidOutcome)
    } else if payment == 0 {
        Some(StreamError::InvalidAmount)
    } else {
        let shares = amm_shares(market.outcomes[outcome_id as int].liquidity_reserve, payment);
        if shares == 0 {
            Some(StreamError::InvalidAmount)
        } else if shares < min_shares {
            Some(StreamError::SlippageExceeded)
        } else if bet_overflows(market, position, outcome_id, payment, shares) {
            Some(StreamError::MathOverflow)
        } else {
            None
        }
    }
}

/// The records that a bet touches: the market and the bettor's position in it.
#[derive(Clone, Debug, PartialEq, Eq)]
pub struct PlaceBet {
    pub bettor: AccountKey,
    pub betting_market_key: AccountKey,
    pub betting_market: BettingMarket,
    pub bettor_position: BettorPosition,
}

/// Finds the first entry of an outcome.
fn find_position(positions: &Vec<OutcomePosition>, outcome_id: u8) -> (slot: usize)
    ensures
        slot == position_slot(positions@, outcome_id),
        slot <= positions.len(),
{
    let mut i: usize = 0;
    assert(positions@.skip(0) =~= positions@);
    while i < positions.len()
        invariant
            i <= positions.len(),
            position_slot(positions@, outcome_id) == i + position_slot(
                positions@.skip(i as int),
                outcome_id,
            ),
        decreases positions.len() - i,
    {
        if positions[i].outcome_id == outcome_id {
            return i;
        }
        assert(positions@.skip(i as int).skip(1) =~= positions@.skip(i + 1));
        i += 1;
    }
    i
}

impl PlaceBet {
    /// Prices a payment against the reserve of one outcome.
    pub fn calculate_shares_for_purchase(&self, outcome_id: u8, usdc_amount: u64) -> (res: Result<
        u64,
        StreamError,
    >)
        requires
            (outcome_id as int) < self.betting_market.outcomes.len(),
        ensures
            res == quote_result(
                self.betting_market@.outcomes[outcome_id as int].liquidity_reserve,
                usdc_amount as nat,
            ),
    {
        shares_for_payment(
            self.betting_market.outcomes[outcome_id as usize].liquidity_reserve,
            usdc_amount,
        )
    }

    /// Accepts a payment on one outcome, or refuses it and changes nothing.
    ///
    /// On success the market and the bettor's record are updated together and
    /// the returned notice names the payment that has to reach the market's
    /// custody in the same step.
    pub fn place_bet(
        &mut self,
        outcome_id: u8,
        usdc_amount: u64,
        min_shares: u64,
        position_bump: u8,
        now: i64,
    ) -> (res: Result<BetPlaced, StreamError>)
        ensures
            old(self).betting_market@.wf() ==> final(self).betting_market@.wf(),
            old(self).bettor_position@.wf() ==> final(self).bettor_position@.wf(),
            match res {
                Ok(receipt) => {
                    let opened = opened_position(
                        old(self).bettor_position@,
                        old(self).bettor,
                        old(self).betting_market_key,
                        now as int,
                        position_bump,
                    );
                    let shares = amm_shares(
                        old(self).betting_market@.outcomes[outcome_id as int].liquidity_reserve,
                        usdc_amount as nat,
                    );
                    &&& bet_rejection(
                        old(self).betting_market@,
                        opened,
                        outcome_id,
                        usdc_amount as nat,
                        min_shares as nat,
                        now as int,
                    ) is None
                    &&& final(self).betting_market@ == market_after_bet(
                        old(self).betting_market@,
                        outcome_id,
                        usdc_amount as nat,
                    )
                    &&& final(self).bettor_position@ == position_after_bet(
                        opened,
                        outcome_id,
                        usdc_amount as nat,
                        shares,
                    )
                    &&& final(self).bettor == old(self).bettor
                    &&& final(self).betting_market_key == old(self).betting_market_key
                    &&& receipt == (BetPlaced {
                        market: old(self).betting_market_key,
                        bettor: old(self).bettor,
                        outcome_id,
                        shares: shares as u64,
                        price: usdc_amount,
                        timestamp: now,
                    })
                },
                Err(e) => {
                    &&& bet_rejection(
                        old(self).betting_market@,
                        opened_position(
                            old(self).bettor_position@,
                            old(self).bettor,
                            old(self).betting_market_key,
                            now as int,
                            position_bump,
                        ),
                        outcome_id,
                        usdc_amount as nat,
                        min_shares as nat,
                        now as int,
                    ) == Some(e)
                    &&& *final(self) == *old(self)
                },
            },
    {
        if self.betting_market.resolved {
            return Err(StreamError::MarketResolved);
        }
        if now >= self.betting_market.resolution_time {
            return Err(StreamError::BettingClosed);
        }
        let idx: usize = outcome_id as usize;
        if idx >= self.betting_market.outcomes.len() {
            return Err(StreamError::InvalidOutcome);
        }
        if usdc_amount == 0 {
            return Err(StreamError::InvalidAmount);
        }
        let shares_out: u64 = match self.calculate_shares_for_purchase(outcome_id, usdc_amount) {
            Ok(shares) => shares,
            Err(e) => {
                return Err(e);
            },
        };
        proof {
            lemma_shares_bounded(
                self.betting_market@.outcomes[outcome_id as int].liquidity_reserve,
                usdc_amount as nat,
            );
        }
        if shares_out < min_shares {
            return Err(StreamError::SlippageExceeded);
        }
        let new_total_shares: u64 = match self.betting_market.outcomes[idx].total_shares.checked_add(
            shares_out,
        ) {
            Some(v) => v,
            None => {
                return Err(StreamError::MathOverflow);
            },
        };
        let new_total_backing: u64 =
            match self.betting_market.outcomes[idx].total_backing.checked_add(usdc_amount) {
            Some(v) => v,
            None => {
                return Err(StreamError::MathOverflow);
            },
        };
        let new_reserve: u64 = match self.betting_market.outcomes[idx].liquidity_reserve.checked_add(
            usdc_amount / 2,
        ) {
            Some(v) => v,
            None => {
                return Err(StreamError::MathOverflow);
            },
        };
        let new_total_pool: u64 = match self.betting_market.total_pool.checked_add(usdc_amount) {
            Some(v) => v,
            None => {
                return Err(StreamError::MathOverflow);
            },
        };
        let fresh: bool = self.bettor_position.bettor.is_default();
        let held: usize = if fresh {
            0
        } else {
            self.bettor_position.positions.len()
        };
        let slot: usize = if fresh {
            0
        } else {
            find_position(&self.bettor_position.positions, outcome_id)
        };
        let entry: OutcomePosition = if slot < held {
            let current: OutcomePosition = self.bettor_position.positions[slot];
            let new_invested: u64 = match current.invested.checked_add(usdc_amount) {
                Some(v) => v,
                None => {
                    return Err(StreamError::MathOverflow);
                },
            };
            let new_shares: u64 = match current.shares.checked_add(shares_out) {
                Some(v) => v,
                None => {
                    return Err(StreamError::MathOverflow);
                },
            };
            let scaled: u64 = match new_invested.checked_mul(PRICE_SCALE) {
                Some(v) => v,
                None => {
                    return Err(StreamError::MathOverflow);
                },
            };
            OutcomePosition {
                outcome_id: current.outcome_id,
                shares: new_shares,
                avg_entry_price: scaled / new_shares,
                invested: new_invested,
            }
        } else {
            let scaled: u64 = match usdc_amount.checked_mul(PRICE_SCALE) {
                Some(v) => v,
                None => {
                    return Err(StreamError::MathOverflow);
                },
            };
            OutcomePosition {
                outcome_id,
                shares: shares_out,
                avg_entry_price: scaled / shares_out,
                invested: usdc_amount,
            }
        };
        let base_invested: u64 = if fresh {
            0
        } else {
            self.bettor_position.total_invested
        };
        let new_total_invested: u64 = match base_invested.checked_add(usdc_amount) {
            Some(v) => v,
            None => {
                return Err(StreamError::MathOverflow);
            },
        };

        self.betting_market.outcomes[idx].total_shares = new_total_shares;
        self.betting_market.outcomes[idx].total_backing = new_total_backing;
        self.betting_market.outcomes[idx].liquidity_reserve = new_reserve;
        self.betting_market.total_pool = new_total_pool;
        assert(outcome_views(self.betting_market.outcomes@) =~= market_after_bet(
            old(self).betting_market@,
            outcome_id,
            usdc_amount as nat,
        ).outcomes);

        if fresh {
            self.bettor_position = BettorPosition {
                bettor: self.bettor,
                market: self.betting_market_key,
                positions: Vec::new(),
                total_invested: 0,
                total_returned: 0,
                has_claimed: false,
                is_eligible_validator: false,
                created_at: now,
                bump: position_bump,
            };
        }
        if slot < held {
            self.bettor_position.positions[slot] = entry;
        } else {
            self.bettor_position.positions.push(entry);
        }
        self.bettor_position.total_invested = new_total_invested;
        if new_total_invested >= VALIDATOR_STAKE_REQUIREMENT {
            self.bettor_position.is_eligible_validator = true;
        }
        proof {
            if old(self).betting_market@.wf() {
                lemma_bet_keeps_market_wf(
                    old(self).betting_market@,
                    outcome_id,
                    usdc_amount as nat,
                );
            }
            let opened = opened_position(
                old(self).bettor_position@,
                old(self).bettor,
                old(self).betting_market_key,
                now as int,
                position_bump,
            );
            if opened.wf() {
                lemma_bet_keeps_position_wf(
                    opened,
                    outcome_id,
                    usdc_amount as nat,
                    shares_out as nat,
                );
            }
        }
        Ok(
            BetPlaced {
                market: self.betting_market_key,
                bettor: self.bettor,
                outcome_id,
                shares: shares_out,
                price: usdc_amount,
                timestamp: now,
            },
        )
    }
}

/// A market after a list of accepted bets, each an outcome and a payment.
pub open spec fn market_after_bets(market: MarketView, bets: Seq<(u8, nat)>) -> MarketView
    decreases bets.len(),
{
    if bets.len() == 0 {
        market
    } else {
        market_after_bet(market_after_bets(market, bets.drop_last()), bets.last().0, bets.last().1)
    }
}

/// Sum of the payments of a list of bets.
pub open spec fn total_payments(bets: Seq<(u8, nat)>) -> nat
    decreases bets.len(),
{
    if bets.len() == 0 {
        0
    } else {
        total_payments(bets.drop_last()) + bets.last().1
    }
}

/// Whatever bets a market accepts, its pool grows by exactly their payments,
/// and nothing but its outcomes and its pool changes.
pub proof fn lemma_pool_conservation(market: MarketView, bets: Seq<(u8, nat)>)
    ensures
        market_after_bets(market, bets).total_pool == market.total_pool + total_payments(bets),
        market_after_bets(market, bets) == (MarketView {
            outcomes: market_after_bets(market, bets).outcomes,
            total_pool: market_after_bets(market, bets).total_pool,
            ..market
        }),
    decreases bets.len(),
{
    if bets.len() > 0 {
        lemma_pool_conservation(market, bets.drop_last());
    }
}

/// Replacing one outcome changes the summed backing by the difference of the
/// two.
proof fn lemma_backing_update(outcomes: Seq<OutcomeView>, index: int, outcome: OutcomeView)
    requires
        0 <= index < outcomes.len(),
    ensures
        total_backing(outcomes.update(index, outcome)) + outcomes[index].total_backing
            == total_backing(outcomes) + outcome.total_backing,
    decreases outcomes.len(),
{
    let updated = outcomes.update(index, outcome);
    if index == outcomes.len() - 1 {
        assert(updated.drop_last() =~= outcomes.drop_last());
    } else {
        lemma_backing_update(outcomes.drop_last(), index, outcome);
        assert(updated.drop_last() =~= outcomes.drop_last().update(index, outcome));
    }
}

/// A bet on an outcome of a well-formed market leaves it well formed, and no
/// reserve ever shrinks.
pub proof fn lemma_bet_keeps_market_wf(market: MarketView, outcome_id: u8, payment: nat)
    requires
        market.wf(),
        (outcome_id as int) < market.outcomes.len(),
    ensures
        market_after_bet(market, outcome_id, payment).wf(),
        market_after_bet(market, outcome_id, payment).outcomes.len() == market.outcomes.len(),
        forall|i: int|
            0 <= i < market.outcomes.len() ==> (#[trigger] market_after_bet(
                market,
                outcome_id,
                payment,
            ).outcomes[i]).liquidity_reserve >= market.outcomes[i].liquidity_reserve,
{
    let outcome = market.outcomes[outcome_id as int];
    let shares = amm_shares(outcome.liquidity_reserve, payment);
    lemma_backing_update(
        market.outcomes,
        outcome_id as int,
        outcome_after_bet(outcome, payment, shares),
    );
}

/// Where no entry of an outcome is found, no entry carries it; where one is
/// found, it is the first that carries it.
pub proof fn lemma_position_slot(positions: Seq<OutcomePosition>, outcome_id: u8)
    ensures
        0 <= position_slot(positions, outcome_id) <= positions.len(),
        position_slot(positions, outcome_id) < positions.len() ==> positions[position_slot(
            positions,
            outcome_id,
        )].outcome_id == outcome_id,
        forall|j: int|
            0 <= j < position_slot(positions, outcome_id) ==> (#[trigger] positions[j]).outcome_id
                != outcome_id,
    decreases positions.len(),
{
    if positions.len() > 0 && positions[0].outcome_id != outcome_id {
        let rest = positions.skip(1);
        lemma_position_slot(rest, outcome_id);
        assert forall|j: int| 0 <= j < position_slot(positions, outcome_id) implies (
        #[trigger] positions[j]).outcome_id != outcome_id by {
            if j > 0 {
                assert(rest[j - 1] == positions[j]);
            }
        }
        if position_slot(positions, outcome_id) < positions.len() {
            assert(rest[position_slot(rest, outcome_id)] == positions[position_slot(
                positions,
                outcome_id,
            )]);
        }
    }
}

/// Replacing one entry changes the summed investment by the difference of the
/// two.
proof fn lemma_invested_update(positions: Seq<OutcomePosition>, index: int, entry: OutcomePosition)
    requires
        0 <= index < positions.len(),
    ensures
        total_invested(positions.update(index, entry)) + positions[index].invested
            == total_invested(positions) + entry.invested,
        positions[index].invested <= total_invested(positions),
    decreases positions.len(),
{
    let updated = positions.update(index, entry);
    if index == positions.len() - 1 {
        assert(updated.drop_last() =~= positions.drop_last());
    } else {
        lemma_invested_update(positions.drop_last(), index, entry);
        assert(updated.drop_last() =~= positions.drop_last().update(index, entry));
    }
}

/// A bet that a well-formed record can take leaves it well formed.
pub proof fn lemma_bet_keeps_position_wf(
    position: PositionView,
    outcome_id: u8,
    payment: nat,
    shares: nat,
)
    requires
        position.wf(),
        position.total_invested + payment <= u64::MAX,
    ensures
        position_after_bet(position, outcome_id, payment, shares).wf(),
{
    let entries = position.positions;
    let slot = position_slot(entries, outcome_id);
    let after = positions_after_bet(entries, outcome_id, payment, shares);
    lemma_position_slot(entries, outcome_id);
    if slot < entries.len() {
        let grown = entry_after_bet(entries[slot], payment, shares);
        lemma_invested_update(entries, slot, grown);
        assert(grown.invested == entries[slot].invested + payment);
        assert forall|i: int, j: int| 0 <= i < j < after.len() implies (#[trigger] after[i]).outcome_id
            != (#[trigger] after[j]).outcome_id by {
            assert(after[i].outcome_id == entries[i].outcome_id);
            assert(after[j].outcome_id == entries[j].outcome_id);
        }
    } else {
        assert(after.drop_last() =~= entries);
        assert forall|i: int, j: int| 0 <= i < j < after.len() implies (#[trigger] after[i]).outcome_id
            != (#[trigger] after[j]).outcome_id by {
            assert(after[i] == entries[i]);
            if j < entries.len() {
                assert(after[j] == entries[j]);
            }
        }
    }
}

} // verus!
