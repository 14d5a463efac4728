use vstd::prelude::*;

use crate::error::StreamError;
use crate::events::MarketCreated;
use crate::key::AccountKey;
use crate::state::{
    outcome_views, total_backing, BettingMarket, MarketOutcome, MarketType, MarketView,
    OutcomeView, DEFAULT_LIQUIDITY_PER_OUTCOME, MAX_FEE_BPS,
};

verus! {

/// Whether a market of the type may offer `count` outcomes: two for a binary
/// market, two for an over/under market (one on each side of the line), and
/// from two up to the stated maximum for a multi-outcome market.
pub open spec fn arity_ok(market_type: MarketType, count: nat) -> bool {
    match market_type {
        MarketType::Binary => count == 2,
        MarketType::MultiOutcome { max } => 2 <= count <= max,
        MarketType::OverUnder { line } => count == 2,
    }
}

/// The reserve that each outcome starts with. What is left of an uneven
/// division is dropped; liquidity that leaves an outcome without a reserve is
/// refused at creation.
pub open spec fn seeded_reserve(initial_liquidity: nat, count: nat) -> nat {
    if initial_liquidity > 0 {
        initial_liquidity / count
    } else {
        DEFAULT_LIQUIDITY_PER_OUTCOME as nat
    }
}

/// The labels of a market's outcomes as text.
pub open spec fn label_views(labels: Seq<String>) -> Seq<Seq<char>> {
    Seq::new(labels.len(), |i: int| labels[i]@)
}

/// The outcomes of a new market: one per label, numbered in order, without
/// shares or backing.
pub open spec fn fresh_outcomes(labels: Seq<Seq<char>>, reserve: nat) -> Seq<OutcomeView> {
    Seq::new(
        labels.len(),
        |i: int|
            OutcomeView {
                id: i as u8,
                description: labels[i],
                total_shares: 0,
                liquidity_reserve: reserve,
                total_backing: 0,
            },
    )
}

/// Whether the liquidity given seeds every outcome with a reserve: none is
/// given, so that the default is taken, or at least one unit per outcome.
pub open spec fn liquidity_ok(initial_liquidity: nat, count: nat) -> bool {
    initial_liquidity == 0 || initial_liquidity >= count
}

/// Why a market is not opened, if it is not. The checks are listed in the
/// order in which they are made.
pub open spec fn creation_rejection(
    market_type: MarketType,
    count: nat,
    resolution_time: int,
    initial_liquidity: nat,
    fee_percentage: nat,
    now: int,
) -> Option<StreamError> {
    if !arity_ok(market_type, count) {
        Some(StreamError::InvalidMarketSetup)
    } else if resolution_time <= now {
        Some(StreamError::InvalidTime)
    } else if fee_percentage > MAX_FEE_BPS {
        Some(StreamError::InvalidFeePercentage)
    } else if !liquidity_ok(initial_liquidity, count) {
        Some(StreamError::InvalidMarketSetup)
    } else {
        None
    }
}

/// The market that a successful creation writes.
pub open spec fn created_market(
    stream: AccountKey,
    host: AccountKey,
    mint: AccountKey,
    market_type: MarketType,
    labels: Seq<Seq<char>>,
    resolution_time: int,
    initial_liquidity: nat,
    fee_percentage: nat,
    bump: u8,
    now: int,
) -> MarketView {
    MarketView {
        stream,
        host,
        mint,
        market_type,
        outcomes: fresh_outcomes(labels, seeded_reserve(initial_liquidity, labels.len())),
        total_pool: 0,
        total_liquidity: initial_liquidity,
        resolution_time,
        resolved: false,
        winning_outcome: None,
        randomness_requested: false,
        fee_percentage,
        created_at: now,
        bump,
    }
}

/// A market after an outcome was committed to it.
pub open spec fn resolved_market(market: MarketView, winning_outcome: u8) -> MarketView {
    MarketView { winning_outcome: Some(winning_outcome), resolved: true, ..market }
}

/// New outcomes carry no backing.
pub proof fn lemma_fresh_outcomes_unbacked(labels: Seq<Seq<char>>, reserve: nat)
    ensures
        total_backing(fresh_outcomes(labels, reserve)) == 0,
    decreases labels.len(),
{
    if labels.len() > 0 {
        lemma_fresh_outcomes_unbacked(labels.drop_last(), reserve);
        assert(fresh_outcomes(labels, reserve).drop_last() =~= fresh_outcomes(
            labels.drop_last(),
            reserve,
        ));
    }
}

/// A market that was opened is well formed: among the rest, every outcome of
/// it has a reserve.
pub proof fn lemma_created_market_wf(
    stream: AccountKey,
    host: AccountKey,
    mint: AccountKey,
    market_type: MarketType,
    labels: Seq<Seq<char>>,
    resolution_time: int,
    initial_liquidity: nat,
    fee_percentage: nat,
    bump: u8,
    now: int,
)
    requires
        creation_rejection(
            market_type,
            labels.len(),
            resolution_time,
            initial_liquidity,
            fee_percentage,
            now,
        ) is None,
    ensures
        ({
            let market = created_market(
                stream,
                host,
                mint,
                market_type,
                labels,
                resolution_time,
                initial_liquidity,
                fee_percentage,
                bump,
                now,
            );
            &&& market.wf()
            &&& market.fee_percentage <= MAX_FEE_BPS
            &&& 2 <= market.outcomes.len() <= 255
            &&& forall|i: int|
                0 <= i < market.outcomes.len() ==> (#[trigger] market.outcomes[i]).liquidity_reserve
                    > 0
        }),
{
    let reserve = seeded_reserve(initial_liquidity, labels.len());
    lemma_fresh_outcomes_unbacked(labels, reserve);
    if initial_liquidity >= labels.len() {
        vstd::arithmetic::div_mod::lemma_div_is_ordered(
            labels.len() as int,
            initial_liquidity as int,
            labels.len() as int,
        );
        vstd::arithmetic::div_mod::lemma_div_by_self(labels.len() as int);
    }
}

/// The records that opening a market touches.
#[derive(Clone, Debug, PartialEq, Eq)]
pub struct InitializeBettingMarket {
    pub host: AccountKey,
    pub stream: AccountKey,
    pub mint: AccountKey,
    pub betting_market_key: AccountKey,
    pub betting_market: BettingMarket,
}

impl InitializeBettingMarket {
    /// Opens a market over the stream, or refuses and changes nothing. Every
    /// outcome of a market that is opened has a reserve.
    pub fn initialize_market(
        &mut self,
        market_type: MarketType,
        outcomes: Vec<String>,
        resolution_time: i64,
        initial_liquidity: u64,
        fee_percentage: u16,
        bump: u8,
        now: i64,
    ) -> (res: Result<MarketCreated, StreamError>)
        ensures
            final(self).host == old(self).host,
            final(self).stream == old(self).stream,
            final(self).mint == old(self).mint,
            final(self).betting_market_key == old(self).betting_market_key,
            match res {
                Ok(notice) => {
                    &&& creation_rejection(
                        market_type,
                        outcomes.len() as nat,
                        resolution_time as int,
                        initial_liquidity as nat,
                        fee_percentage as nat,
                        now as int,
                    ) is None
                    &&& final(self).betting_market@ == created_market(
                        old(self).stream,
                        old(self).host,
                        old(self).mint,
                        market_type,
                        label_views(outcomes@),
                        resolution_time as int,
                        initial_liquidity as nat,
                        fee_percentage as nat,
                        bump,
                        now as int,
                    )
                    &&& final(self).betting_market@.wf()
                    &&& notice.market == old(self).betting_market_key
                    &&& notice.stream == old(self).stream
                    &&& notice.market_type == market_type
                    &&& notice.outcomes == outcomes
                    &&& notice.timestamp == now
                },
                Err(e) => {
                    &&& creation_rejection(
                        market_type,
                        outcomes.len() as nat,
                        resolution_time as int,
                        initial_liquidity as nat,
                        fee_percentage as nat,
                        now as int,
                    ) == Some(e)
                    &&& *final(self) == *old(self)
                },
            },
    {
        let count: usize = outcomes.len();
        let arity_met: bool = match market_type {
            MarketType::Binary => count == 2,
            MarketType::MultiOutcome { max } => count >= 2 && count <= max as usize,
            MarketType::OverUnder { line: _ } => count == 2,
        };
        if !arity_met {
            return Err(StreamError::InvalidMarketSetup);
        }
        if resolution_time <= now {
            return Err(StreamError::InvalidTime);
        }
        if fee_percentage > MAX_FEE_BPS {
            return Err(StreamError::InvalidFeePercentage);
        }
        if initial_liquidity > 0 && initial_liquidity < count as u64 {
            return Err(StreamError::InvalidMarketSetup);
        }
        let liquidity_per_outcome: u64 = if initial_liquidity > 0 {
            initial_liquidity / (count as u64)
        } else {
            DEFAULT_LIQUIDITY_PER_OUTCOME
        };
        let ghost labels = label_views(outcomes@);
        let mut market_outcomes: Vec<MarketOutcome> = Vec::new();
        let mut i: usize = 0;
        while i < count
            invariant
                i <= count,
                count == outcomes.len(),
                count <= 255,
                labels == label_views(outcomes@),
                market_outcomes.len() == i,
                outcome_views(market_outcomes@) =~= fresh_outcomes(
                    labels,
                    liquidity_per_outcome as nat,
                ).take(i as int),
            decreases count - i,
        {
            let description: String = outcomes[i].clone();
            market_outcomes.push(
                MarketOutcome {
                    id: i as u8,
                    description,
                    total_shares: 0,
                    liquidity_reserve: liquidity_per_outcome,
                    total_backing: 0,
                },
            );
            i += 1;
        }
        assert(fresh_outcomes(labels, liquidity_per_outcome as nat).take(count as int)
            =~= fresh_outcomes(labels, liquidity_per_outcome as nat));
        proof {
            lemma_created_market_wf(
                self.stream,
                self.host,
                self.mint,
                market_type,
                labels,
                resolution_time as int,
                initial_liquidity as nat,
                fee_percentage as nat,
                bump,
                now as int,
            );
        }
        self.betting_market = BettingMarket {
            stream: self.stream,
            host: self.host,
            mint: self.mint,
            market_type,
            outcomes: market_outcomes,
            total_pool: 0,
            total_liquidity: initial_liquidity,
            resolution_time,
            resolved: false,
            winning_outcome: None,
            randomness_requested: false,
            fee_percentage,
            created_at: now,
            bump,
        };
        Ok(
            MarketCreated {
                market: self.betting_market_key,
                stream: self.stream,
                market_type,
                outcomes,
                timestamp: now,
            },
        )
    }
}

/// The records that committing an outcome touches.
#[derive(Clone, Debug, PartialEq, Eq)]
pub struct ResolveMarket {
    pub host: AccountKey,
    pub betting_market: BettingMarket,
}

impl ResolveMarket {
    /// Commits an outcome to the market on the owner's authority. Nothing else
    /// is asked: neither the state of the vote nor an earlier commitment stands
    /// in the way.
    pub fn resolve_market(&mut self, winning_outcome: u8) -> (res: Result<(), StreamError>)
        ensures
            res is Ok,
            old(self).betting_market@.wf() ==> final(self).betting_market@.wf(),
            final(self).host == old(self).host,
            final(self).betting_market@ == resolved_market(
                old(self).betting_market@,
                winning_outcome,
            ),
    {
        self.betting_market.winning_outcome = Some(winning_outcome);
        self.betting_market.resolved = true;
        Ok(())
    }
}

} // verus!
