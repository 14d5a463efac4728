use vstd::prelude::*;

use crate::error::StreamError;
use crate::events::WinningsClaimed;
use crate::key::AccountKey;
use crate::state::{
    BettingMarket, BettorPosition, MarketView, OutcomePosition, PositionView, BPS_DENOMINATOR,
};

verus! {

/// What `shares` of the winning outcome are worth: their proportion of the
/// whole pool, rounded down.
pub open spec fn share_value(pool: nat, shares: nat, total_shares: nat) -> nat {
    if total_shares == 0 {
        0
    } else {
        (pool * shares) / total_shares
    }
}

/// The platform's fee on a value, rounded down.
pub open spec fn fee_on(value: nat, fee_bps: nat) -> nat {
    (value * fee_bps) / (BPS_DENOMINATOR as nat)
}

/// What a holding pays out after the fee.
pub open spec fn net_payout(pool: nat, shares: nat, total_shares: nat, fee_bps: nat) -> nat {
    let value = share_value(pool, shares, total_shares);
    if fee_on(value, fee_bps) > value {
        0
    } else {
        (value - fee_on(value, fee_bps)) as nat
    }
}

/// Whether the payout of a holding cannot be computed: its value does not fit
/// the width of an amount, or the fee exceeds it.
pub open spec fn holding_overflows(pool: nat, shares: nat, total_shares: nat, fee_bps: nat) -> bool {
    let value = share_value(pool, shares, total_shares);
    value > u64::MAX || fee_on(value, fee_bps) > value
}

/// Whether a participant holds an entry of the outcome.
pub open spec fn holds_outcome(positions: Seq<OutcomePosition>, outcome_id: u8) -> bool {
    exists|i: int| 0 <= i < positions.len() && (#[trigger] positions[i]).outcome_id == outcome_id
}

/// Whether the payout of some entry of the outcome cannot be computed.
pub open spec fn some_holding_overflows(
    positions: Seq<OutcomePosition>,
    outcome_id: u8,
    pool: nat,
    total_shares: nat,
    fee_bps: nat,
) -> bool {
    exists|i: int|
        0 <= i < positions.len() && (#[trigger] positions[i]).outcome_id == outcome_id
            && holding_overflows(pool, positions[i].shares as nat, total_shares, fee_bps)
}

/// Sum of the net payouts of all entries of the outcome.
pub open spec fn winnings(
    positions: Seq<OutcomePosition>,
    outcome_id: u8,
    pool: nat,
    total_shares: nat,
    fee_bps: nat,
) -> nat
    decreases positions.len(),
{
    if positions.len() == 0 {
        0
    } else {
        winnings(positions.drop_last(), outcome_id, pool, total_shares, fee_bps) + (if positions.last().outcome_id
            == outcome_id {
            net_payout(pool, positions.last().shares as nat, total_shares, fee_bps)
        } else {
            0
        })
    }
}

/// What a claim returns: the payout, or the reason for which none is made. The
/// checks are listed in the order in which they are made.
pub open spec fn claim_result(market: MarketView, position: PositionView) -> Result<u64, StreamError> {
    if !market.resolved || market.winning_outcome is None {
        Err(StreamError::MarketNotResolved)
    } else if position.has_claimed {
        Err(StreamError::AlreadyClaimed)
    } else {
        let winner = market.winning_outcome->0;
        if !holds_outcome(position.positions, winner) {
            Err(StreamError::NoWinnings)
        } else if winner >= market.outcomes.len() {
            Err(StreamError::InvalidOutcome)
        } else {
            let total_shares = market.outcomes[winner as int].total_shares;
            let due = winnings(
                position.positions,
                winner,
                market.total_pool,
                total_shares,
                market.fee_percentage,
            );
            if some_holding_overflows(
                position.positions,
                winner,
                market.total_pool,
                total_shares,
                market.fee_percentage,
            ) || due > u64::MAX {
                Err(StreamError::MathOverflow)
            } else if due == 0 {
                Err(StreamError::NoWinnings)
            } else {
                Ok(due as u64)
            }
        }
    }
}

/// A participant's record after a claim was paid.
pub open spec fn position_after_claim(position: PositionView, payout: nat) -> PositionView {
    PositionView { has_claimed: true, total_returned: payout, ..position }
}

/// The sum of payouts over a prefix of the entries never exceeds the sum over
/// all of them.
pub proof fn lemma_winnings_grow(
    positions: Seq<OutcomePosition>,
    outcome_id: u8,
    pool: nat,
    total_shares: nat,
    fee_bps: nat,
    n: int,
)
    requires
        0 <= n <= positions.len(),
    ensures
        winnings(positions.take(n), outcome_id, pool, total_shares, fee_bps) <= winnings(
            positions,
            outcome_id,
            pool,
            total_shares,
            fee_bps,
        ),
    decreases positions.len(),
{
    if n < positions.len() {
        lemma_winnings_grow(positions.drop_last(), outcome_id, pool, total_shares, fee_bps, n);
        assert(positions.drop_last().take(n) =~= positions.take(n));
    } else {
        assert(positions.take(n) =~= positions);
    }
}

/// The value of a holding and its payout after the fee, or `None` where they
/// cannot be computed.
fn holding_payout(pool: u64, shares: u64, total_shares: u64, fee_bps: u16) -> (net: Option<u64>)
    requires
        total_shares > 0,
    ensures
        net is None <==> holding_overflows(
            pool as nat,
            shares as nat,
            total_shares as nat,
            fee_bps as nat,
        ),
        net is Some ==> net->0 == net_payout(
            pool as nat,
            shares as nat,
            total_shares as nat,
            fee_bps as nat,
        ),
{
    let wide_pool: u128 = pool as u128;
    let wide_shares: u128 = shares as u128;
    assert(wide_pool * wide_shares <= u128::MAX) by (nonlinear_arith)
        requires
            wide_pool <= u64::MAX,
            wide_shares <= u64::MAX,
    ;
    let value: u128 = (wide_pool * wide_shares) / (total_shares as u128);
    if value > u64::MAX as u128 {
        return None;
    }
    let wide_fee: u128 = fee_bps as u128;
    assert(value * wide_fee <= u128::MAX) by (nonlinear_arith)
        requires
            value <= u64::MAX,
            wide_fee <= u16::MAX,
    ;
    let fee: u128 = (value * wide_fee) / (BPS_DENOMINATOR as u128);
    if fee > value {
        return None;
    }
    Some((value - fee) as u64)
}

/// The records that a claim touches: the resolved market and the claimant's
/// position in it.
#[derive(Clone, Debug, PartialEq, Eq)]
pub struct ClaimWinnings {
    pub bettor: AccountKey,
    pub betting_market_key: AccountKey,
    pub betting_market: BettingMarket,
    pub bettor_position: BettorPosition,
}

impl ClaimWinnings {
    /// Settles the claimant's winnings, or refuses and changes nothing.
    ///
    /// On success the record is marked as claimed and the returned notice
    /// names the payout that has to leave the market's custody in the same
    /// step. The market itself is never changed.
    pub fn claim_winnings(&mut self, now: i64) -> (res: Result<WinningsClaimed, StreamError>)
        ensures
            old(self).bettor_position@.wf() ==> final(self).bettor_position@.wf(),
            res matches Ok(receipt) ==> {
                let winner = old(self).betting_market.winning_outcome->0;
                receipt.payout * old(self).betting_market.outcomes[winner as int].total_shares
                    <= old(self).betting_market.total_pool * shares_held(
                    old(self).bettor_position.positions@,
                    winner,
                )
            },
            final(self).bettor == old(self).bettor,
            final(self).betting_market_key == old(self).betting_market_key,
            final(self).betting_market == old(self).betting_market,
            match res {
                Ok(receipt) => {
                    &&& claim_result(old(self).betting_market@, old(self).bettor_position@) == Ok::<
                        u64,
                        StreamError,
                    >(receipt.payout)
                    &&& receipt == (WinningsClaimed {
                        market: old(self).betting_market_key,
                        bettor: old(self).bettor,
                        payout: receipt.payout,
                        timestamp: now,
                    })
                    &&& final(self).bettor_position@ == position_after_claim(
                        old(self).bettor_position@,
                        receipt.payout as nat,
                    )
                },
                Err(e) => {
                    &&& claim_result(old(self).betting_market@, old(self).bettor_position@) == Err::<
                        u64,
                        StreamError,
                    >(e)
                    &&& *final(self) == *old(self)
                },
            },
    {
        if !self.betting_market.resolved {
            return Err(StreamError::MarketNotResolved);
        }
        let winner: u8 = match self.betting_market.winning_outcome {
            Some(w) => w,
            None => {
                return Err(StreamError::MarketNotResolved);
            },
        };
        if self.bettor_position.has_claimed {
            return Err(StreamError::AlreadyClaimed);
        }
        let ghost entries = self.bettor_position.positions@;
        let ghost pool = self.betting_market.total_pool as nat;
        let ghost fee_bps = self.betting_market.fee_percentage as nat;
        let idx: usize = winner as usize;
        let in_range: bool = idx < self.betting_market.outcomes.len();
        let total_shares: u64 = if in_range {
            self.betting_market.outcomes[idx].total_shares
        } else {
            0
        };
        let mut payout: u64 = 0;
        let mut has_winning_position: bool = false;
        let mut i: usize = 0;
        assert(entries.take(0) =~= Seq::<OutcomePosition>::empty());
        while i < self.bettor_position.positions.len()
            invariant
                i <= entries.len(),
                entries == self.bettor_position.positions@,
                pool == self.betting_market.total_pool,
                fee_bps == self.betting_market.fee_percentage,
                self.betting_market.resolved,
                self.betting_market.winning_outcome == Some(winner),
                !self.bettor_position.has_claimed,
                in_range <==> (winner as int) < self.betting_market.outcomes.len(),
                in_range ==> total_shares == self.betting_market.outcomes[winner as int].total_shares,
                has_winning_position <==> holds_outcome(entries.take(i as int), winner),
                has_winning_position ==> in_range,
                in_range ==> payout == winnings(
                    entries.take(i as int),
                    winner,
                    pool,
                    total_shares as nat,
                    fee_bps,
                ),
                !some_holding_overflows(
                    entries.take(i as int),
                    winner,
                    pool,
                    total_shares as nat,
                    fee_bps,
                ),
                *self == *old(self),
            decreases entries.len() - i,
        {
            let entry: OutcomePosition = self.bettor_position.positions[i];
            let ghost before = entries.take(i as int);
            let ghost after = entries.take(i + 1);
            assert(after.drop_last() =~= before);
            assert(after.last() == entry);
            assert(forall|j: int| 0 <= j < before.len() ==> before[j] == #[trigger] after[j]);
            if entry.outcome_id == winner {
                assert(after[i as int].outcome_id == winner);
                assert(entries[i as int].outcome_id == winner);
                if !in_range {
                    assert(holds_outcome(entries, winner));
                    return Err(StreamError::InvalidOutcome);
                }
                has_winning_position = true;
                if total_shares > 0 {
                    let net: u64 = match holding_payout(
                        self.betting_market.total_pool,
                        entry.shares,
                        total_shares,
                        self.betting_market.fee_percentage,
                    ) {
                        Some(v) => v,
                        None => {
                            return Err(StreamError::MathOverflow);
                        },
                    };
                    payout = match payout.checked_add(net) {
                        Some(v) => v,
                        None => {
                            proof {
                                lemma_winnings_grow(
                                    entries,
                                    winner,
                                    pool,
                                    total_shares as nat,
                                    fee_bps,
                                    i + 1,
                                );
                            }
                            return Err(StreamError::MathOverflow);
                        },
                    };
                }
            } else {
                assert(holds_outcome(after, winner) ==> holds_outcome(before, winner)) by {
                    if holds_outcome(after, winner) {
                        let j = choose|j: int|
                            0 <= j < after.len() && (#[trigger] after[j]).outcome_id == winner;
                        assert(before[j].outcome_id == winner);
                    }
                }
            }
            assert(!some_holding_overflows(after, winner, pool, total_shares as nat, fee_bps)) by {
                if some_holding_overflows(after, winner, pool, total_shares as nat, fee_bps) {
                    let j = choose|j: int|
                        0 <= j < after.len() && (#[trigger] after[j]).outcome_id == winner
                            && holding_overflows(
                            pool,
                            after[j].shares as nat,
                            total_shares as nat,
                            fee_bps,
                        );
                    if j < i {
                        assert(before[j].outcome_id == winner);
                        assert(before[j] == after[j]);
                    } else {
                        assert(after[j] == entry);
                        assert(total_shares == 0 ==> share_value(
                            pool,
                            entry.shares as nat,
                            total_shares as nat,
                        ) == 0);
                        assert(fee_on(0, fee_bps) == 0) by (nonlinear_arith);
                    }
                }
            }
            i += 1;
        }
        assert(entries.take(i as int) =~= entries);
        if !has_winning_position {
            return Err(StreamError::NoWinnings);
        }
        if payout == 0 {
            return Err(StreamError::NoWinnings);
        }
        proof {
            assert(claim_result(self.betting_market@, self.bettor_position@) == Ok::<
                u64,
                StreamError,
            >(payout));
            lemma_claim_within_share(self.betting_market@, self.bettor_position@);
        }
        self.bettor_position.has_claimed = true;
        self.bettor_position.total_returned = payout;
        Ok(
            WinningsClaimed {
                market: self.betting_market_key,
                bettor: self.bettor,
                payout,
                timestamp: now,
            },
        )
    }
}

/// A record that was paid is refused when it claims again.
pub proof fn lemma_claim_only_once(market: MarketView, position: PositionView)
    requires
        claim_result(market, position) is Ok,
    ensures
        claim_result(
            market,
            position_after_claim(position, claim_result(market, position)->Ok_0 as nat),
        ) == Err::<u64, StreamError>(StreamError::AlreadyClaimed),
{
}

/// Sum of the shares of a list of holdings.
pub open spec fn total_held(holdings: Seq<nat>) -> nat
    decreases holdings.len(),
{
    if holdings.len() == 0 {
        0
    } else {
        total_held(holdings.drop_last()) + holdings.last()
    }
}

/// Sum of the net payouts of a list of holdings of the winning outcome.
pub open spec fn total_paid(holdings: Seq<nat>, pool: nat, total_shares: nat, fee_bps: nat) -> nat
    decreases holdings.len(),
{
    if holdings.len() == 0 {
        0
    } else {
        total_paid(holdings.drop_last(), pool, total_shares, fee_bps) + net_payout(
            pool,
            holdings.last(),
            total_shares,
            fee_bps,
        )
    }
}

/// A payout, scaled by the shares issued, never exceeds the pool scaled by the
/// holding.
proof fn lemma_payout_proportional(pool: nat, shares: nat, total_shares: nat, fee_bps: nat)
    requires
        total_shares > 0,
    ensures
        net_payout(pool, shares, total_shares, fee_bps) * total_shares <= pool * shares,
{
    let n = (pool * shares) as int;
    let d = total_shares as int;
    let value = n / d;
    vstd::arithmetic::div_mod::lemma_fundamental_div_mod(n, d);
    vstd::arithmetic::div_mod::lemma_mod_bound(n, d);
    assert(value * d <= n) by (nonlinear_arith)
        requires
            n == d * value + n % d,
            0 <= n % d,
    ;
    let net = net_payout(pool, shares, total_shares, fee_bps) as int;
    assert(net <= value) by {
        assert(value >= 0) by (nonlinear_arith)
            requires
                n == d * value + n % d,
                n % d < d,
                n >= 0,
                d > 0,
        ;
        let fee = fee_on(value as nat, fee_bps) as int;
        assert(fee >= 0);
    }
    assert(net * d <= value * d) by (nonlinear_arith)
        requires
            net <= value,
            d > 0,
    ;
}

proof fn lemma_paid_proportional(holdings: Seq<nat>, pool: nat, total_shares: nat, fee_bps: nat)
    requires
        total_shares > 0,
    ensures
        total_paid(holdings, pool, total_shares, fee_bps) * total_shares <= pool * total_held(
            holdings,
        ),
    decreases holdings.len(),
{
    if holdings.len() > 0 {
        lemma_paid_proportional(holdings.drop_last(), pool, total_shares, fee_bps);
        lemma_payout_proportional(pool, holdings.last(), total_shares, fee_bps);
        let a = total_paid(holdings.drop_last(), pool, total_shares, fee_bps) as int;
        let b = net_payout(pool, holdings.last(), total_shares, fee_bps) as int;
        let x = total_held(holdings.drop_last()) as int;
        let y = holdings.last() as int;
        let t = total_shares as int;
        let p = pool as int;
        assert(total_paid(holdings, pool, total_shares, fee_bps) == a + b);
        assert(total_held(holdings) == x + y);
        assert(a * t <= p * x);
        assert(b * t <= p * y);
        assert((a + b) * t == a * t + b * t) by (nonlinear_arith);
        assert(p * (x + y) == p * x + p * y) by (nonlinear_arith);
    } else {
        assert(pool * 0 == 0) by (nonlinear_arith);
        assert(0 * total_shares == 0) by (nonlinear_arith);
    }
}

/// Shares that a participant holds of an outcome, over all its entries.
pub open spec fn shares_held(positions: Seq<OutcomePosition>, outcome_id: u8) -> nat
    decreases positions.len(),
{
    if positions.len() == 0 {
        0
    } else {
        shares_held(positions.drop_last(), outcome_id) + (if positions.last().outcome_id
            == outcome_id {
            positions.last().shares as nat
        } else {
            0nat
        })
    }
}

/// The winnings of a participant, scaled by the shares issued, never exceed
/// the pool scaled by the shares it holds.
proof fn lemma_winnings_proportional(
    positions: Seq<OutcomePosition>,
    outcome_id: u8,
    pool: nat,
    total_shares: nat,
    fee_bps: nat,
)
    requires
        total_shares > 0,
    ensures
        winnings(positions, outcome_id, pool, total_shares, fee_bps) * total_shares <= pool
            * shares_held(positions, outcome_id),
    decreases positions.len(),
{
    if positions.len() > 0 {
        let front = positions.drop_last();
        lemma_winnings_proportional(front, outcome_id, pool, total_shares, fee_bps);
        let a = winnings(front, outcome_id, pool, total_shares, fee_bps) as int;
        let x = shares_held(front, outcome_id) as int;
        let t = total_shares as int;
        let p = pool as int;
        if positions.last().outcome_id == outcome_id {
            let y = positions.last().shares as int;
            lemma_payout_proportional(pool, positions.last().shares as nat, total_shares, fee_bps);
            let b = net_payout(pool, positions.last().shares as nat, total_shares, fee_bps) as int;
            assert(winnings(positions, outcome_id, pool, total_shares, fee_bps) == a + b);
            assert(shares_held(positions, outcome_id) == x + y);
            assert(a * t <= p * x);
            assert(b * t <= p * y);
            assert((a + b) * t == a * t + b * t) by (nonlinear_arith);
            assert(p * (x + y) == p * x + p * y) by (nonlinear_arith);
        }
    } else {
        assert(pool * 0 == 0) by (nonlinear_arith);
        assert(0 * total_shares == 0) by (nonlinear_arith);
    }
}

/// Where no shares were issued of an outcome, it wins nothing.
proof fn lemma_no_shares_no_winnings(
    positions: Seq<OutcomePosition>,
    outcome_id: u8,
    pool: nat,
    fee_bps: nat,
)
    ensures
        winnings(positions, outcome_id, pool, 0, fee_bps) == 0,
    decreases positions.len(),
{
    if positions.len() > 0 {
        lemma_no_shares_no_winnings(positions.drop_last(), outcome_id, pool, fee_bps);
        assert(fee_on(0, fee_bps) == 0) by (nonlinear_arith);
    }
}

/// A claim that is paid pays no more than the claimant's proportion of the
/// pool: the pool times the winning shares it holds, over the shares issued
/// of the winning outcome.
pub proof fn lemma_claim_within_share(market: MarketView, position: PositionView)
    requires
        claim_result(market, position) is Ok,
    ensures
        ({
            let winner = market.winning_outcome->0;
            let total_shares = market.outcomes[winner as int].total_shares;
            let held = shares_held(position.positions, winner);
            let paid = claim_result(market, position)->Ok_0;
            &&& market.resolved
            &&& (winner as int) < market.outcomes.len()
            &&& total_shares > 0
            &&& paid * total_shares <= market.total_pool * held
            &&& paid <= (market.total_pool * held) / total_shares
        }),
{
    let winner = market.winning_outcome->0;
    let total_shares = market.outcomes[winner as int].total_shares;
    let held = shares_held(position.positions, winner);
    let paid = claim_result(market, position)->Ok_0 as int;
    if total_shares == 0 {
        lemma_no_shares_no_winnings(
            position.positions,
            winner,
            market.total_pool,
            market.fee_percentage,
        );
    } else {
        lemma_winnings_proportional(
            position.positions,
            winner,
            market.total_pool,
            total_shares,
            market.fee_percentage,
        );
        let scaled = (market.total_pool * held) as int;
        let t = total_shares as int;
        assert(paid * t <= scaled);
        vstd::arithmetic::div_mod::lemma_div_is_ordered(paid * t, scaled, t);
        vstd::arithmetic::div_mod::lemma_div_multiples_vanish(paid, t);
        assert(paid * t == t * paid) by (nonlinear_arith);
    }
}

/// However the shares of the winning outcome are spread over its holders, the
/// payouts together never exceed the pool.
pub proof fn lemma_payouts_within_pool(
    holdings: Seq<nat>,
    pool: nat,
    total_shares: nat,
    fee_bps: nat,
)
    requires
        total_held(holdings) <= total_shares,
    ensures
        total_paid(holdings, pool, total_shares, fee_bps) <= pool,
    decreases holdings.len(),
{
    if total_shares == 0 {
        if holdings.len() > 0 {
            assert(total_held(holdings.drop_last()) <= total_shares);
            lemma_payouts_within_pool(holdings.drop_last(), pool, total_shares, fee_bps);
            assert(fee_on(0, fee_bps) == 0) by (nonlinear_arith);
        }
    } else {
        lemma_paid_proportional(holdings, pool, total_shares, fee_bps);
        let paid = total_paid(holdings, pool, total_shares, fee_bps) as int;
        let held = total_held(holdings) as int;
        let t = total_shares as int;
        let p = pool as int;
        assert(paid <= p) by (nonlinear_arith)
            requires
                paid * t <= p * held,
                held <= t,
                t > 0,
                p >= 0,
                paid >= 0,
        ;
    }
}

} // verus!
