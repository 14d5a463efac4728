use vstd::prelude::*;

use crate::error::StreamError;
use crate::events::ValidationVote;
use crate::key::AccountKey;
use crate::state::{
    BettingMarket, BettorPosition, MarketResolution, ResolutionStatus, ResolutionView,
    ValidatorVote, VALIDATOR_STAKE_REQUIREMENT,
};

verus! {

/// Stake that the recorded votes put on an outcome.
pub open spec fn stake_on(votes: Seq<ValidatorVote>, outcome: u8) -> nat
    decreases votes.len(),
{
    if votes.len() == 0 {
        0
    } else {
        stake_on(votes.drop_last(), outcome) + (if votes.last().voted_outcome == outcome {
            votes.last().stake_amount as nat
        } else {
            0
        })
    }
}

/// Index of the first vote for an outcome, or the number of votes where there
/// is none.
pub open spec fn first_vote(votes: Seq<ValidatorVote>, outcome: u8) -> int
    decreases votes.len(),
{
    if votes.len() == 0 {
        0
    } else if votes[0].voted_outcome == outcome {
        0
    } else {
        1 + first_vote(votes.skip(1), outcome)
    }
}

/// Whether an outcome leads the vote: it carries stake, no outcome carries
/// more, and every outcome that carries as much was first voted for later.
pub open spec fn leads(votes: Seq<ValidatorVote>, outcome: u8) -> bool {
    &&& stake_on(votes, outcome) > 0
    &&& forall|other: u8| #[trigger] stake_on(votes, other) <= stake_on(votes, outcome)
    &&& forall|other: u8|
        other != outcome && #[trigger] stake_on(votes, other) == stake_on(votes, outcome)
            ==> first_vote(votes, outcome) < first_vote(votes, other)
}

/// The outcome that leads the vote, or outcome 0 where no outcome carries any
/// stake.
pub open spec fn leading_outcome(votes: Seq<ValidatorVote>) -> u8 {
    if exists|outcome: u8| leads(votes, outcome) {
        choose|outcome: u8| leads(votes, outcome)
    } else {
        0
    }
}

/// The stake of the leading outcome.
pub open spec fn leading_stake(votes: Seq<ValidatorVote>) -> nat {
    stake_on(votes, leading_outcome(votes))
}

/// Stake that finalizes an outcome: two thirds of the validating stake,
/// rounded down.
pub open spec fn required_stake(total_stake: nat) -> nat {
    (2 * total_stake) / 3
}

/// Votes that trigger an evaluation: two thirds of the committee, rounded
/// down.
pub open spec fn required_votes(validators: nat) -> nat {
    (2 * validators) / 3
}

/// Whether the stake on some outcome exceeds the width of an amount.
pub open spec fn tally_overflows(votes: Seq<ValidatorVote>) -> bool {
    exists|outcome: u8| #[trigger] stake_on(votes, outcome) > u64::MAX
}

/// A resolution after its votes were evaluated. Only a resolution under
/// validation can be finalized, and only by a leading outcome whose stake
/// reaches the required stake.
pub open spec fn resolution_after_consensus(resolution: ResolutionView) -> ResolutionView {
    if resolution.resolution_status == ResolutionStatus::UnderValidation && leading_stake(
        resolution.validator_votes,
    ) >= required_stake(resolution.total_stake_validating) {
        ResolutionView {
            proposed_outcome: Some(leading_outcome(resolution.validator_votes)),
            resolution_status: ResolutionStatus::Finalized,
            ..resolution
        }
    } else {
        resolution
    }
}

/// Whether a validator has a vote on record.
pub open spec fn has_voted(votes: Seq<ValidatorVote>, validator: AccountKey) -> bool {
    exists|i: int| 0 <= i < votes.len() && (#[trigger] votes[i]).validator == validator
}

/// A resolution with one more vote on record.
pub open spec fn resolution_with_vote(resolution: ResolutionView, vote: ValidatorVote) -> ResolutionView {
    ResolutionView {
        validator_votes: resolution.validator_votes.push(vote),
        total_stake_validating: resolution.total_stake_validating + vote.stake_amount as nat,
        ..resolution
    }
}

/// Whether the votes on record reach the number that triggers an evaluation.
pub open spec fn quorum_reached(resolution: ResolutionView) -> bool {
    resolution.validator_votes.len() >= required_votes(resolution.validators.len())
}

/// A resolution after a vote was accepted: the vote is recorded, and the
/// votes are evaluated once enough of them are on record.
pub open spec fn resolution_after_vote(resolution: ResolutionView, vote: ValidatorVote) -> ResolutionView {
    let recorded = resolution_with_vote(resolution, vote);
    if quorum_reached(recorded) {
        resolution_after_consensus(recorded)
    } else {
        recorded
    }
}

/// Why a vote is refused, if it is. The checks are listed in the order in
/// which they are made.
pub open spec fn vote_rejection(
    resolution: ResolutionView,
    vote: ValidatorVote,
    outcome_count: nat,
) -> Option<StreamError> {
    if resolution.resolution_status != ResolutionStatus::UnderValidation {
        Some(StreamError::InvalidResolutionState)
    } else if !resolution.validators.contains(vote.validator) {
        Some(StreamError::NotValidator)
    } else if vote.stake_amount < VALIDATOR_STAKE_REQUIREMENT {
        Some(StreamError::InsufficientStakeForValidation)
    } else if vote.voted_outcome >= outcome_count {
        Some(StreamError::InvalidOutcome)
    } else if has_voted(resolution.validator_votes, vote.validator) {
        Some(StreamError::AlreadyVoted)
    } else if resolution.total_stake_validating + vote.stake_amount > u64::MAX {
        Some(StreamError::MathOverflow)
    } else if quorum_reached(resolution_with_vote(resolution, vote)) && tally_overflows(
        resolution.validator_votes.push(vote),
    ) {
        Some(StreamError::MathOverflow)
    } else {
        None
    }
}

/// The stake on an outcome over a prefix of the votes never exceeds the stake
/// over all of them.
pub proof fn lemma_stake_grows(votes: Seq<ValidatorVote>, outcome: u8, n: int)
    requires
        0 <= n <= votes.len(),
    ensures
        stake_on(votes.take(n), outcome) <= stake_on(votes, outcome),
    decreases votes.len(),
{
    if n < votes.len() {
        lemma_stake_grows(votes.drop_last(), outcome, n);
        assert(votes.drop_last().take(n) =~= votes.take(n));
    } else {
        assert(votes.take(n) =~= votes);
    }
}

/// An outcome that carries stake has a vote.
pub proof fn lemma_stake_has_vote(votes: Seq<ValidatorVote>, outcome: u8)
    requires
        stake_on(votes, outcome) > 0,
    ensures
        exists|i: int| 0 <= i < votes.len() && (#[trigger] votes[i]).voted_outcome == outcome,
    decreases votes.len(),
{
    if votes.last().voted_outcome == outcome {
        assert(votes[votes.len() - 1].voted_outcome == outcome);
    } else {
        lemma_stake_has_vote(votes.drop_last(), outcome);
        let i = choose|i: int|
            0 <= i < votes.drop_last().len() && (#[trigger] votes.drop_last()[i]).voted_outcome
                == outcome;
        assert(votes[i].voted_outcome == outcome);
    }
}

/// The first vote for an outcome is a vote for it, and no earlier vote is.
pub proof fn lemma_first_vote(votes: Seq<ValidatorVote>, outcome: u8)
    ensures
        0 <= first_vote(votes, outcome) <= votes.len(),
        first_vote(votes, outcome) < votes.len() ==> votes[first_vote(
            votes,
            outcome,
        )].voted_outcome == outcome,
        forall|j: int|
            0 <= j < first_vote(votes, outcome) ==> (#[trigger] votes[j]).voted_outcome != outcome,
    decreases votes.len(),
{
    if votes.len() > 0 && votes[0].voted_outcome != outcome {
        let rest = votes.skip(1);
        lemma_first_vote(rest, outcome);
        assert forall|j: int| 0 <= j < first_vote(votes, outcome) implies (#[trigger] votes[j]).voted_outcome
            != outcome by {
            if j > 0 {
                assert(rest[j - 1] == votes[j]);
            }
        }
        if first_vote(votes, outcome) < votes.len() {
            assert(rest[first_vote(rest, outcome)] == votes[first_vote(votes, outcome)]);
        }
    }
}

/// At most one outcome leads a vote.
pub proof fn lemma_leader_unique(votes: Seq<ValidatorVote>, a: u8, b: u8)
    requires
        leads(votes, a),
        leads(votes, b),
    ensures
        a == b,
{
    if a != b {
        assert(stake_on(votes, a) <= stake_on(votes, b));
        assert(stake_on(votes, b) <= stake_on(votes, a));
    }
}

/// Whether one outcome stands ahead of another in a vote: with more stake, or
/// with as much and a first vote that came earlier.
spec fn ahead(votes: Seq<ValidatorVote>, a: u8, b: u8) -> bool {
    stake_on(votes, a) > stake_on(votes, b) || (stake_on(votes, a) == stake_on(votes, b)
        && first_vote(votes, a) < first_vote(votes, b))
}

/// The outcome below `bound` that no other outcome below `bound` stands ahead
/// of.
spec fn front_runner(votes: Seq<ValidatorVote>, bound: nat) -> u8
    decreases bound,
{
    if bound <= 1 {
        0
    } else {
        let earlier = front_runner(votes, (bound - 1) as nat);
        let last = (bound - 1) as u8;
        if ahead(votes, last, earlier) {
            last
        } else {
            earlier
        }
    }
}

proof fn lemma_front_runner(votes: Seq<ValidatorVote>, bound: nat)
    requires
        1 <= bound <= 256,
    ensures
        front_runner(votes, bound) < bound,
        forall|outcome: u8| outcome < bound ==> !ahead(votes, outcome, front_runner(votes, bound)),
    decreases bound,
{
    if bound > 1 {
        lemma_front_runner(votes, (bound - 1) as nat);
        let earlier = front_runner(votes, (bound - 1) as nat);
        let last = (bound - 1) as u8;
        assert forall|outcome: u8| outcome < bound implies !ahead(
            votes,
            outcome,
            front_runner(votes, bound),
        ) by {
            if outcome < bound - 1 {
                assert(!ahead(votes, outcome, earlier));
            }
        }
    }
}

/// No outcome carries more stake than the leading one, and wherever a vote
/// carries stake, the leading outcome leads.
pub proof fn lemma_leader(votes: Seq<ValidatorVote>)
    ensures
        forall|outcome: u8| #[trigger] stake_on(votes, outcome) <= leading_stake(votes),
        leading_stake(votes) > 0 ==> leads(votes, leading_outcome(votes)),
        (exists|outcome: u8| stake_on(votes, outcome) > 0) ==> leading_stake(votes) > 0,
{
    let best = front_runner(votes, 256);
    lemma_front_runner(votes, 256);
    assert forall|other: u8| #[trigger] stake_on(votes, other) <= stake_on(votes, best) by {
        assert(!ahead(votes, other, best));
    }
    if stake_on(votes, best) > 0 {
        assert forall|other: u8|
            other != best && #[trigger] stake_on(votes, other) == stake_on(
                votes,
                best,
            ) implies first_vote(votes, best) < first_vote(votes, other) by {
            assert(!ahead(votes, other, best));
            lemma_stake_has_vote(votes, best);
            lemma_stake_has_vote(votes, other);
            lemma_first_vote(votes, best);
            lemma_first_vote(votes, other);
            let i = choose|i: int|
                0 <= i < votes.len() && (#[trigger] votes[i]).voted_outcome == best;
            let j = choose|j: int|
                0 <= j < votes.len() && (#[trigger] votes[j]).voted_outcome == other;
            assert(first_vote(votes, best) <= i);
            assert(first_vote(votes, other) <= j);
            if first_vote(votes, best) == first_vote(votes, other) {
                assert(votes[first_vote(votes, best)].voted_outcome == best);
                assert(votes[first_vote(votes, other)].voted_outcome == other);
            }
        }
        assert(leads(votes, best));
        assert(leads(votes, leading_outcome(votes)));
        assert(stake_on(votes, best) <= stake_on(votes, leading_outcome(votes)));
    } else {
        assert forall|outcome: u8| !leads(votes, outcome) by {
            assert(stake_on(votes, outcome) <= stake_on(votes, best));
        }
        assert(stake_on(votes, 0) <= stake_on(votes, best));
    }
}

/// A resolution is finalized only on a proposed outcome whose stake reaches
/// two thirds of the validating stake.
pub proof fn lemma_finalized_by_supermajority(resolution: ResolutionView)
    requires
        resolution.resolution_status != ResolutionStatus::Finalized,
        resolution_after_consensus(resolution).resolution_status == ResolutionStatus::Finalized,
    ensures
        ({
            let decided = resolution_after_consensus(resolution);
            &&& decided.proposed_outcome is Some
            &&& stake_on(decided.validator_votes, decided.proposed_outcome->0) >= required_stake(
                decided.total_stake_validating,
            )
            &&& stake_on(decided.validator_votes, decided.proposed_outcome->0) * 3 + 2 >= 2
                * decided.total_stake_validating
        }),
{
}

/// A vote of a validator that has none on record leaves a well-formed
/// resolution well formed.
pub proof fn lemma_vote_keeps_resolution_wf(resolution: ResolutionView, vote: ValidatorVote)
    requires
        resolution.wf(),
        !has_voted(resolution.validator_votes, vote.validator),
    ensures
        resolution_after_vote(resolution, vote).wf(),
{
    let votes = resolution.validator_votes;
    let recorded = votes.push(vote);
    assert(recorded.drop_last() =~= votes);
    assert forall|i: int, j: int| 0 <= i < j < recorded.len() implies (#[trigger] recorded[i]).validator
        != (#[trigger] recorded[j]).validator by {
        if j == votes.len() {
            assert(votes[i].validator != vote.validator);
        }
    }
}

/// Evaluating the votes of a finalized resolution changes nothing.
pub proof fn lemma_consensus_idempotent(resolution: ResolutionView)
    ensures
        resolution_after_consensus(resolution_after_consensus(resolution))
            == resolution_after_consensus(resolution),
{
}

/// Sums the stake on one outcome, or reports that the sum does not fit.
fn outcome_stake(votes: &Vec<ValidatorVote>, outcome: u8) -> (total: Option<u64>)
    ensures
        total is None <==> stake_on(votes@, outcome) > u64::MAX,
        total is Some ==> total->0 == stake_on(votes@, outcome),
{
    let mut sum: u64 = 0;
    let mut i: usize = 0;
    assert(votes@.take(0) =~= Seq::<ValidatorVote>::empty());
    while i < votes.len()
        invariant
            i <= votes.len(),
            sum == stake_on(votes@.take(i as int), outcome),
        decreases votes.len() - i,
    {
        assert(votes@.take(i + 1).drop_last() =~= votes@.take(i as int));
        if votes[i].voted_outcome == outcome {
            sum = match sum.checked_add(votes[i].stake_amount) {
                Some(v) => v,
                None => {
                    proof {
                        lemma_stake_grows(votes@, outcome, i + 1);
                    }
                    return None;
                },
            };
        }
        i += 1;
    }
    assert(votes@.take(i as int) =~= votes@);
    Some(sum)
}

/// Finds the first vote for an outcome.
fn find_first_vote(votes: &Vec<ValidatorVote>, outcome: u8) -> (index: usize)
    ensures
        index == first_vote(votes@, outcome),
{
    let mut i: usize = 0;
    assert(votes@.skip(0) =~= votes@);
    while i < votes.len()
        invariant
            i <= votes.len(),
            first_vote(votes@, outcome) == i + first_vote(votes@.skip(i as int), outcome),
        decreases votes.len() - i,
    {
        if votes[i].voted_outcome == outcome {
            return i;
        }
        assert(votes@.skip(i as int).skip(1) =~= votes@.skip(i + 1));
        i += 1;
    }
    i
}

/// Finds the leading outcome and its stake, or reports that the stake on some
/// outcome does not fit. Outcomes are taken in the order in which they were
/// first voted for, and a later one replaces an earlier one only with more
/// stake.
fn leading_vote(votes: &Vec<ValidatorVote>) -> (leader: Option<(u8, u64)>)
    ensures
        leader is None <==> tally_overflows(votes@),
        leader matches Some(found) ==> found.0 == leading_outcome(votes@) && found.1
            == leading_stake(votes@),
{
    let mut winning: u8 = 0;
    let mut max_stake: u64 = 0;
    let mut i: usize = 0;
    while i < votes.len()
        invariant
            i <= votes.len(),
            forall|j: int|
                0 <= j < i ==> stake_on(votes@, (#[trigger] votes@[j]).voted_outcome) <= max_stake,
            max_stake == 0 ==> winning == 0,
            max_stake > 0 ==> stake_on(votes@, winning) == max_stake && first_vote(votes@, winning)
                < i,
            forall|j: int|
                0 <= j < i && (#[trigger] votes@[j]).voted_outcome != winning && stake_on(
                    votes@,
                    votes@[j].voted_outcome,
                ) == max_stake && max_stake > 0 ==> first_vote(votes@, winning) < j,
        decreases votes.len() - i,
    {
        let outcome: u8 = votes[i].voted_outcome;
        let first: usize = find_first_vote(votes, outcome);
        proof {
            lemma_first_vote(votes@, outcome);
            assert(votes@[i as int].voted_outcome == outcome);
            assert(first <= i);
        }
        if first == i {
            let stake: u64 = match outcome_stake(votes, outcome) {
                Some(v) => v,
                None => {
                    return None;
                },
            };
            if stake > max_stake {
                max_stake = stake;
                winning = outcome;
            }
        } else {
            assert(votes@[first as int].voted_outcome == outcome);
        }
        i += 1;
    }
    proof {
        assert forall|other: u8| #[trigger] stake_on(votes@, other) <= max_stake by {
            if stake_on(votes@, other) > 0 {
                lemma_stake_has_vote(votes@, other);
                let j = choose|j: int|
                    0 <= j < votes@.len() && (#[trigger] votes@[j]).voted_outcome == other;
                assert(stake_on(votes@, votes@[j].voted_outcome) <= max_stake);
            }
        }
        if max_stake > 0 {
            assert forall|other: u8|
                other != winning && #[trigger] stake_on(votes@, other) == stake_on(
                    votes@,
                    winning,
                ) implies first_vote(votes@, winning) < first_vote(votes@, other) by {
                lemma_stake_has_vote(votes@, other);
                lemma_first_vote(votes@, other);
                let j = choose|j: int|
                    0 <= j < votes@.len() && (#[trigger] votes@[j]).voted_outcome == other;
                let f = first_vote(votes@, other);
                assert(f <= j);
                assert(votes@[f].voted_outcome == other);
            }
            assert(leads(votes@, winning));
            lemma_leader_unique(votes@, winning, leading_outcome(votes@));
        } else {
            assert forall|outcome: u8| !leads(votes@, outcome) by {
                assert(stake_on(votes@, outcome) <= max_stake);
            }
        }
    }
    Some((winning, max_stake))
}

/// Whether a validator has a vote on record.
fn vote_recorded(votes: &Vec<ValidatorVote>, validator: &AccountKey) -> (recorded: bool)
    ensures
        recorded == has_voted(votes@, *validator),
{
    let mut i: usize = 0;
    while i < votes.len()
        invariant
            i <= votes.len(),
            forall|j: int| 0 <= j < i ==> (#[trigger] votes@[j]).validator != *validator,
        decreases votes.len() - i,
    {
        if votes[i].validator.equals(validator) {
            return true;
        }
        i += 1;
    }
    false
}

/// Two thirds of a count or of an amount, rounded down.
fn two_thirds(value: u64) -> (part: u64)
    ensures
        part == (2 * value) / 3,
{
    let wide: u128 = value as u128;
    ((wide * 2) / 3) as u64
}

/// The records that a validator's vote touches.
#[derive(Clone, Debug, PartialEq, Eq)]
pub struct ValidatorVoteOnOutcome {
    pub validator: AccountKey,
    pub market_key: AccountKey,
    pub market: BettingMarket,
    pub resolution: MarketResolution,
    pub position: BettorPosition,
}

impl ValidatorVoteOnOutcome {
    /// Evaluates the votes on record. A resolution under validation whose
    /// leading outcome carries the required stake is finalized on it; any other
    /// resolution is left as it is.
    pub fn check_consensus(&mut self) -> (res: Result<(), StreamError>)
        ensures
            old(self).resolution@.wf() ==> final(self).resolution@.wf(),
            final(self).validator == old(self).validator,
            final(self).market_key == old(self).market_key,
            final(self).market == old(self).market,
            final(self).position == old(self).position,
            res is Err <==> old(self).resolution.resolution_status
                == ResolutionStatus::UnderValidation && tally_overflows(
                old(self).resolution.validator_votes@,
            ),
            match res {
                Ok(()) => final(self).resolution@ == resolution_after_consensus(
                    old(self).resolution@,
                ),
                Err(e) => e == StreamError::MathOverflow && *final(self) == *old(self),
            },
            final(self).resolution.resolution_status == ResolutionStatus::Finalized && old(
                self,
            ).resolution.resolution_status != ResolutionStatus::Finalized ==> {
                &&& final(self).resolution.proposed_outcome is Some
                &&& stake_on(
                    final(self).resolution.validator_votes@,
                    final(self).resolution.proposed_outcome->0,
                ) >= required_stake(final(self).resolution.total_stake_validating as nat)
            },
    {
        if self.resolution.resolution_status != ResolutionStatus::UnderValidation {
            return Ok(());
        }
        let (winning_outcome, max_stake) = match leading_vote(&self.resolution.validator_votes) {
            Some(leader) => leader,
            None => {
                return Err(StreamError::MathOverflow);
            },
        };
        let required: u64 = two_thirds(self.resolution.total_stake_validating);
        if max_stake >= required {
            self.resolution.proposed_outcome = Some(winning_outcome);
            self.resolution.resolution_status = ResolutionStatus::Finalized;
        }
        Ok(())
    }

    /// Records the validator's vote, or refuses it and changes nothing. Once
    /// enough votes are on record they are evaluated in the same step.
    pub fn vote(&mut self, outcome_id: u8, now: i64) -> (res: Result<ValidationVote, StreamError>)
        ensures
            old(self).resolution@.wf() ==> final(self).resolution@.wf(),
            final(self).validator == old(self).validator,
            final(self).market_key == old(self).market_key,
            final(self).market == old(self).market,
            final(self).position == old(self).position,
            ({
                let cast = ValidatorVote {
                    validator: old(self).validator,
                    voted_outcome: outcome_id,
                    vote_timestamp: now,
                    stake_amount: old(self).position.total_invested,
                };
                match res {
                    Ok(notice) => {
                        &&& vote_rejection(
                            old(self).resolution@,
                            cast,
                            old(self).market.outcomes.len() as nat,
                        ) is None
                        &&& final(self).resolution@ == resolution_after_vote(
                            old(self).resolution@,
                            cast,
                        )
                        &&& notice == (ValidationVote {
                            market: old(self).market_key,
                            validator: old(self).validator,
                            voted_outcome: outcome_id,
                            stake_weight: old(self).position.total_invested,
                            timestamp: now,
                        })
                    },
                    Err(e) => {
                        &&& vote_rejection(
                            old(self).resolution@,
                            cast,
                            old(self).market.outcomes.len() as nat,
                        ) == Some(e)
                        &&& *final(self) == *old(self)
                    },
                }
            }),
            final(self).resolution.resolution_status == ResolutionStatus::Finalized && old(
                self,
            ).resolution.resolution_status != ResolutionStatus::Finalized ==> {
                &&& res is Ok
                &&& final(self).resolution.proposed_outcome is Some
                &&& stake_on(
                    final(self).resolution.validator_votes@,
                    final(self).resolution.proposed_outcome->0,
                ) >= required_stake(final(self).resolution.total_stake_validating as nat)
            },
    {
        if self.resolution.resolution_status != ResolutionStatus::UnderValidation {
            return Err(StreamError::InvalidResolutionState);
        }
        if !self.validator.listed_in(&self.resolution.validators) {
            return Err(StreamError::NotValidator);
        }
        let stake: u64 = self.position.total_invested;
        if stake < VALIDATOR_STAKE_REQUIREMENT {
            return Err(StreamError::InsufficientStakeForValidation);
        }
        if outcome_id as usize >= self.market.outcomes.len() {
            return Err(StreamError::InvalidOutcome);
        }
        if vote_recorded(&self.resolution.validator_votes, &self.validator) {
            return Err(StreamError::AlreadyVoted);
        }
        let cast = ValidatorVote {
            validator: self.validator,
            voted_outcome: outcome_id,
            vote_timestamp: now,
            stake_amount: stake,
        };
        let new_total: u64 = match self.resolution.total_stake_validating.checked_add(stake) {
            Some(v) => v,
            None => {
                return Err(StreamError::MathOverflow);
            },
        };
        let committee: usize = self.resolution.validators.len();
        let on_record: usize = self.resolution.validator_votes.len();
        let quorum: bool = (on_record as u128) + 1 >= ((committee as u128) * 2) / 3;
        let mut decided: Option<u8> = None;
        if quorum {
            let mut staged: Vec<ValidatorVote> = Vec::new();
            let mut i: usize = 0;
            while i < on_record
                invariant
                    i <= on_record,
                    on_record == self.resolution.validator_votes.len(),
                    staged@ =~= self.resolution.validator_votes@.take(i as int),
                    *self == *old(self),
                decreases on_record - i,
            {
                staged.push(self.resolution.validator_votes[i]);
                i += 1;
            }
            staged.push(cast);
            assert(staged@ =~= self.resolution.validator_votes@.push(cast));
            let (winning_outcome, max_stake) = match leading_vote(&staged) {
                Some(leader) => leader,
                None => {
                    return Err(StreamError::MathOverflow);
                },
            };
            if max_stake >= two_thirds(new_total) {
                decided = Some(winning_outcome);
            }
        }
        proof {
            if old(self).resolution@.wf() {
                lemma_vote_keeps_resolution_wf(old(self).resolution@, cast);
            }
        }
        self.resolution.validator_votes.push(cast);
        self.resolution.total_stake_validating = new_total;
        match decided {
            Some(winning_outcome) => {
                self.resolution.proposed_outcome = Some(winning_outcome);
                self.resolution.resolution_status = ResolutionStatus::Finalized;
            },
            None => {},
        }
        Ok(
            ValidationVote {
                market: self.market_key,
                validator: self.validator,
                voted_outcome: outcome_id,
                stake_weight: stake,
                timestamp: now,
            },
        )
    }
}

} // verus!
