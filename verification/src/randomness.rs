use vstd::prelude::*;

use crate::error::StreamError;
use crate::key::AccountKey;
use crate::market::resolved_market;
use crate::state::{
    BettingMarket, EligibleValidator, MarketResolution, MarketView, RandomnessUseCase,
    ResolutionStatus, ResolutionView, DISPUTE_WINDOW, MIN_VALIDATORS,
};

verus! {

/// Number of values in a range that includes both of its bounds.
pub open spec fn draw_span(min_value: u8, max_value: u8) -> int {
    max_value - min_value + 1
}

/// The bytes below this limit fall evenly onto the range.
pub open spec fn draw_limit(min_value: u8, max_value: u8) -> int {
    (256int / draw_span(min_value, max_value)) * draw_span(min_value, max_value)
}

/// The byte that decides a draw: going from the last of the first `n` bytes
/// of the seed towards its first, the first byte below the limit; where none
/// is, the last byte of the seed.
pub open spec fn deciding_byte(seed: Seq<u8>, n: int, limit: int) -> u8
    decreases n,
{
    if n <= 0 {
        seed[31]
    } else if seed[n - 1] < limit {
        seed[n - 1]
    } else {
        deciding_byte(seed, n - 1, limit)
    }
}

/// The value that a 32-byte seed draws from a range: the lower bound plus the
/// deciding byte modulo the number of values in the range.
pub open spec fn vrf_u8_in_range(seed: Seq<u8>, min_value: u8, max_value: u8) -> u8 {
    let byte = deciding_byte(seed, 32, draw_limit(min_value, max_value)) as int;
    (min_value + byte % draw_span(min_value, max_value)) as u8
}

/// A draw lies within its range, both bounds included.
pub proof fn lemma_draw_in_range(seed: Seq<u8>, min_value: u8, max_value: u8)
    requires
        min_value <= max_value,
    ensures
        min_value <= vrf_u8_in_range(seed, min_value, max_value) <= max_value,
{
    let span = draw_span(min_value, max_value);
    let byte = deciding_byte(seed, 32, draw_limit(min_value, max_value)) as int;
    vstd::arithmetic::div_mod::lemma_mod_bound(byte, span);
}

/// Calls `ephemeral_vrf_sdk::rnd::random_u8_with_range`.
///
/// Trusted: the outside function scans the seed from its last byte towards its
/// first for a byte below the limit, falls back on the last byte, and returns
/// the lower bound plus that byte modulo the number of values in the range.
/// It asserts `min_value <= max_value`, so callers must establish it.
#[verifier::external_body]
pub(crate) fn draw_u8_in_range(seed: &[u8; 32], min_value: u8, max_value: u8) -> (value: u8)
    requires
        min_value <= max_value,
    ensures
        value == vrf_u8_in_range(seed@, min_value, max_value),
{
    ephemeral_vrf_sdk::rnd::random_u8_with_range(seed, min_value, max_value)
}

/// Whether one key comes before another, byte by byte.
pub open spec fn key_before(a: AccountKey, b: AccountKey) -> bool {
    exists|i: int|
        0 <= i < 32 && #[trigger] a.bytes[i] < b.bytes[i] && forall|j: int|
            0 <= j < i ==> a.bytes[j] == b.bytes[j]
}

/// Where a key goes into an ordered list: before the first key that it comes
/// before.
pub open spec fn insertion_slot(keys: Seq<AccountKey>, key: AccountKey) -> int
    decreases keys.len(),
{
    if keys.len() == 0 {
        0
    } else if key_before(key, keys[0]) {
        0
    } else {
        1 + insertion_slot(keys.skip(1), key)
    }
}

/// The keys of the candidates in byte order, each key once however often it
/// was put forward.
pub open spec fn sorted_keys(pool: Seq<EligibleValidator>) -> Seq<AccountKey>
    decreases pool.len(),
{
    if pool.len() == 0 {
        Seq::empty()
    } else {
        let rest = sorted_keys(pool.drop_last());
        let key = pool.last().pubkey;
        if rest.contains(key) {
            rest
        } else {
            rest.insert(insertion_slot(rest, key), key)
        }
    }
}

/// How many validators a drawn count seats: the count, or every candidate
/// where there are fewer. Candidates are counted by their keys.
pub open spec fn committee_size(candidates: nat, count: u8) -> nat {
    if count <= candidates {
        count as nat
    } else {
        candidates
    }
}

/// The committee that two draws seat: as many validators as were counted,
/// taken from the ordered candidates in a row, beginning at the drawn place
/// and going round at the end. No validator is seated twice.
pub open spec fn committee(pool: Seq<EligibleValidator>, count: u8, start: u8) -> Seq<AccountKey> {
    let keys = sorted_keys(pool);
    Seq::new(
        committee_size(keys.len(), count),
        |t: int| keys[(start + t) % (keys.len() as int)],
    )
}

/// A resolution after randomness was requested for it. A record whose market
/// is still unset is opened; any other keeps its votes and its committee.
pub open spec fn resolution_after_request(
    resolution: ResolutionView,
    market: AccountKey,
    use_case: RandomnessUseCase,
    eligible_validators: Seq<EligibleValidator>,
    bump: u8,
    now: int,
) -> ResolutionView {
    if resolution.market.is_unset() {
        ResolutionView {
            market,
            proposed_outcome: None,
            validators: Seq::empty(),
            validator_votes: Seq::empty(),
            dispute_end_time: now + DISPUTE_WINDOW,
            resolution_status: ResolutionStatus::AwaitingRandomness,
            randomness_seed: Seq::new(32, |i: int| 0u8),
            randomness_use_case: use_case,
            total_stake_validating: 0,
            eligible_validators,
            bump,
        }
    } else {
        ResolutionView {
            randomness_use_case: use_case,
            eligible_validators,
            resolution_status: ResolutionStatus::AwaitingRandomness,
            ..resolution
        }
    }
}

/// Why a request for randomness is refused, if it is. The checks are listed in
/// the order in which they are made.
pub open spec fn request_rejection(
    market: MarketView,
    resolution: ResolutionView,
    use_case: RandomnessUseCase,
    candidates: nat,
    now: int,
) -> Option<StreamError> {
    if use_case == RandomnessUseCase::ValidatorSelection && now < market.resolution_time {
        Some(StreamError::MarketNotReady)
    } else if use_case == RandomnessUseCase::ValidatorSelection && candidates == 0 {
        Some(StreamError::InsufficientValidators)
    } else if resolution.market.is_unset() && now + DISPUTE_WINDOW > i64::MAX {
        Some(StreamError::MathOverflow)
    } else {
        None
    }
}

/// A resolution that took delivery of a seed for seating a committee.
pub open spec fn resolution_with_seed(resolution: ResolutionView, seed: Seq<u8>) -> ResolutionView {
    ResolutionView {
        randomness_seed: seed,
        resolution_status: ResolutionStatus::SelectingValidators,
        ..resolution
    }
}

/// A resolution after its committee was seated.
pub open spec fn resolution_after_selection(resolution: ResolutionView, count: u8, start: u8) -> ResolutionView {
    ResolutionView {
        validators: committee(resolution.eligible_validators, count, start),
        resolution_status: ResolutionStatus::UnderValidation,
        ..resolution
    }
}

/// A resolution after a seed settled its market.
pub open spec fn resolution_after_tie_break(resolution: ResolutionView, seed: Seq<u8>) -> ResolutionView {
    ResolutionView {
        randomness_seed: seed,
        resolution_status: ResolutionStatus::ForcedByRandomness,
        ..resolution
    }
}

/// The count of validators that a seed draws.
pub open spec fn drawn_count(seed: Seq<u8>) -> u8 {
    vrf_u8_in_range(seed, 0, MIN_VALIDATORS)
}

/// The place among `choices` that a seed draws, counted from 0.
pub open spec fn drawn_place(seed: Seq<u8>, choices: nat) -> u8 {
    vrf_u8_in_range(seed, 0, (choices - 1) as u8)
}

/// Why a delivered seed is refused, if it is. A resolution takes a seed only
/// while it awaits one, so a seed that is delivered again is refused.
pub open spec fn delivery_rejection(market: MarketView, resolution: ResolutionView) -> Option<
    StreamError,
> {
    if resolution.resolution_status != ResolutionStatus::AwaitingRandomness {
        Some(StreamError::InvalidResolutionState)
    } else {
        match resolution.randomness_use_case {
            RandomnessUseCase::ValidatorSelection => {
                if resolution.eligible_validators.len() == 0 {
                    Some(StreamError::InsufficientValidators)
                } else if sorted_keys(resolution.eligible_validators).len() > 256 {
                    Some(StreamError::MathOverflow)
                } else {
                    None
                }
            },
            RandomnessUseCase::TieBreaker => {
                if market.outcomes.len() == 0 || market.outcomes.len() > 256 {
                    Some(StreamError::InvalidOutcome)
                } else {
                    None
                }
            },
            _ => None,
        }
    }
}

/// The resolution after a seed was delivered and taken.
pub open spec fn resolution_after_delivery(
    market: MarketView,
    resolution: ResolutionView,
    seed: Seq<u8>,
) -> ResolutionView {
    match resolution.randomness_use_case {
        RandomnessUseCase::ValidatorSelection => resolution_after_selection(
            resolution_with_seed(resolution, seed),
            drawn_count(seed),
            drawn_place(seed, sorted_keys(resolution.eligible_validators).len()),
        ),
        RandomnessUseCase::TieBreaker => resolution_after_tie_break(resolution, seed),
        _ => resolution,
    }
}

/// The market after a seed was delivered and taken: a tie-break commits the
/// drawn outcome, any other use leaves the market as it is.
pub open spec fn market_after_delivery(
    market: MarketView,
    resolution: ResolutionView,
    seed: Seq<u8>,
) -> MarketView {
    match resolution.randomness_use_case {
        RandomnessUseCase::TieBreaker => resolved_market(
            market,
            drawn_place(seed, market.outcomes.len()),
        ),
        _ => market,
    }
}

/// Byte order is transitive.
pub proof fn lemma_key_before_transitive(a: AccountKey, b: AccountKey, c: AccountKey)
    requires
        key_before(a, b),
        key_before(b, c),
    ensures
        key_before(a, c),
{
    let i = choose|i: int|
        0 <= i < 32 && #[trigger] a.bytes[i] < b.bytes[i] && forall|j: int|
            0 <= j < i ==> a.bytes[j] == b.bytes[j];
    let k = choose|k: int|
        0 <= k < 32 && #[trigger] b.bytes[k] < c.bytes[k] && forall|j: int|
            0 <= j < k ==> b.bytes[j] == c.bytes[j];
    let m = if i <= k {
        i
    } else {
        k
    };
    assert(a.bytes[m] < c.bytes[m]);
    assert(forall|j: int| 0 <= j < m ==> a.bytes[j] == c.bytes[j]);
}

/// No key comes before itself, and of two keys at most one comes before the
/// other.
pub proof fn lemma_key_before_asymmetric(a: AccountKey, b: AccountKey)
    requires
        key_before(a, b),
    ensures
        !key_before(b, a),
{
    if key_before(b, a) {
        let i = choose|i: int|
            0 <= i < 32 && #[trigger] a.bytes[i] < b.bytes[i] && forall|j: int|
                0 <= j < i ==> a.bytes[j] == b.bytes[j];
        let k = choose|k: int|
            0 <= k < 32 && #[trigger] b.bytes[k] < a.bytes[k] && forall|j: int|
                0 <= j < k ==> b.bytes[j] == a.bytes[j];
        if i < k {
            assert(b.bytes[i] == a.bytes[i]);
        } else if k < i {
            assert(a.bytes[k] == b.bytes[k]);
        }
    }
}

/// Of two different keys one comes before the other.
pub proof fn lemma_key_before_total(a: AccountKey, b: AccountKey)
    requires
        !key_before(a, b),
        !key_before(b, a),
    ensures
        a == b,
{
    assert forall|i: int| 0 <= i < 32 implies a.bytes[i] == b.bytes[i] by {
        lemma_equal_prefix(a, b, i);
    }
    assert(a.bytes =~= b.bytes);
}

proof fn lemma_equal_prefix(a: AccountKey, b: AccountKey, n: int)
    requires
        !key_before(a, b),
        !key_before(b, a),
        0 <= n < 32,
    ensures
        forall|j: int| 0 <= j <= n ==> a.bytes[j] == b.bytes[j],
    decreases n,
{
    if n > 0 {
        lemma_equal_prefix(a, b, n - 1);
    }
    if a.bytes[n] < b.bytes[n] {
        assert(key_before(a, b));
    } else if b.bytes[n] < a.bytes[n] {
        assert(key_before(b, a));
    }
}

/// The slot found for a key lies behind every key that the new key does not
/// come before, and at a key that it comes before.
pub proof fn lemma_insertion_slot(keys: Seq<AccountKey>, key: AccountKey)
    ensures
        0 <= insertion_slot(keys, key) <= keys.len(),
        insertion_slot(keys, key) < keys.len() ==> key_before(
            key,
            keys[insertion_slot(keys, key)],
        ),
        forall|i: int| 0 <= i < insertion_slot(keys, key) ==> !key_before(key, #[trigger] keys[i]),
    decreases keys.len(),
{
    if keys.len() > 0 && !key_before(key, keys[0]) {
        let rest = keys.skip(1);
        lemma_insertion_slot(rest, key);
        assert forall|i: int| 0 <= i < insertion_slot(keys, key) implies !key_before(
            key,
            #[trigger] keys[i],
        ) by {
            if i > 0 {
                assert(rest[i - 1] == keys[i]);
            }
        }
        if insertion_slot(keys, key) < keys.len() {
            assert(rest[insertion_slot(rest, key)] == keys[insertion_slot(keys, key)]);
        }
    }
}

/// Whether no key of a list comes before an earlier one.
pub open spec fn keys_ordered(keys: Seq<AccountKey>) -> bool {
    forall|i: int, j: int| 0 <= i < j < keys.len() ==> !key_before(keys[j], keys[i])
}

/// Whether a list holds no key twice.
pub open spec fn keys_distinct(keys: Seq<AccountKey>) -> bool {
    forall|i: int, j: int| 0 <= i < j < keys.len() ==> keys[i] != keys[j]
}

/// The ordered keys are in byte order and hold no key twice; each of them is
/// the key of a candidate, and the key of every candidate is among them.
pub proof fn lemma_sorted_keys(pool: Seq<EligibleValidator>)
    ensures
        keys_ordered(sorted_keys(pool)),
        keys_distinct(sorted_keys(pool)),
        sorted_keys(pool).len() <= pool.len(),
        pool.len() > 0 ==> sorted_keys(pool).len() > 0,
        forall|i: int|
            0 <= i < sorted_keys(pool).len() ==> exists|j: int|
                0 <= j < pool.len() && (#[trigger] sorted_keys(pool)[i]) == pool[j].pubkey,
        forall|j: int|
            0 <= j < pool.len() ==> sorted_keys(pool).contains((#[trigger] pool[j]).pubkey),
    decreases pool.len(),
{
    if pool.len() > 0 {
        let front = pool.drop_last();
        let rest = sorted_keys(front);
        let key = pool.last().pubkey;
        let all = sorted_keys(pool);
        lemma_sorted_keys(front);
        if rest.contains(key) {
            assert(all == rest);
            assert forall|i: int| 0 <= i < all.len() implies exists|j: int|
                0 <= j < pool.len() && (#[trigger] all[i]) == pool[j].pubkey by {
                let j = choose|j: int| 0 <= j < front.len() && rest[i] == front[j].pubkey;
                assert(front[j] == pool[j]);
            }
            assert forall|j: int| 0 <= j < pool.len() implies all.contains(
                (#[trigger] pool[j]).pubkey,
            ) by {
                if j < pool.len() - 1 {
                    assert(front[j] == pool[j]);
                }
            }
        } else {
            let slot = insertion_slot(rest, key);
            lemma_insertion_slot(rest, key);
            assert(all == rest.insert(slot, key));
            assert forall|i: int, j: int| 0 <= i < j < all.len() implies !key_before(
                all[j],
                all[i],
            ) by {
                if i == slot {
                    let behind = rest[j - 1];
                    assert(all[j] == behind);
                    if key_before(behind, key) {
                        if j - 1 > slot {
                            assert(!key_before(behind, rest[slot]));
                        }
                        lemma_key_before_transitive(behind, key, rest[slot]);
                        lemma_key_before_asymmetric(behind, rest[slot]);
                        if j - 1 == slot {
                            lemma_key_before_asymmetric(key, rest[slot]);
                        }
                    }
                } else if j == slot {
                    assert(all[i] == rest[i]);
                } else {
                    let a = if i < slot {
                        i
                    } else {
                        i - 1
                    };
                    let b = if j < slot {
                        j
                    } else {
                        j - 1
                    };
                    assert(all[i] == rest[a]);
                    assert(all[j] == rest[b]);
                }
            }
            assert forall|i: int, j: int| 0 <= i < j < all.len() implies all[i] != all[j] by {
                let a = if i < slot {
                    i
                } else {
                    i - 1
                };
                let b = if j < slot {
                    j
                } else {
                    j - 1
                };
                if i == slot {
                    assert(all[j] == rest[b]);
                    assert(rest.contains(rest[b]));
                } else if j == slot {
                    assert(all[i] == rest[a]);
                    assert(rest.contains(rest[a]));
                } else {
                    assert(all[i] == rest[a]);
                    assert(all[j] == rest[b]);
                }
            }
            assert forall|i: int| 0 <= i < all.len() implies exists|j: int|
                0 <= j < pool.len() && (#[trigger] all[i]) == pool[j].pubkey by {
                if i == slot {
                    assert(all[i] == pool[pool.len() - 1].pubkey);
                } else {
                    let a = if i < slot {
                        i
                    } else {
                        i - 1
                    };
                    assert(all[i] == rest[a]);
                    let j = choose|j: int| 0 <= j < front.len() && rest[a] == front[j].pubkey;
                    assert(front[j] == pool[j]);
                }
            }
            assert forall|j: int| 0 <= j < pool.len() implies all.contains(
                (#[trigger] pool[j]).pubkey,
            ) by {
                if j == pool.len() - 1 {
                    assert(all[slot] == key);
                } else {
                    assert(front[j] == pool[j]);
                    assert(rest.contains(front[j].pubkey));
                    let a = choose|a: int| 0 <= a < rest.len() && rest[a] == front[j].pubkey;
                    let b = if a < slot {
                        a
                    } else {
                        a + 1
                    };
                    assert(all[b] == rest[a]);
                }
            }
        }
    }
}

/// How often a key stands on a list.
pub open spec fn occurrences(keys: Seq<AccountKey>, key: AccountKey) -> nat
    decreases keys.len(),
{
    if keys.len() == 0 {
        0
    } else {
        occurrences(keys.drop_last(), key) + (if keys.last() == key {
            1nat
        } else {
            0nat
        })
    }
}

/// How often a key stands among the candidates.
pub open spec fn candidacies(pool: Seq<EligibleValidator>, key: AccountKey) -> nat
    decreases pool.len(),
{
    if pool.len() == 0 {
        0
    } else {
        candidacies(pool.drop_last(), key) + (if pool.last().pubkey == key {
            1nat
        } else {
            0nat
        })
    }
}

/// Whether two pools put the same keys forward, in whatever order and however
/// often.
pub open spec fn same_candidates(a: Seq<EligibleValidator>, b: Seq<EligibleValidator>) -> bool {
    forall|key: AccountKey| candidacies(a, key) > 0 <==> candidacies(b, key) > 0
}

/// A key that enters a list stands on it once more, and every other key as
/// often as before.
proof fn lemma_occurrences_insert(keys: Seq<AccountKey>, slot: int, entering: AccountKey, key: AccountKey)
    requires
        0 <= slot <= keys.len(),
    ensures
        occurrences(keys.insert(slot, entering), key) == occurrences(keys, key) + (if entering
            == key {
            1nat
        } else {
            0nat
        }),
    decreases keys.len(),
{
    let grown = keys.insert(slot, entering);
    if slot == keys.len() {
        assert(grown.drop_last() =~= keys);
    } else {
        lemma_occurrences_insert(keys.drop_last(), slot, entering, key);
        assert(grown.drop_last() =~= keys.drop_last().insert(slot, entering));
        assert(grown.last() == keys.last());
    }
}

/// A key stands on a list exactly when some place of the list holds it.
proof fn lemma_occurrences_place(keys: Seq<AccountKey>, key: AccountKey)
    ensures
        occurrences(keys, key) > 0 <==> exists|i: int| 0 <= i < keys.len() && keys[i] == key,
    decreases keys.len(),
{
    if keys.len() > 0 {
        let front = keys.drop_last();
        lemma_occurrences_place(front, key);
        if keys.last() == key {
            assert(keys[keys.len() - 1] == key);
        } else if occurrences(front, key) > 0 {
            let i = choose|i: int| 0 <= i < front.len() && front[i] == key;
            assert(keys[i] == key);
        } else {
            assert forall|i: int| 0 <= i < keys.len() implies keys[i] != key by {
                if i < front.len() {
                    assert(front[i] == keys[i]);
                }
            }
        }
    }
}

/// A key stands once among the ordered keys where a candidate carries it,
/// and not at all where none does.
proof fn lemma_sorted_keys_occurrences(pool: Seq<EligibleValidator>, key: AccountKey)
    ensures
        occurrences(sorted_keys(pool), key) == (if candidacies(pool, key) > 0 {
            1nat
        } else {
            0nat
        }),
    decreases pool.len(),
{
    if pool.len() > 0 {
        let rest = sorted_keys(pool.drop_last());
        let entering = pool.last().pubkey;
        lemma_sorted_keys_occurrences(pool.drop_last(), key);
        lemma_occurrences_place(rest, entering);
        if rest.contains(entering) {
            if entering == key {
                lemma_sorted_keys_occurrences(pool.drop_last(), entering);
            }
        } else {
            lemma_insertion_slot(rest, entering);
            lemma_occurrences_insert(rest, insertion_slot(rest, entering), entering, key);
        }
    }
}

/// Two ordered lists on which every key stands equally often are the same
/// list.
proof fn lemma_ordered_keys_unique(a: Seq<AccountKey>, b: Seq<AccountKey>)
    requires
        keys_ordered(a),
        keys_ordered(b),
        forall|key: AccountKey| occurrences(a, key) == occurrences(b, key),
    ensures
        a == b,
    decreases a.len(),
{
    if a.len() == 0 {
        if b.len() > 0 {
            assert(occurrences(b, b.last()) > 0);
            assert(occurrences(a, b.last()) == 0);
        }
        assert(a =~= b);
    } else {
        let v = a.last();
        assert(occurrences(a, v) > 0);
        assert(occurrences(b, v) > 0);
        lemma_occurrences_place(b, v);
        let j = choose|j: int| 0 <= j < b.len() && b[j] == v;
        let w = b.last();
        assert(occurrences(b, w) > 0);
        assert(occurrences(a, w) > 0);
        lemma_occurrences_place(a, w);
        let i = choose|i: int| 0 <= i < a.len() && a[i] == w;
        if v != w {
            assert(i < a.len() - 1);
            assert(j < b.len() - 1);
            assert(!key_before(a[a.len() - 1], a[i]));
            assert(!key_before(b[b.len() - 1], b[j]));
            lemma_key_before_total(v, w);
        }
        let front_a = a.drop_last();
        let front_b = b.drop_last();
        assert forall|key: AccountKey| occurrences(front_a, key) == occurrences(
            front_b,
            key,
        ) by {
            assert(occurrences(a, key) == occurrences(b, key));
        }
        assert(keys_ordered(front_a)) by {
            assert forall|x: int, y: int| 0 <= x < y < front_a.len() implies !key_before(
                front_a[y],
                front_a[x],
            ) by {
                assert(!key_before(a[y], a[x]));
            }
        }
        assert(keys_ordered(front_b)) by {
            assert forall|x: int, y: int| 0 <= x < y < front_b.len() implies !key_before(
                front_b[y],
                front_b[x],
            ) by {
                assert(!key_before(b[y], b[x]));
            }
        }
        lemma_ordered_keys_unique(front_a, front_b);
        assert(a =~= front_a.push(v));
        assert(b =~= front_b.push(w));
    }
}

/// The committee depends on who the candidates are, not on the order in which
/// they were put forward.
pub proof fn lemma_committee_ignores_order(
    a: Seq<EligibleValidator>,
    b: Seq<EligibleValidator>,
    count: u8,
    start: u8,
)
    requires
        same_candidates(a, b),
    ensures
        sorted_keys(a) == sorted_keys(b),
        committee(a, count, start) == committee(b, count, start),
{
    lemma_sorted_keys(a);
    lemma_sorted_keys(b);
    assert forall|key: AccountKey| occurrences(sorted_keys(a), key) == occurrences(
        sorted_keys(b),
        key,
    ) by {
        lemma_sorted_keys_occurrences(a, key);
        lemma_sorted_keys_occurrences(b, key);
        assert(candidacies(a, key) > 0 <==> candidacies(b, key) > 0);
    }
    lemma_ordered_keys_unique(sorted_keys(a), sorted_keys(b));
}

/// Every seated validator is a candidate, no more are seated than were
/// counted, and no more than there are candidates.
pub proof fn lemma_committee_from_pool(pool: Seq<EligibleValidator>, count: u8, start: u8)
    ensures
        committee(pool, count, start).len() == committee_size(sorted_keys(pool).len(), count),
        committee(pool, count, start).len() <= count,
        committee(pool, count, start).len() <= pool.len(),
        forall|t: int|
            0 <= t < committee(pool, count, start).len() ==> exists|j: int|
                0 <= j < pool.len() && (#[trigger] committee(pool, count, start)[t])
                    == pool[j].pubkey,
{
    lemma_sorted_keys(pool);
    let keys = sorted_keys(pool);
    assert forall|t: int| 0 <= t < committee(pool, count, start).len() implies exists|j: int|
        0 <= j < pool.len() && (#[trigger] committee(pool, count, start)[t])
            == pool[j].pubkey by {
        let at = (start + t) % (keys.len() as int);
        assert(0 <= at < keys.len());
        assert(committee(pool, count, start)[t] == keys[at]);
    }
}

/// Two places of a row that goes round a list fall on different places of the
/// list as long as the row is no longer than the list.
proof fn lemma_round_places_differ(start: int, first: int, second: int, length: int)
    requires
        0 <= start,
        0 <= first < second < length,
    ensures
        (start + first) % length != (start + second) % length,
{
    let a = start + first;
    let b = start + second;
    vstd::arithmetic::div_mod::lemma_fundamental_div_mod(a, length);
    vstd::arithmetic::div_mod::lemma_fundamental_div_mod(b, length);
    if a % length == b % length {
        let qa = a / length;
        let qb = b / length;
        assert(b - a == length * (qb - qa)) by (nonlinear_arith)
            requires
                a == length * qa + a % length,
                b == length * qb + b % length,
                a % length == b % length,
        ;
        assert(false) by (nonlinear_arith)
            requires
                b - a == length * (qb - qa),
                0 < b - a < length,
        ;
    }
}

/// No validator is seated twice, whatever the pool and the draws.
pub proof fn lemma_committee_distinct(pool: Seq<EligibleValidator>, count: u8, start: u8)
    ensures
        keys_distinct(committee(pool, count, start)),
{
    lemma_sorted_keys(pool);
    let keys = sorted_keys(pool);
    let seated = committee(pool, count, start);
    let length = keys.len() as int;
    assert forall|t: int, u: int| 0 <= t < u < seated.len() implies seated[t] != seated[u] by {
        lemma_round_places_differ(start as int, t, u, length);
        let at = (start + t) % length;
        let bt = (start + u) % length;
        assert(0 <= at < length && 0 <= bt < length);
        assert(seated[t] == keys[at]);
        assert(seated[u] == keys[bt]);
        if at < bt {
            assert(keys[at] != keys[bt]);
        } else {
            assert(keys[bt] != keys[at]);
        }
    }
}

/// Whether one key comes before another.
fn key_precedes(a: &AccountKey, b: &AccountKey) -> (before: bool)
    ensures
        before == key_before(*a, *b),
{
    let mut i: usize = 0;
    while i < 32
        invariant
            i <= 32,
            forall|j: int| 0 <= j < i ==> a.bytes[j] == b.bytes[j],
        decreases 32 - i,
    {
        if a.bytes[i] < b.bytes[i] {
            return true;
        }
        if a.bytes[i] > b.bytes[i] {
            assert(!key_before(*a, *b)) by {
                if key_before(*a, *b) {
                    let k = choose|k: int|
                        0 <= k < 32 && #[trigger] a.bytes[k] < b.bytes[k] && forall|j: int|
                            0 <= j < k ==> a.bytes[j] == b.bytes[j];
                    if k > i {
                        assert(a.bytes[i as int] == b.bytes[i as int]);
                    }
                }
            }
            return false;
        }
        i += 1;
    }
    false
}

/// Finds the slot at which a key enters an ordered list.
fn find_insertion_slot(keys: &Vec<AccountKey>, key: &AccountKey) -> (slot: usize)
    ensures
        slot == insertion_slot(keys@, *key),
        slot <= keys.len(),
{
    let mut i: usize = 0;
    assert(keys@.skip(0) =~= keys@);
    while i < keys.len()
        invariant
            i <= keys.len(),
            insertion_slot(keys@, *key) == i + insertion_slot(keys@.skip(i as int), *key),
        decreases keys.len() - i,
    {
        if key_precedes(key, &keys[i]) {
            return i;
        }
        assert(keys@.skip(i as int).skip(1) =~= keys@.skip(i + 1));
        i += 1;
    }
    i
}

/// Puts the keys of the candidates in byte order, each key once.
fn sort_keys(pool: &Vec<EligibleValidator>) -> (keys: Vec<AccountKey>)
    ensures
        keys@ == sorted_keys(pool@),
{
    let mut keys: Vec<AccountKey> = Vec::new();
    let mut i: usize = 0;
    assert(pool@.take(0) =~= Seq::<EligibleValidator>::empty());
    while i < pool.len()
        invariant
            i <= pool.len(),
            keys@ == sorted_keys(pool@.take(i as int)),
        decreases pool.len() - i,
    {
        let key: AccountKey = pool[i].pubkey;
        assert(pool@.take(i + 1).drop_last() =~= pool@.take(i as int));
        if !key.listed_in(&keys) {
            let slot: usize = find_insertion_slot(&keys, &key);
            keys.insert(slot, key);
        }
        i += 1;
    }
    assert(pool@.take(i as int) =~= pool@);
    keys
}

/// Seats a committee from the candidates.
fn seat_committee(pool: &Vec<EligibleValidator>, count: u8, start: u8) -> (seated: Vec<AccountKey>)
    ensures
        seated@ == committee(pool@, count, start),
{
    let keys: Vec<AccountKey> = sort_keys(pool);
    let candidates: usize = keys.len();
    let size: usize = if (count as usize) <= candidates {
        count as usize
    } else {
        candidates
    };
    let mut seated: Vec<AccountKey> = Vec::new();
    let mut t: usize = 0;
    while t < size
        invariant
            t <= size,
            size <= candidates,
            size <= 255,
            candidates == keys.len(),
            keys@ == sorted_keys(pool@),
            seated.len() == t,
            forall|u: int|
                0 <= u < t ==> seated@[u] == keys@[(start + u) % (candidates as int)],
        decreases size - t,
    {
        let at: usize = ((start as usize) + t) % candidates;
        seated.push(keys[at]);
        t += 1;
    }
    assert(seated@ =~= committee(pool@, count, start));
    seated
}

/// The records that a request for randomness touches.
#[derive(Clone, Debug, PartialEq, Eq)]
pub struct RequestMarketRandomness {
    pub requestor: AccountKey,
    pub market_key: AccountKey,
    pub market: BettingMarket,
    pub resolution: MarketResolution,
}

impl RequestMarketRandomness {
    /// Prepares the resolution record for a seed, or refuses and changes
    /// nothing. The caller sends the request to the oracle in the same step.
    pub fn request_randomness(
        &mut self,
        use_case: RandomnessUseCase,
        eligible_validators: Vec<EligibleValidator>,
        bump: u8,
        now: i64,
    ) -> (res: Result<(), StreamError>)
        ensures
            old(self).resolution@.wf() ==> final(self).resolution@.wf(),
            final(self).requestor == old(self).requestor,
            final(self).market_key == old(self).market_key,
            final(self).market == old(self).market,
            match res {
                Ok(()) => {
                    &&& request_rejection(
                        old(self).market@,
                        old(self).resolution@,
                        use_case,
                        eligible_validators.len() as nat,
                        now as int,
                    ) is None
                    &&& final(self).resolution@ == resolution_after_request(
                        old(self).resolution@,
                        old(self).market_key,
                        use_case,
                        eligible_validators@,
                        bump,
                        now as int,
                    )
                },
                Err(e) => {
                    &&& request_rejection(
                        old(self).market@,
                        old(self).resolution@,
                        use_case,
                        eligible_validators.len() as nat,
                        now as int,
                    ) == Some(e)
                    &&& *final(self) == *old(self)
                },
            },
    {
        match use_case {
            RandomnessUseCase::ValidatorSelection => {
                if now < self.market.resolution_time {
                    return Err(StreamError::MarketNotReady);
                }
                if eligible_validators.len() == 0 {
                    return Err(StreamError::InsufficientValidators);
                }
            },
            _ => {},
        }
        if self.resolution.market.is_default() {
            let dispute_end_time: i64 = match now.checked_add(DISPUTE_WINDOW) {
                Some(v) => v,
                None => {
                    return Err(StreamError::MathOverflow);
                },
            };
            let seed: [u8; 32] = [0u8; 32];
            assert(seed@ =~= Seq::new(32, |i: int| 0u8));
            self.resolution = MarketResolution {
                market: self.market_key,
                proposed_outcome: None,
                validators: Vec::new(),
                validator_votes: Vec::new(),
                dispute_end_time,
                resolution_status: ResolutionStatus::AwaitingRandomness,
                randomness_seed: seed,
                randomness_use_case: use_case,
                total_stake_validating: 0,
                eligible_validators,
                bump,
            };
        } else {
            self.resolution.randomness_use_case = use_case;
            self.resolution.eligible_validators = eligible_validators;
            self.resolution.resolution_status = ResolutionStatus::AwaitingRandomness;
        }
        Ok(())
    }
}

/// The records that a delivered seed touches.
#[derive(Clone, Debug, PartialEq, Eq)]
pub struct CallbackProcessRandomness {
    pub market: BettingMarket,
    pub resolution: MarketResolution,
}

impl CallbackProcessRandomness {
    /// Seats the committee of a resolution that is selecting its validators
    /// and opens the vote.
    pub fn select_validators(&mut self, count: u8, start: u8) -> (res: Result<(), StreamError>)
        ensures
            old(self).resolution@.wf() ==> final(self).resolution@.wf(),
            final(self).market == old(self).market,
            res is Err <==> old(self).resolution.resolution_status
                != ResolutionStatus::SelectingValidators,
            match res {
                Ok(()) => final(self).resolution@ == resolution_after_selection(
                    old(self).resolution@,
                    count,
                    start,
                ),
                Err(e) => e == StreamError::InvalidResolutionState && *final(self) == *old(self),
            },
            res is Ok ==> {
                &&& keys_distinct(final(self).resolution.validators@)
                &&& final(self).resolution.validators.len() <= count
                &&& forall|t: int|
                    0 <= t < final(self).resolution.validators.len() ==> exists|j: int|
                        0 <= j < old(self).resolution.eligible_validators.len() && (
                        #[trigger] final(self).resolution.validators@[t]) == old(
                            self,
                        ).resolution.eligible_validators@[j].pubkey
            },
    {
        if self.resolution.resolution_status != ResolutionStatus::SelectingValidators {
            return Err(StreamError::InvalidResolutionState);
        }
        let seated: Vec<AccountKey> = seat_committee(
            &self.resolution.eligible_validators,
            count,
            start,
        );
        proof {
            lemma_committee_distinct(self.resolution.eligible_validators@, count, start);
            lemma_committee_from_pool(self.resolution.eligible_validators@, count, start);
        }
        self.resolution.validators = seated;
        self.resolution.resolution_status = ResolutionStatus::UnderValidation;
        Ok(())
    }

    /// Commits a drawn outcome to the market of a resolution that awaits its
    /// seed, and closes the resolution.
    pub fn break_tie(&mut self, randomness: [u8; 32], winner: u8) -> (res: Result<(), StreamError>)
        ensures
            old(self).resolution@.wf() ==> final(self).resolution@.wf(),
            old(self).market@.wf() ==> final(self).market@.wf(),
            match res {
                Ok(()) => {
                    &&& old(self).resolution.resolution_status
                        == ResolutionStatus::AwaitingRandomness
                    &&& (winner as int) < old(self).market.outcomes.len()
                    &&& final(self).market@ == resolved_market(old(self).market@, winner)
                    &&& final(self).resolution@ == resolution_after_tie_break(
                        old(self).resolution@,
                        randomness@,
                    )
                },
                Err(e) => {
                    &&& *final(self) == *old(self)
                    &&& e == (if old(self).resolution.resolution_status
                        != ResolutionStatus::AwaitingRandomness {
                        StreamError::InvalidResolutionState
                    } else {
                        StreamError::InvalidOutcome
                    })
                    &&& old(self).resolution.resolution_status
                        != ResolutionStatus::AwaitingRandomness || winner >= old(
                        self,
                    ).market.outcomes.len()
                },
            },
    {
        if self.resolution.resolution_status != ResolutionStatus::AwaitingRandomness {
            return Err(StreamError::InvalidResolutionState);
        }
        if winner as usize >= self.market.outcomes.len() {
            return Err(StreamError::InvalidOutcome);
        }
        self.market.winning_outcome = Some(winner);
        self.market.resolved = true;
        self.resolution.randomness_seed = randomness;
        self.resolution.resolution_status = ResolutionStatus::ForcedByRandomness;
        Ok(())
    }

    /// Takes delivery of a seed, or refuses it and changes nothing.
    ///
    /// A seed for seating a committee draws how many validators are seated and
    /// where among the ordered candidates the committee begins; a candidate
    /// that was put forward more than once counts once. A seed for a
    /// tie-break draws the winning outcome and commits it to the market. A
    /// seed for any other use is taken without effect.
    pub fn process_randomness(&mut self, randomness: [u8; 32]) -> (res: Result<(), StreamError>)
        ensures
            old(self).resolution@.wf() ==> final(self).resolution@.wf(),
            old(self).market@.wf() ==> final(self).market@.wf(),
            match res {
                Ok(()) => {
                    &&& delivery_rejection(old(self).market@, old(self).resolution@) is None
                    &&& final(self).market@ == market_after_delivery(
                        old(self).market@,
                        old(self).resolution@,
                        randomness@,
                    )
                    &&& final(self).resolution@ == resolution_after_delivery(
                        old(self).market@,
                        old(self).resolution@,
                        randomness@,
                    )
                },
                Err(e) => {
                    &&& delivery_rejection(old(self).market@, old(self).resolution@) == Some(e)
                    &&& *final(self) == *old(self)
                },
            },
            res is Ok && old(self).resolution.randomness_use_case == RandomnessUseCase::TieBreaker
                ==> {
                &&& final(self).market.winning_outcome is Some
                &&& (final(self).market.winning_outcome->0 as int) < old(self).market.outcomes.len()
            },
            old(self).resolution.randomness_use_case != RandomnessUseCase::TieBreaker
                ==> final(self).market == old(self).market,
            res is Ok && old(self).resolution.randomness_use_case
                == RandomnessUseCase::ValidatorSelection ==> {
                &&& keys_distinct(final(self).resolution.validators@)
                &&& final(self).resolution.validators.len() <= MIN_VALIDATORS
                &&& forall|t: int|
                    0 <= t < final(self).resolution.validators.len() ==> exists|j: int|
                        0 <= j < old(self).resolution.eligible_validators.len() && (
                        #[trigger] final(self).resolution.validators@[t]) == old(
                            self,
                        ).resolution.eligible_validators@[j].pubkey
            },
    {
        if self.resolution.resolution_status != ResolutionStatus::AwaitingRandomness {
            return Err(StreamError::InvalidResolutionState);
        }
        match self.resolution.randomness_use_case {
            RandomnessUseCase::ValidatorSelection => {
                if self.resolution.eligible_validators.len() == 0 {
                    return Err(StreamError::InsufficientValidators);
                }
                let candidates: usize = sort_keys(&self.resolution.eligible_validators).len();
                proof {
                    lemma_sorted_keys(self.resolution.eligible_validators@);
                }
                if candidates > 256 {
                    return Err(StreamError::MathOverflow);
                }
                let count: u8 = draw_u8_in_range(&randomness, 0, MIN_VALIDATORS);
                let start: u8 = draw_u8_in_range(&randomness, 0, (candidates - 1) as u8);
                proof {
                    lemma_draw_in_range(randomness@, 0, MIN_VALIDATORS);
                }
                self.resolution.randomness_seed = randomness;
                self.resolution.resolution_status = ResolutionStatus::SelectingValidators;
                self.select_validators(count, start)
            },
            RandomnessUseCase::TieBreaker => {
                let choices: usize = self.market.outcomes.len();
                if choices == 0 || choices > 256 {
                    return Err(StreamError::InvalidOutcome);
                }
                let winner: u8 = draw_u8_in_range(&randomness, 0, (choices - 1) as u8);
                proof {
                    lemma_draw_in_range(randomness@, 0, (choices - 1) as u8);
                }
                self.break_tie(randomness, winner)
            },
            _ => Ok(()),
        }
    }
}

} // verus!
