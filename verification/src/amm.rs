use vstd::prelude::*;

use crate::error::StreamError;

verus! {

/// Shares that a payment buys from a reserve under the constant-product rule:
/// `reserve * payment / (reserve + payment)`, rounded down.
pub open spec fn amm_shares(reserve: nat, payment: nat) -> nat {
    if reserve + payment == 0 {
        0
    } else {
        (reserve * payment) / (reserve + payment)
    }
}

/// What a priced purchase returns: the shares, or the reason none are issued.
pub open spec fn quote_result(reserve: nat, payment: nat) -> Result<u64, StreamError> {
    if reserve + payment == 0 {
        Err(StreamError::MathOverflow)
    } else if amm_shares(reserve, payment) == 0 {
        Err(StreamError::InvalidAmount)
    } else {
        Ok(amm_shares(reserve, payment) as u64)
    }
}

/// A purchase never yields more shares than the payment, nor more than the
/// reserve.
pub proof fn lemma_shares_bounded(reserve: nat, payment: nat)
    ensures
        amm_shares(reserve, payment) <= payment,
        amm_shares(reserve, payment) <= reserve,
        reserve > 0 && payment > 0 ==> amm_shares(reserve, payment) < payment,
{
    if reserve + payment > 0 {
        let d = (reserve + payment) as int;
        let n = (reserve * payment) as int;
        assert(n <= payment * d) by (nonlinear_arith)
            requires
                n == reserve * payment,
                d == reserve + payment,
        ;
        assert(n <= reserve * d) by (nonlinear_arith)
            requires
                n == reserve * payment,
                d == reserve + payment,
        ;
        vstd::arithmetic::div_mod::lemma_div_is_ordered(n, payment * d, d);
        vstd::arithmetic::div_mod::lemma_div_is_ordered(n, reserve * d, d);
        vstd::arithmetic::div_mod::lemma_div_multiples_vanish(payment as int, d);
        vstd::arithmetic::div_mod::lemma_div_multiples_vanish(reserve as int, d);
        if reserve > 0 && payment > 0 {
            assert(n < payment * d) by (nonlinear_arith)
                requires
                    n == reserve * payment,
                    d == reserve + payment,
                    reserve > 0,
                    payment > 0,
            ;
            vstd::arithmetic::div_mod::lemma_fundamental_div_mod(n, d);
            let q = n / d;
            assert(q < payment) by (nonlinear_arith)
                requires
                    n == d * q + n % d,
                    0 <= n % d,
                    n < payment * d,
                    d > 0,
            ;
        }
    }
}

/// Prices a payment against a reserve.
pub fn shares_for_payment(reserve: u64, payment: u64) -> (res: Result<u64, StreamError>)
    ensures
        res == quote_result(reserve as nat, payment as nat),
{
    let wide_reserve: u128 = reserve as u128;
    let wide_payment: u128 = payment as u128;
    assert(wide_reserve * wide_payment <= u128::MAX) by (nonlinear_arith)
        requires
            wide_reserve <= u64::MAX,
            wide_payment <= u64::MAX,
    ;
    let product: u128 = wide_reserve * wide_payment;
    let depth: u128 = wide_reserve + wide_payment;
    if depth == 0 {
        return Err(StreamError::MathOverflow);
    }
    let shares: u128 = product / depth;
    proof {
        lemma_shares_bounded(reserve as nat, payment as nat);
    }
    if shares == 0 {
        return Err(StreamError::InvalidAmount);
    }
    Ok(shares as u64)
}

/// Buying more never buys at a better rate, up to the one share that rounding
/// may take from the smaller purchase: for payments `p1 < p2` against one
/// reserve, `shares(p2) / p2 < (shares(p1) + 1) / p1`.
pub proof fn lemma_price_impact_monotonic(reserve: nat, p1: nat, p2: nat)
    requires
        0 < p1 < p2,
    ensures
        amm_shares(reserve, p2) * p1 < (amm_shares(reserve, p1) + 1) * p2,
{
    let d1 = (reserve + p1) as int;
    let d2 = (reserve + p2) as int;
    let n1 = (reserve * p1) as int;
    let n2 = (reserve * p2) as int;
    let s1 = n1 / d1;
    let s2 = n2 / d2;
    vstd::arithmetic::div_mod::lemma_fundamental_div_mod(n1, d1);
    vstd::arithmetic::div_mod::lemma_fundamental_div_mod(n2, d2);
    vstd::arithmetic::div_mod::lemma_mod_bound(n1, d1);
    vstd::arithmetic::div_mod::lemma_mod_bound(n2, d2);
    assert(s2 * d2 <= n2) by (nonlinear_arith)
        requires
            n2 == d2 * s2 + n2 % d2,
            0 <= n2 % d2,
    ;
    assert(n1 < (s1 + 1) * d1) by (nonlinear_arith)
        requires
            n1 == d1 * s1 + n1 % d1,
            n1 % d1 < d1,
    ;
    assert(s2 >= 0 && s1 >= 0) by (nonlinear_arith)
        requires
            n1 == d1 * s1 + n1 % d1,
            n2 == d2 * s2 + n2 % d2,
            0 <= n1 % d1 < d1,
            0 <= n2 % d2 < d2,
            n1 >= 0,
            n2 >= 0,
            d1 > 0,
            d2 > 0,
    ;
    lemma_rate_step(reserve as int, p1 as int, p2 as int, s1, s2);
}

/// The arithmetic core of the price-impact law.
proof fn lemma_rate_step(r: int, p1: int, p2: int, s1: int, s2: int)
    requires
        r >= 0,
        0 < p1 < p2,
        s1 >= 0,
        s2 >= 0,
        s2 * (r + p2) <= r * p2,
        r * p1 < (s1 + 1) * (r + p1),
    ensures
        s2 * p1 < (s1 + 1) * p2,
{
    // Were a >= b, then a * (r + p2) >= b * (r + p1), while the two bounds below
    // put a * (r + p2) strictly under b * (r + p1).
    let a = s2 * p1;
    let b = (s1 + 1) * p2;
    if a >= b {
        assert(a * (r + p2) <= p1 * (r * p2)) by (nonlinear_arith)
            requires
                a == s2 * p1,
                s2 * (r + p2) <= r * p2,
                p1 > 0,
        ;
        assert(b * (r + p1) > p2 * (r * p1)) by (nonlinear_arith)
            requires
                b == (s1 + 1) * p2,
                r * p1 < (s1 + 1) * (r + p1),
                p2 > 0,
        ;
        assert(p1 * (r * p2) == p2 * (r * p1)) by (nonlinear_arith);
        assert(a * (r + p2) >= b * (r + p1)) by (nonlinear_arith)
            requires
                a >= b,
                b >= 0,
                r + p2 >= r + p1,
                r + p1 > 0,
        ;
        assert(false);
    }
}

/// Where the smaller purchase divides without remainder, buying more never buys
/// at a better rate: `shares(p2) / p2 <= shares(p1) / p1`.
pub proof fn lemma_price_impact_exact(reserve: nat, p1: nat, p2: nat)
    requires
        0 < p1 < p2,
        (reserve * p1) % (reserve + p1) == 0,
    ensures
        amm_shares(reserve, p2) * p1 <= amm_shares(reserve, p1) * p2,
{
    let d1 = (reserve + p1) as int;
    let d2 = (reserve + p2) as int;
    let n1 = (reserve * p1) as int;
    let n2 = (reserve * p2) as int;
    let s1 = n1 / d1;
    let s2 = n2 / d2;
    vstd::arithmetic::div_mod::lemma_fundamental_div_mod(n1, d1);
    vstd::arithmetic::div_mod::lemma_fundamental_div_mod(n2, d2);
    vstd::arithmetic::div_mod::lemma_mod_bound(n2, d2);
    assert(s2 * d2 <= n2) by (nonlinear_arith)
        requires
            n2 == d2 * s2 + n2 % d2,
            0 <= n2 % d2,
    ;
    assert(n1 == s1 * d1) by (nonlinear_arith)
        requires
            n1 == d1 * s1 + n1 % d1,
            n1 % d1 == 0,
    ;
    assert(s2 >= 0 && s1 >= 0) by (nonlinear_arith)
        requires
            n1 == s1 * d1,
            n2 == d2 * s2 + n2 % d2,
            0 <= n2 % d2 < d2,
            n1 >= 0,
            n2 >= 0,
            d1 > 0,
            d2 > 0,
    ;
    let r = reserve as int;
    let a = s2 * p1;
    let b = s1 * p2;
    if a > b {
        assert(a * (r + p2) <= p1 * (r * p2)) by (nonlinear_arith)
            requires
                a == s2 * p1,
                s2 * (r + p2) <= r * p2,
                p1 > 0,
        ;
        assert(b * (r + p1) == p2 * (r * p1)) by (nonlinear_arith)
            requires
                b == s1 * p2,
                r * p1 == s1 * (r + p1),
        ;
        assert(p1 * (r * p2) == p2 * (r * p1)) by (nonlinear_arith);
        assert(a * (r + p2) > b * (r + p1)) by (nonlinear_arith)
            requires
                a > b,
                b >= 0,
                r + p2 >= r + p1,
                r + p1 > 0,
        ;
        assert(false);
    }
}

} // verus!
