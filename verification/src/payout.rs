//! Fixed-point arithmetic of a purchase: what is locked, what is paid at
//! once, and how a refund is split between customer and provider.
//!
//! Every quotient is a floor division; what a division drops is not paid out.

use vstd::prelude::*;
use vstd::arithmetic::div_mod::{lemma_div_is_ordered, lemma_fundamental_div_mod, lemma_hoist_over_denominator};
use vstd::arithmetic::mul::{lemma_mul_inequality, lemma_mul_is_associative, lemma_mul_is_commutative, lemma_mul_is_distributive_add_other_way};

verus! {

/// The largest price whose thousandfold still fits in 128 bits.
pub const MAX_SCALABLE_PRICE: u128 = 340282366920938463463374607431768211;

/// The part of `price` that is locked at purchase.
pub open spec fn locked_amount_spec(price: int, permille: int) -> int {
    price * permille / 1000
}

/// The part of `price` that the provider receives at purchase.
pub open spec fn immediate_payout_spec(price: int, permille: int) -> int {
    price * (1000 - permille) / 1000
}

/// The customer's part of the locked money, in thousandths of a currency
/// unit: what is left of the price for the unused time, capped by what was
/// promised.
pub open spec fn customer_portion_scaled(price: int, permille: int, elapsed: int, duration: int) -> int {
    let used = price * 1000 * elapsed / duration;
    let remaining = price * 1000 - used;
    let promised = price * permille;
    if remaining < promised {
        remaining
    } else {
        promised
    }
}

/// What the customer receives on a refund after `elapsed` of `duration`.
pub open spec fn customer_refund_spec(price: int, permille: int, elapsed: int, duration: int) -> int {
    customer_portion_scaled(price, permille, elapsed, duration) / 1000
}

/// What the provider receives on a refund after `elapsed` of `duration`:
/// the promised amount that the customer's portion leaves over.
pub open spec fn provider_refund_spec(price: int, permille: int, elapsed: int, duration: int) -> int {
    let portion = customer_portion_scaled(price, permille, elapsed, duration);
    let promised = price * permille;
    if portion < promised {
        (promised - portion) / 1000
    } else {
        0
    }
}

/// The two payments of a refund.
#[derive(Clone, Copy, Debug, PartialEq, Eq, Structural)]
pub struct RefundSplit {
    /// Paid back to the customer.
    pub customer: u128,
    /// Paid to the provider out of the locked money.
    pub provider: u128,
}

/// `a * b / d` equals the quotient of `a` times `b`, plus what the remainder
/// of `a` contributes.
proof fn lemma_mul_div_split(a: int, b: int, d: int)
    requires
        0 < d,
    ensures
        a * b / d == (a / d) * b + (a % d) * b / d,
{
    let q = a / d;
    let r = a % d;
    lemma_fundamental_div_mod(a, d);
    assert(a * b == r * b + (q * b) * d) by {
        assert(a == d * q + r);
        lemma_mul_is_distributive_add_other_way(b, d * q, r);
        lemma_mul_is_commutative(d, q);
        lemma_mul_is_associative(q, d, b);
        lemma_mul_is_commutative(d, b);
        lemma_mul_is_associative(q, b, d);
    }
    lemma_hoist_over_denominator(r * b, q * b, d as nat);
}

/// Floor of `a * b / d` for a factor `b` that does not exceed `d`, computed
/// without an intermediate above `a`.
fn mul_div(a: u128, b: u128, d: u128) -> (r: u128)
    requires
        0 < d,
        b <= d,
        d <= u64::MAX,
    ensures
        r == a * b / (d as int),
        r <= a,
{
    let q: u128 = a / d;
    let rem: u128 = a % d;
    proof {
        lemma_mul_div_split(a as int, b as int, d as int);
        lemma_fundamental_div_mod(a as int, d as int);
        // q * b <= q * d <= a
        lemma_mul_inequality(b as int, d as int, q as int);
        lemma_mul_is_commutative(q as int, b as int);
        lemma_mul_is_commutative(q as int, d as int);
        // rem * b <= rem * d < d * d
        lemma_mul_inequality(b as int, d as int, rem as int);
        lemma_mul_is_commutative(rem as int, b as int);
        lemma_mul_is_commutative(rem as int, d as int);
        lemma_mul_inequality(rem as int, d as int, d as int);
        assert(d * d <= 0xffff_ffff_ffff_ffff * 0xffff_ffff_ffff_ffff) by (nonlinear_arith)
            requires
                0 < d <= 0xffff_ffff_ffff_ffff,
        ;
        // (rem * b) / d <= (rem * d) / d == rem
        lemma_div_is_ordered(rem * b, rem * d, d as int);
        assert((rem * d) / (d as int) == rem) by (nonlinear_arith)
            requires
                0 < d,
                0 <= rem,
        ;
    }
    q * b + rem * b / d
}

/// The amount set aside at purchase against a later refund.
pub fn locked_amount(price: u128, permille: u128) -> (locked: u128)
    requires
        permille <= 1000,
    ensures
        locked == locked_amount_spec(price as int, permille as int),
        locked <= price,
{
    mul_div(price, permille, 1000)
}

/// The amount paid to the provider at purchase.
pub fn immediate_payout(price: u128, permille: u128) -> (payout: u128)
    requires
        permille <= 1000,
    ensures
        payout == immediate_payout_spec(price as int, permille as int),
        payout <= price,
{
    mul_div(price, 1000 - permille, 1000)
}

/// Splits the locked money of a purchase that is refunded after `elapsed`
/// of its `duration`.
pub fn refund_split(price: u128, permille: u128, elapsed: u64, duration: u64) -> (split: RefundSplit)
    requires
        permille <= 1000,
        0 < duration,
        elapsed <= duration,
        price <= MAX_SCALABLE_PRICE,
    ensures
        split.customer == customer_refund_spec(price as int, permille as int, elapsed as int, duration as int),
        split.provider == provider_refund_spec(price as int, permille as int, elapsed as int, duration as int),
{
    let scaled: u128 = price * 1000;
    let used: u128 = mul_div(scaled, elapsed as u128, duration as u128);
    let remaining: u128 = scaled - used;
    proof {
        lemma_mul_inequality(permille as int, 1000, price as int);
        lemma_mul_is_commutative(price as int, permille as int);
        lemma_mul_is_commutative(price as int, 1000);
    }
    let promised: u128 = price * permille;
    if remaining < promised {
        RefundSplit { customer: remaining / 1000, provider: (promised - remaining) / 1000 }
    } else {
        RefundSplit { customer: promised / 1000, provider: 0 }
    }
}

/// A refund at the moment of purchase gives the customer all that is
/// locked, and the provider nothing.
pub proof fn lemma_refund_at_purchase(price: int, permille: int, duration: int)
    requires
        0 <= price,
        0 <= permille <= 1000,
        0 < duration,
    ensures
        customer_refund_spec(price, permille, 0, duration) == locked_amount_spec(price, permille),
        provider_refund_spec(price, permille, 0, duration) == 0,
{
    assert(price * 1000 * 0 == 0) by (nonlinear_arith);
    assert(0int / duration == 0) by (nonlinear_arith)
        requires
            0 < duration,
    ;
    assert(price * permille <= price * 1000) by (nonlinear_arith)
        requires
            0 <= price,
            permille <= 1000,
    ;
}

/// A refund at the end of the term gives the customer nothing, and the
/// provider all that is locked.
pub proof fn lemma_refund_at_maturity(price: int, permille: int, duration: int)
    requires
        0 <= price,
        0 <= permille <= 1000,
        0 < duration,
    ensures
        customer_refund_spec(price, permille, duration, duration) == 0,
        provider_refund_spec(price, permille, duration, duration) == locked_amount_spec(price, permille),
{
    assert(price * 1000 * duration / duration == price * 1000) by (nonlinear_arith)
        requires
            0 < duration,
    ;
    assert(0 <= price * permille) by (nonlinear_arith)
        requires
            0 <= price,
            0 <= permille,
    ;
}

/// The later the refund, the less the customer receives.
pub proof fn lemma_refund_decreases(price: int, permille: int, sooner: int, later: int, duration: int)
    requires
        0 <= price,
        0 <= permille <= 1000,
        0 < duration,
        0 <= sooner <= later,
    ensures
        customer_refund_spec(price, permille, later, duration) <= customer_refund_spec(price, permille, sooner, duration),
{
    assert(price * 1000 * sooner <= price * 1000 * later) by (nonlinear_arith)
        requires
            0 <= price,
            sooner <= later,
    ;
    lemma_div_is_ordered(price * 1000 * sooner, price * 1000 * later, duration);
    lemma_div_is_ordered(
        customer_portion_scaled(price, permille, later, duration),
        customer_portion_scaled(price, permille, sooner, duration),
        1000,
    );
}

/// Customer and provider together never receive more than is locked, and
/// less than one unit of it stays behind.
pub proof fn lemma_refund_within_locked(price: int, permille: int, elapsed: int, duration: int)
    requires
        0 <= price,
        0 <= permille <= 1000,
        0 < duration,
        0 <= elapsed <= duration,
    ensures
        0 <= customer_refund_spec(price, permille, elapsed, duration),
        0 <= provider_refund_spec(price, permille, elapsed, duration),
        customer_refund_spec(price, permille, elapsed, duration) + provider_refund_spec(price, permille, elapsed, duration)
            <= locked_amount_spec(price, permille),
        locked_amount_spec(price, permille) <= customer_refund_spec(price, permille, elapsed, duration)
            + provider_refund_spec(price, permille, elapsed, duration) + 1,
{
    let promised = price * permille;
    let portion = customer_portion_scaled(price, permille, elapsed, duration);
    assert(0 <= promised) by (nonlinear_arith)
        requires
            promised == price * permille,
            0 <= price,
            0 <= permille,
    ;
    assert(price * 1000 * elapsed <= price * 1000 * duration) by (nonlinear_arith)
        requires
            0 <= price,
            elapsed <= duration,
    ;
    lemma_div_is_ordered(price * 1000 * elapsed, price * 1000 * duration, duration);
    assert(price * 1000 * duration / duration == price * 1000) by (nonlinear_arith)
        requires
            0 < duration,
    ;
    assert(0 <= portion <= promised);
    lemma_fundamental_div_mod(portion, 1000);
    lemma_fundamental_div_mod(promised - portion, 1000);
    lemma_fundamental_div_mod(promised, 1000);
}

} // verus!
