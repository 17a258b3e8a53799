use vstd::prelude::*;
use vstd::arithmetic::div_mod::{lemma_fundamental_div_mod, lemma_div_multiples_vanish_fancy,
    lemma_multiply_divide_le, lemma_div_pos_is_pos, lemma_mod_bound, lemma_div_by_multiple};
use vstd::arithmetic::mul::{lemma_mul_inequality, lemma_mul_is_commutative,
    lemma_mul_is_distributive_add, lemma_mul_nonnegative};
use crate::state::{lemma_sum_nonneg, sum_shares};

verus! {

/// The pro-rata payout owed to a share: `floor(balance * share / total)`,
/// the truncating multiply-then-divide rule of the settlement arithmetic.
pub open spec fn payout(balance: u128, share: u128, total: u128) -> int {
    (balance * share) / (total as int)
}

/// Relies on `cosmwasm_std::Uint128::multiply_ratio`: it returns
/// `floor(amount * numerator / denominator)`, computed with a 256-bit
/// intermediate product; it panics on a zero denominator and when the
/// quotient exceeds the 128-bit range, so those inputs are excluded here.
#[verifier::external_body]
fn multiply_ratio(amount: u128, numerator: u128, denominator: u128) -> (r: u128)
    requires
        denominator != 0,
        amount * numerator / (denominator as int) <= u128::MAX,
    ensures
        r as int == amount * numerator / (denominator as int),
{
    cosmwasm_std::Uint128::new(amount).multiply_ratio(numerator, denominator).u128()
}

/// A pro-rata payout of a partial share never exceeds the held balance.
pub proof fn lemma_payout_le_balance(balance: u128, share: u128, total: u128)
    requires
        total > 0,
        share <= total,
    ensures
        0 <= payout(balance, share, total) <= balance,
{
    lemma_mul_nonnegative(balance as int, share as int);
    lemma_div_pos_is_pos(balance as int * share as int, total as int);
    lemma_mul_inequality(share as int, total as int, balance as int);
    lemma_mul_is_commutative(balance as int, share as int);
    lemma_mul_is_commutative(total as int, balance as int);
    lemma_multiply_divide_le(balance as int * share as int, total as int, balance as int);
}

/// Computes the pro-rata payout for one recorded share.
pub fn pro_rata(balance: u128, share: u128, total: u128) -> (r: u128)
    requires
        total > 0,
        share <= total,
    ensures
        r as int == payout(balance, share, total),
{
    proof {
        lemma_payout_le_balance(balance, share, total);
    }
    multiply_ratio(balance, share, total)
}

/// Floor division distributes over a sum of two nonnegative terms up to a
/// deficit of at most one.
proof fn lemma_div_add_bounds(x: int, y: int, t: int)
    requires
        t > 0,
        x >= 0,
        y >= 0,
    ensures
        x / t + y / t <= (x + y) / t,
        (x + y) / t <= x / t + y / t + 1,
{
    lemma_fundamental_div_mod(x, t);
    lemma_fundamental_div_mod(y, t);
    lemma_mod_bound(x, t);
    lemma_mod_bound(y, t);
    lemma_div_pos_is_pos(x, t);
    lemma_div_pos_is_pos(y, t);
    let qx = x / t;
    let qy = y / t;
    let r = x % t + y % t;
    if r < t {
        assert(t * (qx + qy) == t * qx + t * qy) by {
            lemma_mul_is_distributive_add(t, qx, qy);
        }
        assert(x + y == t * (qx + qy) + r);
        lemma_div_multiples_vanish_fancy(qx + qy, r, t);
    } else {
        assert(t * (qx + qy + 1) == t * qx + t * qy + t) by {
            lemma_mul_is_distributive_add(t, qx, qy + 1);
            lemma_mul_is_distributive_add(t, qy, 1);
        }
        assert(x + y == t * (qx + qy + 1) + (r - t));
        lemma_div_multiples_vanish_fancy(qx + qy + 1, r - t, t);
    }
}

/// Total of the pro-rata payouts for a batch of ledger entries, at a fixed
/// balance and a fixed settlement-start total.
pub open spec fn payout_sum(l: Seq<(Seq<char>, u128)>, balance: u128, total: u128) -> int
    decreases l.len(),
{
    if l.len() == 0 {
        0
    } else {
        payout(balance, l[0].1, total) + payout_sum(l.drop_first(), balance, total)
    }
}

/// Truncating pro-rata settlement of a batch pays out the batch's exact
/// proportion of the balance, up to a remainder of less than one minor unit
/// per entry beyond the first.
pub proof fn lemma_payout_sum_bounds(l: Seq<(Seq<char>, u128)>, balance: u128, total: u128)
    requires
        total > 0,
        sum_shares(l) <= total,
    ensures
        payout_sum(l, balance, total) >= 0,
        payout_sum(l, balance, total) <= balance * sum_shares(l) / (total as int),
        l.len() >= 1 ==> payout_sum(l, balance, total) >= balance * sum_shares(l) / (
        total as int) - (l.len() - 1),
    decreases l.len(),
{
    lemma_sum_nonneg(l);
    if l.len() == 0 {
        lemma_div_pos_is_pos(0, total as int);
    } else {
        let rest = l.drop_first();
        lemma_sum_nonneg(rest);
        lemma_payout_sum_bounds(rest, balance, total);
        let x = balance as int * l[0].1 as int;
        let y = balance as int * sum_shares(rest);
        lemma_mul_nonnegative(balance as int, l[0].1 as int);
        lemma_mul_nonnegative(balance as int, sum_shares(rest));
        assert(balance * sum_shares(l) == x + y) by {
            lemma_mul_is_distributive_add(balance as int, l[0].1 as int, sum_shares(rest));
        }
        lemma_div_add_bounds(x, y, total as int);
        lemma_div_pos_is_pos(x, total as int);
        lemma_div_pos_is_pos(y, total as int);
    }
}

/// When a batch covers shares that sum to exactly the settlement total, the
/// payouts sum to the full balance minus a truncation remainder of at most
/// one minor unit per contributor beyond the first.
pub proof fn lemma_full_settlement_bounds(l: Seq<(Seq<char>, u128)>, balance: u128, total: u128)
    requires
        total > 0,
        sum_shares(l) == total,
        l.len() >= 1,
    ensures
        payout_sum(l, balance, total) <= balance,
        payout_sum(l, balance, total) >= balance - (l.len() - 1),
{
    lemma_payout_sum_bounds(l, balance, total);
    lemma_div_by_multiple(balance as int, total as int);
    lemma_mul_is_commutative(balance as int, total as int);
}

} // verus!
