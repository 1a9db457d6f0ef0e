//! Each contributor's share of the fixed reward pool:
//! `floor(contributed * REWARD_POOL / total_raised)`.

use crate::arith::mul_div;
use crate::campaign::Contributer;
use crate::error::ArithmeticError;
use vstd::arithmetic::div_mod::{lemma_div_is_ordered, lemma_fundamental_div_mod};
use vstd::prelude::*;

verus! {

/// One whole DHX in the chain's base unit.
pub const DHX: u128 = 1_000_000_000_000_000_000;

/// The pool shared among the contributors of a campaign: 300,000 DHX.
pub const REWARD_POOL: u128 = 300_000 * DHX;

/// The amount contributed by all of `cs`.
pub open spec fn total_of(cs: Seq<Contributer>) -> int
    decreases cs.len(),
{
    if cs.len() == 0 {
        0
    } else {
        total_of(cs.drop_last()) + cs.last().contributed
    }
}

/// The reward owed for `contributed` out of `total` raised.
pub open spec fn reward_of(contributed: int, total: int) -> int {
    contributed * (REWARD_POOL as int) / total
}

pub proof fn lemma_total_nonnegative(cs: Seq<Contributer>)
    ensures
        total_of(cs) >= 0,
    decreases cs.len(),
{
    if cs.len() > 0 {
        lemma_total_nonnegative(cs.drop_last());
    }
}

/// The sum of the rewards of all of `cs` out of `total` raised.
pub open spec fn rewards_sum(cs: Seq<Contributer>, total: int) -> int
    decreases cs.len(),
{
    if cs.len() == 0 {
        0
    } else {
        rewards_sum(cs.drop_last(), total) + reward_of(cs.last().contributed as int, total)
    }
}

/// `cs` with the amount of contributor `i` set to `amount`.
pub open spec fn with_amount(cs: Seq<Contributer>, i: int, amount: u128) -> Seq<Contributer> {
    cs.update(i, Contributer { who: cs[i].who, contributed: amount })
}

/// A floor quotient times its divisor does not exceed the dividend.
proof fn lemma_floor_times_divisor(x: int, y: int)
    requires
        x >= 0,
        y > 0,
    ensures
        0 <= x / y,
        (x / y) * y <= x,
{
    lemma_fundamental_div_mod(x, y);
    assert(0 <= x / y && (x / y) * y <= x) by (nonlinear_arith)
        requires
            x == y * (x / y) + x % y,
            0 <= x % y < y,
            x >= 0,
            y > 0,
    ;
}

/// A number whose multiple by `y` stays within `x` is at most `x / y`.
proof fn lemma_at_most_quotient(q: int, x: int, y: int)
    requires
        y > 0,
        q * y <= x,
    ensures
        q <= x / y,
{
    lemma_fundamental_div_mod(x, y);
    assert(q <= x / y) by (nonlinear_arith)
        requires
            x == y * (x / y) + x % y,
            x % y < y,
            q * y <= x,
            y > 0,
    ;
}

/// A contribution within the total earns at most the whole pool, so its
/// reward always fits in 128 bits.
pub proof fn lemma_reward_within_pool(contributed: int, total: int)
    requires
        0 <= contributed <= total,
        total > 0,
    ensures
        0 <= reward_of(contributed, total) <= REWARD_POOL,
{
    let p = REWARD_POOL as int;
    assert(contributed * p <= p * total && 0 <= contributed * p) by (nonlinear_arith)
        requires
            0 <= contributed <= total,
            p > 0,
    ;
    lemma_floor_times_divisor(contributed * p, total);
    lemma_at_most_quotient(reward_of(contributed, total), p * total, total);
    assert((p * total) / total == p) by (nonlinear_arith)
        requires
            total > 0,
    {
        lemma_fundamental_div_mod(p * total, total);
        let q = (p * total) / total;
        let r = (p * total) % total;
        assert(q == p) by (nonlinear_arith)
            requires
                p * total == total * q + r,
                0 <= r < total,
        ;
    }
    lemma_div_is_ordered(contributed * p, p * total, total);
}

/// The boundary case: a sole contributor, whatever the amount, receives the
/// whole pool exactly.
pub proof fn lemma_sole_contributor_gets_pool(contributed: u128)
    requires
        contributed > 0,
    ensures
        reward_of(contributed as int, contributed as int) == REWARD_POOL,
{
    let c = contributed as int;
    let p = REWARD_POOL as int;
    lemma_fundamental_div_mod(c * p, c);
    let q = (c * p) / c;
    let r = (c * p) % c;
    assert(q == p) by (nonlinear_arith)
        requires
            c * p == c * q + r,
            0 <= r < c,
    ;
}

/// Each contribution is part of the total.
pub proof fn lemma_contribution_within_total(cs: Seq<Contributer>, i: int)
    requires
        0 <= i < cs.len(),
    ensures
        0 <= cs[i].contributed <= total_of(cs),
    decreases cs.len(),
{
    lemma_total_nonnegative(cs.drop_last());
    if i < cs.len() - 1 {
        lemma_contribution_within_total(cs.drop_last(), i);
    }
}

/// Setting one amount changes the total by the difference.
pub proof fn lemma_total_with_amount(cs: Seq<Contributer>, i: int, amount: u128)
    requires
        0 <= i < cs.len(),
    ensures
        total_of(with_amount(cs, i, amount)) == total_of(cs) - cs[i].contributed + amount,
    decreases cs.len(),
{
    let ds = with_amount(cs, i, amount);
    if i == cs.len() - 1 {
        assert(ds.drop_last() =~= cs.drop_last());
    } else {
        assert(ds.drop_last() =~= with_amount(cs.drop_last(), i, amount));
        lemma_total_with_amount(cs.drop_last(), i, amount);
    }
}

/// The rewards scaled by the total never exceed the contributions scaled by
/// the pool.
proof fn lemma_rewards_sum_scaled(cs: Seq<Contributer>, total: int)
    requires
        total > 0,
    ensures
        rewards_sum(cs, total) * total <= total_of(cs) * REWARD_POOL,
    decreases cs.len(),
{
    if cs.len() > 0 {
        let init = cs.drop_last();
        let c = cs.last().contributed as int;
        let p = REWARD_POOL as int;
        lemma_rewards_sum_scaled(init, total);
        assert(c * p >= 0) by (nonlinear_arith)
            requires
                c >= 0,
                p > 0,
        ;
        lemma_floor_times_divisor(c * p, total);
        let s0 = rewards_sum(init, total);
        let r = reward_of(c, total);
        assert((s0 + r) * total <= (total_of(init) + c) * p) by (nonlinear_arith)
            requires
                s0 * total <= total_of(init) * p,
                r * total <= c * p,
        ;
    }
}

/// The rewards of all contributors together never exceed the pool; floor
/// division may leave a remainder unallocated.
pub proof fn lemma_rewards_within_pool(cs: Seq<Contributer>)
    requires
        total_of(cs) > 0,
    ensures
        rewards_sum(cs, total_of(cs)) <= REWARD_POOL,
{
    let t = total_of(cs);
    let p = REWARD_POOL as int;
    lemma_rewards_sum_scaled(cs, t);
    assert(rewards_sum(cs, t) <= p) by (nonlinear_arith)
        requires
            rewards_sum(cs, t) * t <= t * p,
            t > 0,
    ;
}

/// Raising one contributor's amount, all others held fixed, never lowers
/// that contributor's reward, even though the total grows with it.
pub proof fn lemma_reward_monotonic(cs: Seq<Contributer>, i: int, amount: u128)
    requires
        0 <= i < cs.len(),
        total_of(cs) > 0,
        cs[i].contributed <= amount,
    ensures
        reward_of(cs[i].contributed as int, total_of(cs)) <= reward_of(
            amount as int,
            total_of(with_amount(cs, i, amount)),
        ),
{
    let c = cs[i].contributed as int;
    let t = total_of(cs);
    let delta = amount - c;
    let p = REWARD_POOL as int;
    lemma_contribution_within_total(cs, i);
    lemma_total_with_amount(cs, i, amount);
    lemma_reward_within_pool(c, t);
    let q = reward_of(c, t);
    assert(c * p >= 0) by (nonlinear_arith)
        requires
            c >= 0,
            p > 0,
    ;
    lemma_floor_times_divisor(c * p, t);
    assert(q * (t + delta) <= (c + delta) * p) by (nonlinear_arith)
        requires
            q * t <= c * p,
            q <= p,
            delta >= 0,
    ;
    assert((c + delta) * p == (amount as int) * p);
    lemma_at_most_quotient(q, (amount as int) * p, t + delta);
}

impl Contributer {
    /// This contributor's share of the reward pool out of `total_raised`:
    /// `floor(contributed * REWARD_POOL / total_raised)`, computed exactly for
    /// any 128-bit amounts. A zero total is refused, as is a result beyond
    /// 128 bits, which can only come from an amount above the total.
    pub fn reward_amount(&self, total_raised: u128) -> (res: Result<u128, ArithmeticError>)
        ensures
            total_raised == 0 ==> res == Err::<u128, ArithmeticError>(
                ArithmeticError::DivisionByZero,
            ),
            total_raised > 0 ==> (res is Ok <==> reward_of(
                self.contributed as int,
                total_raised as int,
            ) <= u128::MAX),
            total_raised > 0 && reward_of(self.contributed as int, total_raised as int) > u128::MAX
                ==> res == Err::<u128, ArithmeticError>(ArithmeticError::Overflow),
            res matches Ok(r) ==> r == reward_of(self.contributed as int, total_raised as int),
            0 < total_raised && self.contributed <= total_raised ==> res is Ok,
    {
        if total_raised == 0 {
            return Err(ArithmeticError::DivisionByZero);
        }
        if self.contributed <= total_raised {
            proof {
                lemma_reward_within_pool(self.contributed as int, total_raised as int);
            }
        }
        match mul_div(self.contributed, REWARD_POOL, total_raised) {
            None => Err(ArithmeticError::Overflow),
            Some(r) => Ok(r),
        }
    }
}

} // verus!
