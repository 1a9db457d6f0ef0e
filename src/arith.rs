//! Exact `floor(a * b / d)` on 128-bit operands, computed without any
//! intermediate ever exceeding 128 bits.

use vstd::arithmetic::div_mod::{
    lemma_div_is_ordered, lemma_fundamental_div_mod, lemma_fundamental_div_mod_converse,
};
use vstd::prelude::*;

verus! {

/// The number that a quotient/remainder pair stands for with respect to `d`.
pub open spec fn qr_value(q: int, r: int, d: int) -> int {
    q * d + r
}

/// Adds two quotient/remainder pairs with respect to `d`, keeping the
/// remainder below `d`; `None` when the quotient leaves 128 bits.
fn add_qr(q1: u128, r1: u128, q2: u128, r2: u128, d: u128) -> (res: Option<(u128, u128)>)
    requires
        d > 0,
        r1 < d,
        r2 < d,
    ensures
        match res {
            Some((q, r)) => r < d && qr_value(q as int, r as int, d as int) == qr_value(
                q1 as int,
                r1 as int,
                d as int,
            ) + qr_value(q2 as int, r2 as int, d as int),
            None => (qr_value(q1 as int, r1 as int, d as int) + qr_value(
                q2 as int,
                r2 as int,
                d as int,
            )) / (d as int) > u128::MAX,
        },
{
    let r: u128;
    let carry: u128;
    if r1 >= d - r2 {
        r = r1 - (d - r2);
        carry = 1;
    } else {
        r = r1 + r2;
        carry = 0;
    }
    let ghost total = qr_value(q1 as int, r1 as int, d as int) + qr_value(q2 as int, r2 as int, d as int);
    assert(total == (q1 + q2 + carry) * d + r) by (nonlinear_arith)
        requires
            total == q1 * d + r1 + q2 * d + r2,
            r1 + r2 == carry * d + r,
    ;
    proof {
        lemma_fundamental_div_mod_converse(total, d as int, q1 + q2 + carry, r as int);
    }
    match q1.checked_add(q2) {
        None => None,
        Some(s) => match s.checked_add(carry) {
            None => None,
            Some(q) => Some((q, r)),
        },
    }
}

/// `floor(a * b / d)`, or `None` exactly when that quotient does not fit in
/// 128 bits. The product itself may take up to 256 bits.
pub fn mul_div(a: u128, b: u128, d: u128) -> (res: Option<u128>)
    requires
        d > 0,
    ensures
        match res {
            Some(q) => q == (a as int) * (b as int) / (d as int),
            None => (a as int) * (b as int) / (d as int) > u128::MAX,
        },
{
    let ghost target: int = (a as int) * (b as int);
    let mut acc_q: u128 = 0;
    let mut acc_r: u128 = 0;
    let mut cur_q: u128 = a / d;
    let mut cur_r: u128 = a % d;
    let mut x: u128 = b;
    proof {
        lemma_fundamental_div_mod(a as int, d as int);
        assert(qr_value(cur_q as int, cur_r as int, d as int) == a) by (nonlinear_arith)
            requires
                a == d * cur_q + cur_r,
        ;
    }
    while x > 0
        invariant
            d > 0,
            acc_r < d,
            cur_r < d,
            target == (a as int) * (b as int),
            target == qr_value(acc_q as int, acc_r as int, d as int) + qr_value(
                cur_q as int,
                cur_r as int,
                d as int,
            ) * x,
        decreases x,
    {
        let ghost acc_v = qr_value(acc_q as int, acc_r as int, d as int);
        let ghost cur_v = qr_value(cur_q as int, cur_r as int, d as int);
        assert(0 <= acc_v && 0 <= cur_v) by (nonlinear_arith)
            requires
                acc_v == acc_q * d + acc_r,
                cur_v == cur_q * d + cur_r,
                d > 0,
        ;
        let ghost x0 = x;
        if x % 2 == 1 {
            assert(acc_v + cur_v <= target) by (nonlinear_arith)
                requires
                    target == acc_v + cur_v * x0,
                    x0 >= 1,
                    cur_v >= 0,
            ;
            match add_qr(acc_q, acc_r, cur_q, cur_r, d) {
                None => {
                    proof {
                        lemma_div_is_ordered(acc_v + cur_v, target, d as int);
                    }
                    return None;
                },
                Some((q, r)) => {
                    acc_q = q;
                    acc_r = r;
                },
            }
        }
        x = x / 2;
        let ghost acc_v1 = qr_value(acc_q as int, acc_r as int, d as int);
        assert(target == acc_v1 + cur_v * (2 * x)) by (nonlinear_arith)
            requires
                target == acc_v + cur_v * x0,
                x0 % 2 == 1 ==> acc_v1 == acc_v + cur_v && x0 == 2 * x + 1,
                x0 % 2 != 1 ==> acc_v1 == acc_v && x0 == 2 * x,
        ;
        if x > 0 {
            assert(cur_v + cur_v <= target) by (nonlinear_arith)
                requires
                    target == acc_v1 + cur_v * (2 * x),
                    x >= 1,
                    cur_v >= 0,
                    acc_v1 >= 0,
            ;
            match add_qr(cur_q, cur_r, cur_q, cur_r, d) {
                None => {
                    proof {
                        lemma_div_is_ordered(cur_v + cur_v, target, d as int);
                    }
                    return None;
                },
                Some((q, r)) => {
                    cur_q = q;
                    cur_r = r;
                },
            }
            assert(target == acc_v1 + qr_value(cur_q as int, cur_r as int, d as int) * x)
                by (nonlinear_arith)
                requires
                    target == acc_v1 + cur_v * (2 * x),
                    qr_value(cur_q as int, cur_r as int, d as int) == cur_v + cur_v,
            ;
        } else {
            assert(target == acc_v1 + qr_value(cur_q as int, cur_r as int, d as int) * x)
                by (nonlinear_arith)
                requires
                    target == acc_v1 + cur_v * (2 * x),
                    x == 0,
            ;
        }
    }
    proof {
        assert(target == acc_q * d + acc_r) by (nonlinear_arith)
            requires
                target == qr_value(acc_q as int, acc_r as int, d as int) + qr_value(
                    cur_q as int,
                    cur_r as int,
                    d as int,
                ) * x,
                x == 0,
        ;
        lemma_fundamental_div_mod_converse(target, d as int, acc_q as int, acc_r as int);
    }
    Some(acc_q)
}

} // verus!
