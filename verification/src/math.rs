//! Bond and payout arithmetic. Everything here is exact integer math with
//! floor division; overflow is either proved absent or reported.

use vstd::prelude::*;
use vstd::arithmetic::div_mod::{
    lemma_div_multiples_vanish_fancy,
    lemma_breakdown, lemma_div_by_multiple, lemma_div_denominator, lemma_div_is_ordered,
    lemma_div_pos_is_pos, lemma_fundamental_div_mod, lemma_fundamental_div_mod_converse,
    lemma_mod_bound,
};
use vstd::arithmetic::mul::{
    lemma_mul_is_commutative, lemma_mul_is_distributive_add, lemma_mul_inequality,
};

use crate::error::OracleError;

verus! {

/// One hundred percent, in the units a requester's stake multiplier is
/// denominated in.
pub const PERCENTAGE_DIVISOR: u16 = 10_000;

/// Adding two values, each kept as quotient and remainder by `c`, gives the
/// sum again as quotient and remainder, with the carry folded in.
proof fn lemma_quot_rem_add(oq: int, or: int, xq: int, xr: int, c: int, carry: int, nr: int, v1: int, v2: int)
    requires
        c > 0,
        oq * c + or == v1,
        xq * c + xr == v2,
        carry == 0 || carry == 1,
        nr == or + xr - carry * c,
    ensures
        (oq + xq + carry) * c + nr == v1 + v2,
{
    assert((oq + xq + carry) * c == oq * c + xq * c + carry * c) by (nonlinear_arith);
}

/// A quotient-remainder pair for a value no larger than `a * b` has a
/// quotient no larger than `a * b / c`.
proof fn lemma_quot_bound(s: int, r: int, v: int, a: int, b: int, c: int)
    requires
        c > 0,
        0 <= s,
        0 <= r,
        s * c + r == v,
        v <= a * b,
    ensures
        s <= a * b / c,
{
    assert(s * c <= a * b);
    lemma_div_is_ordered(s * c, a * b, c);
    lemma_mul_is_commutative(s, c);
    lemma_div_by_multiple(s, c);
}

/// Computes `a * b / c` (floor division) exactly, without the intermediate
/// product ever being materialized, so no overflow can occur as long as the
/// quotient itself is representable.
///
/// Walks through `b` binary digit by binary digit, keeping the running
/// product decomposed as quotient and remainder by `c`.
pub fn calc_product(a: u128, b: u128, c: u128) -> (r: u128)
    requires
        c > 0,
        a * b / (c as int) <= u128::MAX,
    ensures
        r == a * b / (c as int),
{
    let mut acc_q: u128 = 0;
    let mut acc_r: u128 = 0;
    let mut x_q: u128 = a / c;
    let mut x_r: u128 = a % c;
    let mut rem: u128 = b;
    let ghost mut p: int = 1;
    let ghost ab = (a as int) * (b as int);

    proof {
        lemma_fundamental_div_mod(a as int, c as int);
        lemma_mod_bound(a as int, c as int);
        assert(b as int % 1 == 0 && b as int / 1 == b as int) by (nonlinear_arith);
        assert(a as int * 1 == a as int && a as int * 0 == 0) by (nonlinear_arith);
        assert(x_q * c + x_r == a * p) by (nonlinear_arith)
            requires
                a as int == c as int * (x_q as int) + x_r as int,
                p == 1,
        ;
    }

    while rem > 0
        invariant
            c > 0,
            ab == a * b,
            ab / (c as int) <= u128::MAX,
            p >= 1,
            rem == b as int / p,
            acc_q * c + acc_r == a * (b as int % p),
            acc_r < c,
            rem == 0 || x_q * c + x_r == a * p,
            x_r < c,
        decreases rem,
    {
        let ghost p0 = p;
        let ghost bi = b as int;
        let ghost ai = a as int;
        let bit = rem % 2;
        proof {
            lemma_breakdown(bi, p0, 2);
            assert(2 * p0 == p0 * 2) by (nonlinear_arith);
            lemma_mod_bound(bi, 2 * p0);
            lemma_fundamental_div_mod(bi, 2 * p0);
            lemma_div_pos_is_pos(bi, 2 * p0);
            // b % (2 p) is at most b, so a * (b % (2 p)) is at most a * b
            assert((2 * p0) * (bi / (2 * p0)) >= 0) by (nonlinear_arith)
                requires
                    p0 >= 1,
                    bi / (2 * p0) >= 0,
            ;
            assert(bi % (2 * p0) <= bi);
            lemma_mul_inequality(bi % (2 * p0), bi, ai);
            lemma_mul_is_commutative(bi % (2 * p0), ai);
            lemma_mul_is_commutative(bi, ai);
            assert(ai * (bi % (2 * p0)) <= ab);
        }
        if bit == 1 {
            // acc := acc + x; its value a * (b % p) + a * p equals a * (b % (2 p))
            let ghost oq = acc_q as int;
            let ghost or = acc_r as int;
            let carry: u128;
            if x_r >= c - acc_r {
                acc_r = x_r - (c - acc_r);
                carry = 1;
            } else {
                acc_r = acc_r + x_r;
                carry = 0;
            }
            proof {
                assert(carry as int * c as int == carry * c) by (nonlinear_arith);
                if carry == 1 {
                    assert(1 as int * c as int == c as int) by (nonlinear_arith);
                } else {
                    assert(0 as int * c as int == 0) by (nonlinear_arith);
                }
                lemma_quot_rem_add(
                    oq, or, x_q as int, x_r as int, c as int, carry as int, acc_r as int,
                    ai * (bi % p0), ai * p0,
                );
                // a * (b % p) + a * p == a * (b % (2 p)) when this digit is 1
                assert(p0 * ((bi / p0) % 2) == p0) by (nonlinear_arith)
                    requires (bi / p0) % 2 == 1;
                lemma_mul_is_distributive_add(ai, bi % p0, p0);
                assert(ai * (bi % p0) + ai * p0 == ai * (bi % (2 * p0)));
                let s = oq + x_q + carry;
                lemma_quot_bound(s, acc_r as int, ai * (bi % (2 * p0)), ai, bi, c as int);
                assert(s <= u128::MAX);
            }
            acc_q = acc_q + x_q;
            if carry == 1 {
                acc_q = acc_q + 1;
            }
        } else {
            proof {
                assert(p0 * ((bi / p0) % 2) == 0) by (nonlinear_arith)
                    requires (bi / p0) % 2 == 0;
            }
        }
        rem = rem / 2;
        proof {
            p = 2 * p0;
            lemma_div_denominator(bi, p0, 2);
            assert(p0 * 2 == 2 * p0) by (nonlinear_arith);
            assert(rem == bi / p);
        }
        if rem > 0 {
            // x := 2 x, whose value is a * p for the doubled p
            proof {
                // one more digit remains, so p is at most b and a * p at most a * b
                lemma_fundamental_div_mod(bi, p);
                lemma_mod_bound(bi, p);
                assert(p * (bi / p) >= p) by (nonlinear_arith)
                    requires
                        p >= 1,
                        bi / p >= 1,
                ;
                assert(p <= bi);
                lemma_mul_inequality(p, bi, ai);
                lemma_mul_is_commutative(p, ai);
                lemma_mul_is_commutative(bi, ai);
                assert(ai * p <= ab);
            }
            let ghost oxq = x_q as int;
            let ghost oxr = x_r as int;
            let carry: u128;
            if x_r >= c - x_r {
                x_r = x_r - (c - x_r);
                carry = 1;
            } else {
                x_r = x_r + x_r;
                carry = 0;
            }
            proof {
                if carry == 1 {
                    assert(1 as int * c as int == c as int) by (nonlinear_arith);
                } else {
                    assert(0 as int * c as int == 0) by (nonlinear_arith);
                }
                lemma_quot_rem_add(
                    oxq, oxr, oxq, oxr, c as int, carry as int, x_r as int,
                    ai * p0, ai * p0,
                );
                lemma_mul_is_distributive_add(ai, p0, p0);
                assert(ai * p0 + ai * p0 == ai * (p0 + p0));
                assert(ai * (p0 + p0) == ai * p);
                let s = oxq + oxq + carry;
                lemma_quot_bound(s, x_r as int, ai * p, ai, bi, c as int);
                assert(s <= u128::MAX);
            }
            x_q = x_q + x_q;
            if carry == 1 {
                x_q = x_q + 1;
            }
        }
    }
    proof {
        // rem == 0 means b < p, so b % p == b and acc holds the whole product
        lemma_fundamental_div_mod(b as int, p);
        assert(p * 0 == 0) by (nonlinear_arith);
        assert(b as int % p == b as int);
        lemma_fundamental_div_mod_converse(a * b, c as int, acc_q as int, acc_r as int);
    }
    acc_q
}

/// The bond amount a requester's stake multiplier asks for: the base amount
/// itself when no multiplier is configured, else the base scaled by
/// `multiplier / PERCENTAGE_DIVISOR` with floor division.
pub open spec fn spec_multiply_stake(base: u128, multiplier: Option<u16>) -> int {
    match multiplier {
        Option::None => base as int,
        Option::Some(m) => base * m / (PERCENTAGE_DIVISOR as int),
    }
}

/// Applies a requester's stake multiplier to a base bond amount.
pub fn multiply_stake(base: u128, multiplier: Option<u16>) -> (r: Result<u128, OracleError>)
    ensures
        match r {
            Ok(v) => v == spec_multiply_stake(base, multiplier),
            Err(e) => e == OracleError::Overflow && spec_multiply_stake(base, multiplier)
                > u128::MAX,
        },
{
    match multiplier {
        Option::None => Ok(base),
        Option::Some(m) => {
            let d: u128 = PERCENTAGE_DIVISOR as u128;
            let whole: u128 = (m / PERCENTAGE_DIVISOR) as u128;
            let frac: u128 = (m % PERCENTAGE_DIVISOR) as u128;
            let ghost bi = base as int;
            let ghost di = d as int;
            let ghost q = bi * frac;
            proof {
                // base * frac / d is at most base, so calc_product applies
                lemma_mul_inequality(frac as int, di, bi);
                lemma_mul_is_commutative(frac as int, bi);
                lemma_mul_is_commutative(di, bi);
                lemma_div_is_ordered(bi * frac, bi * di, di);
                lemma_mul_is_commutative(bi, di);
                lemma_div_by_multiple(bi, di);
            }
            let frac_part = calc_product(base, frac, d);
            proof {
                // base * m == d * (base * whole + (base * frac) / d) + (base * frac) % d
                lemma_fundamental_div_mod(m as int, di);
                assert(bi * (m as int) == di * (bi * whole) + q) by (nonlinear_arith)
                    requires
                        m as int == di * (whole as int) + frac as int,
                        q == bi * frac,
                ;
                lemma_fundamental_div_mod(q, di);
                lemma_mod_bound(q, di);
                lemma_div_pos_is_pos(q, di);
                assert(di * (bi * whole) + (di * (q / di) + q % di)
                    == di * (bi * whole + q / di) + q % di) by (nonlinear_arith);
                lemma_div_multiples_vanish_fancy(bi * whole + q / di, q % di, di);
                assert(bi * (m as int) / di == bi * whole + q / di);
                // the first summand alone already tells overflow apart
                assert(bi * (whole as int) >= 0) by (nonlinear_arith)
                    requires bi >= 0 && whole as int >= 0;
            }
            match base.checked_mul(whole) {
                Option::Some(w) => match w.checked_add(frac_part) {
                    Option::Some(t) => Ok(t),
                    Option::None => Err(OracleError::Overflow),
                },
                Option::None => Err(OracleError::Overflow),
            }
        },
    }
}

} // verus!
