//! Checked arithmetic on token amounts.
//!
//! Every operation reports overflow, underflow, division by zero or a
//! negative operand as an error; none wraps or saturates.

use vstd::prelude::*;
use crate::types::SharedError;

verus! {

/// Scale of the fixed-point quantities (10^18).
pub const PRECISION: i128 = 1_000_000_000_000_000_000;

/// Basis points in a whole (10,000 = 100%).
pub const BPS_DENOMINATOR: i128 = 10_000;

/// Number of decimals of a token amount.
pub const STELLAR_DECIMALS: u32 = 7;

/// One whole token with seven decimals.
pub const ONE_TOKEN: i128 = 10_000_000;

/// Smallest trade amount: a tenth of a token.
pub const MIN_TRADE_AMOUNT: i128 = 1_000_000;

/// The quotient of `a` by `b` rounded toward zero, for `b != 0`.
pub open spec fn quotient_toward_zero(a: int, b: int) -> int {
    if a >= 0 && b > 0 {
        a / b
    } else if a >= 0 {
        -(a / (-b))
    } else if b > 0 {
        -((-a) / b)
    } else {
        (-a) / (-b)
    }
}

/// `a + b`, or `Overflow` when the sum leaves the range of `i128`.
pub fn safe_add(a: i128, b: i128) -> (r: Result<i128, SharedError>)
    ensures
        i128::MIN <= a + b <= i128::MAX ==> r == Ok::<i128, SharedError>((a + b) as i128),
        !(i128::MIN <= a + b <= i128::MAX) ==> r == Err::<i128, SharedError>(SharedError::Overflow),
{
    match a.checked_add(b) {
        Some(v) => Ok(v),
        None => Err(SharedError::Overflow),
    }
}

/// `a - b`, or `Underflow` when the difference is negative or leaves the
/// range of `i128`.
pub fn safe_sub(a: i128, b: i128) -> (r: Result<i128, SharedError>)
    ensures
        0 <= a - b <= i128::MAX ==> r == Ok::<i128, SharedError>((a - b) as i128),
        !(0 <= a - b <= i128::MAX) ==> r == Err::<i128, SharedError>(SharedError::Underflow),
{
    match a.checked_sub(b) {
        Some(v) => {
            if v < 0 {
                Err(SharedError::Underflow)
            } else {
                Ok(v)
            }
        },
        None => Err(SharedError::Underflow),
    }
}

/// `a * b`, or `Overflow` when the product leaves the range of `i128`.
pub fn safe_mul(a: i128, b: i128) -> (r: Result<i128, SharedError>)
    ensures
        i128::MIN <= a * b <= i128::MAX ==> r == Ok::<i128, SharedError>((a * b) as i128),
        !(i128::MIN <= a * b <= i128::MAX) ==> r == Err::<i128, SharedError>(SharedError::Overflow),
{
    match a.checked_mul(b) {
        Some(v) => Ok(v),
        None => Err(SharedError::Overflow),
    }
}

/// `a / b` rounded toward zero; `DivisionByZero` when `b` is zero and
/// `Overflow` for the one quotient that does not fit (`i128::MIN / -1`).
pub fn safe_div(a: i128, b: i128) -> (r: Result<i128, SharedError>)
    ensures
        b == 0 ==> r == Err::<i128, SharedError>(SharedError::DivisionByZero),
        b != 0 && quotient_toward_zero(a as int, b as int) > i128::MAX ==> r == Err::<
            i128,
            SharedError,
        >(SharedError::Overflow),
        b != 0 && quotient_toward_zero(a as int, b as int) <= i128::MAX ==> r == Ok::<
            i128,
            SharedError,
        >(quotient_toward_zero(a as int, b as int) as i128),
{
    if b == 0 {
        return Err(SharedError::DivisionByZero);
    }
    match a.checked_div(b) {
        Some(v) => Ok(v),
        None => Err(SharedError::Overflow),
    }
}


/// `a * b / c` rounded up, for non-negative `a`, `b` and positive `c`.
pub open spec fn ceil_mul_div(a: int, b: int, c: int) -> int {
    if (a * b) % c == 0 {
        (a * b) / c
    } else {
        (a * b) / c + 1
    }
}

/// What `mul_div_down(a, b, c)` returns.
///
/// A zero divisor is `DivisionByZero`, a negative operand is `InvalidAmount`.
/// Otherwise the result is the floor of `a * b / c` whenever that fits in an
/// `i128`, whatever the size of `a * b`, and `Overflow` whenever it does not.
pub open spec fn mul_div_down_result(a: int, b: int, c: int) -> Result<i128, SharedError> {
    if c == 0 {
        Err(SharedError::DivisionByZero)
    } else if a < 0 || b < 0 || c < 0 {
        Err(SharedError::InvalidAmount)
    } else if (a * b) / c <= i128::MAX {
        Ok(((a * b) / c) as i128)
    } else {
        Err(SharedError::Overflow)
    }
}

/// What `mul_div_up(a, b, c)` returns: as `mul_div_down_result`, with the
/// quotient rounded up.
pub open spec fn mul_div_up_result(a: int, b: int, c: int) -> Result<i128, SharedError> {
    if c == 0 {
        Err(SharedError::DivisionByZero)
    } else if a < 0 || b < 0 || c < 0 {
        Err(SharedError::InvalidAmount)
    } else if ceil_mul_div(a, b, c) <= i128::MAX {
        Ok(ceil_mul_div(a, b, c) as i128)
    } else {
        Err(SharedError::Overflow)
    }
}

/// With `a = q * c + r`, the quotient and the remainder of `a * b` by `c`
/// are those of `r * b`, the quotient shifted by `q * b`.
proof fn lemma_decompose(a: int, b: int, c: int)
    requires
        a >= 0,
        b >= 0,
        c > 0,
    ensures
        (a * b) / c == (a / c) * b + ((a % c) * b) / c,
        (a * b) % c == ((a % c) * b) % c,
        (a / c) * b >= 0,
        (a % c) * b >= 0,
        ((a % c) * b) / c >= 0,
        (a % c) * b <= a * b,
        (a * b) / c <= a * b,
{
    let q = a / c;
    let r = a % c;
    vstd::arithmetic::div_mod::lemma_fundamental_div_mod(a, c);
    assert(a * b == r * b + (q * b) * c) by (nonlinear_arith)
        requires
            a == c * q + r,
    ;
    vstd::arithmetic::div_mod::lemma_hoist_over_denominator(r * b, q * b, c as nat);
    vstd::arithmetic::div_mod::lemma_mod_multiples_vanish(q * b, r * b, c);
    assert(c * (q * b) == (q * b) * c) by (nonlinear_arith);
    assert(q >= 0 && 0 <= r <= a) by (nonlinear_arith)
        requires
            a == c * q + r,
            0 <= r < c,
            a >= 0,
            c > 0,
            q == a / c,
    ;
    assert(q * b >= 0 && r * b >= 0 && r * b <= a * b) by (nonlinear_arith)
        requires
            q >= 0,
            0 <= r <= a,
            b >= 0,
    ;
    vstd::arithmetic::div_mod::lemma_div_pos_is_pos(r * b, c);
    vstd::arithmetic::div_mod::lemma_div_nonincreasing(a * b, c);
}

/// The quotient and the remainder of `r * b` by `c`, for `r < c`, formed
/// without the product itself, which may be as wide as 254 bits.
///
/// The bits of `b` are taken from the lowest up. With each bit the value
/// `r * 2^k` is kept as a quotient and a remainder by `c`, and added to the
/// sum where the bit is set; no remainder ever reaches `2 * c`.
fn wide_div_rem(r: u128, b: u128, c: u128) -> (out: (u128, u128))
    requires
        r < c,
        c <= i128::MAX,
        b <= i128::MAX,
    ensures
        out.0 == (r * b) / (c as int),
        out.1 == (r * b) % (c as int),
        out.0 <= b,
{
    let mut sum_q: u128 = 0;
    let mut sum_rem: u128 = 0;
    let mut step_q: u128 = 0;
    let mut step_rem: u128 = r;
    let mut n: u128 = b;
    assert((sum_q * c + sum_rem) + (step_q * c + step_rem) * n == r * b) by (nonlinear_arith)
        requires
            sum_q == 0,
            sum_rem == 0,
            step_q == 0,
            step_rem == r,
            n == b,
    ;
    while n > 0
        invariant
            0 < c <= i128::MAX,
            b <= i128::MAX,
            r < c,
            n <= b,
            sum_rem < c,
            step_rem < c,
            (sum_q * c + sum_rem) + (step_q * c + step_rem) * n == r * b,
            sum_q <= b,
            n > 0 ==> step_q <= b,
        decreases n,
    {
        let ghost sq = sum_q as int;
        let ghost sr = sum_rem as int;
        let ghost tq = step_q as int;
        let ghost tr = step_rem as int;
        let ghost n0 = n as int;
        let ghost cc = c as int;
        let ghost whole = tq * cc + tr;
        let ghost sum = sq * cc + sr;
        let odd: bool = n % 2 == 1;
        proof {
            // what is summed and what is stepped are each within r * b < c * b
            assert(r * b <= (cc - 1) * b) by (nonlinear_arith)
                requires
                    r <= cc - 1,
                    b >= 0,
            ;
            assert(whole >= 0 && sum >= 0) by (nonlinear_arith)
                requires
                    whole == tq * cc + tr,
                    sum == sq * cc + sr,
                    cc > 0,
                    tq >= 0,
                    tr >= 0,
                    sq >= 0,
                    sr >= 0,
            ;
            assert(whole * n0 >= whole) by (nonlinear_arith)
                requires
                    whole >= 0,
                    n0 >= 1,
            ;
            let k = sq + tq;
            assert(k * cc <= (cc - 1) * b) by (nonlinear_arith)
                requires
                    (sq * cc + sr) + (tq * cc + tr) <= (cc - 1) * b,
                    k == sq + tq,
                    sr >= 0,
                    tr >= 0,
            ;
            assert(k < b) by (nonlinear_arith)
                requires
                    k * cc <= (cc - 1) * b,
                    cc > 0,
                    b >= 1,
                    k >= 0,
            ;
        }
        if odd {
            sum_q = sum_q + step_q;
            sum_rem = sum_rem + step_rem;
            if sum_rem >= c {
                sum_rem = sum_rem - c;
                sum_q = sum_q + 1;
            }
        }
        n = n / 2;
        let ghost d: int = if odd { 1 } else { 0 };
        proof {
            assert(n0 == 2 * n + d);
            assert(sum_q * cc + sum_rem == sum + d * whole) by (nonlinear_arith)
                requires
                    sum == sq * cc + sr,
                    whole == tq * cc + tr,
                    (d == 0 && sum_q == sq && sum_rem == sr) || (d == 1 && sum_q == sq + tq
                        && sum_rem == sr + tr) || (d == 1 && sum_q == sq + tq + 1 && sum_rem == sr
                        + tr - cc),
            ;
        }
        if n > 0 {
            proof {
                assert(whole * n0 >= whole * 2) by (nonlinear_arith)
                    requires
                        whole >= 0,
                        n0 >= 2,
                ;
                let k = 2 * tq;
                assert(k * cc <= (cc - 1) * b) by (nonlinear_arith)
                    requires
                        (tq * cc + tr) * 2 <= (cc - 1) * b,
                        k == 2 * tq,
                        tr >= 0,
                ;
                assert(k < b) by (nonlinear_arith)
                    requires
                        k * cc <= (cc - 1) * b,
                        cc > 0,
                        b >= 1,
                        k >= 0,
                ;
            }
            step_q = 2 * step_q;
            step_rem = 2 * step_rem;
            if step_rem >= c {
                step_rem = step_rem - c;
                step_q = step_q + 1;
            }
            proof {
                assert(step_q * cc + step_rem == 2 * whole) by (nonlinear_arith)
                    requires
                        whole == tq * cc + tr,
                        (step_q == 2 * tq && step_rem == 2 * tr) || (step_q == 2 * tq + 1
                            && step_rem == 2 * tr - cc),
                ;
                assert((sum + d * whole) + (2 * whole) * n == sum + whole * n0) by (nonlinear_arith)
                    requires
                        n0 == 2 * n + d,
                ;
                let stepped = step_q * cc + step_rem;
                assert(stepped * n == (2 * whole) * n);
            }
        } else {
            proof {
                assert(n0 == 1 && d == 1);
                assert(whole * n0 == whole) by (nonlinear_arith)
                    requires
                        n0 == 1,
                ;
                assert((step_q * cc + step_rem) * n == 0) by (nonlinear_arith)
                    requires
                        n == 0,
                ;
            }
        }
        proof {
            // the sum stays below b: it is within r * b / c
            assert((step_q * cc + step_rem) * n >= 0) by (nonlinear_arith)
                requires
                    step_q >= 0,
                    step_rem >= 0,
                    cc > 0,
                    n >= 0,
            ;
            assert(sum_q <= b) by (nonlinear_arith)
                requires
                    sum_q * cc + sum_rem <= (cc - 1) * b,
                    sum_rem >= 0,
                    cc > 0,
                    b >= 0,
                    sum_q >= 0,
            ;
        }
    }
    proof {
        assert((step_q * c + step_rem) * n == 0) by (nonlinear_arith)
            requires
                n == 0,
        ;
        vstd::arithmetic::div_mod::lemma_fundamental_div_mod_converse(
            r * b,
            c as int,
            sum_q as int,
            sum_rem as int,
        );
    }
    (sum_q, sum_rem)
}

/// The floor of `a * b / c`, as `mul_div_down` returns it, and whether the
/// division leaves a remainder.
fn mul_div_parts(a: i128, b: i128, c: i128) -> (out: (Result<i128, SharedError>, bool))
    requires
        a >= 0,
        b >= 0,
        c > 0,
    ensures
        out.0 == mul_div_down_result(a as int, b as int, c as int),
        out.1 == ((a * b) % (c as int) != 0),
{
    proof {
        lemma_decompose(a as int, b as int, c as int);
    }
    if let Some(product) = a.checked_mul(b) {
        return (Ok(product / c), product % c != 0);
    }
    let a_u: u128 = a as u128;
    let b_u: u128 = b as u128;
    let c_u: u128 = c as u128;
    let quotient: u128 = a_u / c_u;
    let remainder: u128 = a_u % c_u;
    let (term2, leftover) = wide_div_rem(remainder, b_u, c_u);
    let inexact: bool = leftover != 0;
    let term1: u128 = match quotient.checked_mul(b_u) {
        Some(v) => v,
        None => { return (Err(SharedError::Overflow), inexact); },
    };
    let result: u128 = match term1.checked_add(term2) {
        Some(v) => v,
        None => { return (Err(SharedError::Overflow), inexact); },
    };
    if result > i128::MAX as u128 {
        return (Err(SharedError::Overflow), inexact);
    }
    (Ok(result as i128), inexact)
}

/// `a * b / c` rounded down, exact even where `a * b` itself does not fit in
/// an `i128`.
///
/// The operands are token quantities: a zero divisor is `DivisionByZero`, a
/// negative operand is `InvalidAmount`. Otherwise the result is the floor of
/// the quotient whenever that fits in an `i128`, and `Overflow` whenever it
/// does not.
pub fn mul_div_down(a: i128, b: i128, c: i128) -> (r: Result<i128, SharedError>)
    ensures
        r == mul_div_down_result(a as int, b as int, c as int),
{
    if c == 0 {
        return Err(SharedError::DivisionByZero);
    }
    if a < 0 || b < 0 || c < 0 {
        return Err(SharedError::InvalidAmount);
    }
    let (floor_result, _) = mul_div_parts(a, b, c);
    floor_result
}

/// `a * b / c` rounded up, exact even where `a * b` itself does not fit in an
/// `i128`.
///
/// Errors as `mul_div_down`; the result is one more than the floor exactly
/// when `c` does not divide `a * b`, and `Overflow` when that does not fit.
pub fn mul_div_up(a: i128, b: i128, c: i128) -> (r: Result<i128, SharedError>)
    ensures
        r == mul_div_up_result(a as int, b as int, c as int),
{
    if c == 0 {
        return Err(SharedError::DivisionByZero);
    }
    if a < 0 || b < 0 || c < 0 {
        return Err(SharedError::InvalidAmount);
    }
    let (floor_result, inexact) = mul_div_parts(a, b, c);
    match floor_result {
        Ok(floor) => if inexact {
            safe_add(floor, 1)
        } else {
            Ok(floor)
        },
        Err(e) => Err(e),
    }
}

/// Rounding of the combined multiply-divide.
///
/// For non-negative `a`, `b` and positive `c`, a result `f` of `mul_div_down`
/// brackets the exact quotient, `f <= a * b / c < f + 1`, stated without
/// fractions as `f * c <= a * b < (f + 1) * c`. A result of `mul_div_up` is
/// `f` when `c` divides `a * b` and `f + 1` when it does not. Neither
/// function fails on such operands except by `Overflow`.
pub proof fn lemma_mul_div_rounding(a: i128, b: i128, c: i128)
    requires
        a >= 0,
        b >= 0,
        c > 0,
    ensures
        mul_div_down_result(a as int, b as int, c as int) matches Ok(f) ==> f * c <= a * b < (f
            + 1) * c,
        mul_div_up_result(a as int, b as int, c as int) matches Ok(u) ==> mul_div_down_result(
            a as int,
            b as int,
            c as int,
        ) == Ok::<i128, SharedError>(
            if (a * b) % (c as int) == 0 {
                u
            } else {
                (u - 1) as i128
            },
        ),
        mul_div_down_result(a as int, b as int, c as int) matches Err(e) ==> e
            == SharedError::Overflow,
        mul_div_up_result(a as int, b as int, c as int) matches Err(e) ==> e
            == SharedError::Overflow,
{
    let p = a * b;
    let f = p / (c as int);
    vstd::arithmetic::div_mod::lemma_fundamental_div_mod(p, c as int);
    assert(f * c <= p < (f + 1) * c) by (nonlinear_arith)
        requires
            p == c * f + p % (c as int),
            0 <= p % (c as int) < c,
    ;
    lemma_decompose(a as int, b as int, c as int);
}

/// Rounding down never exceeds rounding up: whenever `mul_div_up` succeeds,
/// so does `mul_div_down`, with a result that is no larger; and the two
/// differ by at most one.
pub proof fn lemma_mul_div_down_le_up(a: i128, b: i128, c: i128)
    ensures
        mul_div_up_result(a as int, b as int, c as int) matches Ok(u) ==> (mul_div_down_result(
            a as int,
            b as int,
            c as int,
        ) matches Ok(f) && f <= u <= f + 1),
        mul_div_down_result(a as int, b as int, c as int) matches Ok(f) ==> (mul_div_up_result(
            a as int,
            b as int,
            c as int,
        ) matches Ok(u) ==> f <= u),
{
    if a >= 0 && b >= 0 && c > 0 {
        lemma_mul_div_rounding(a, b, c);
    }
}

/// A fee rounded up is never below the fee rounded down: whenever
/// `apply_bps_round_up` succeeds, so does `apply_bps`, with a result that is
/// no larger, and strictly smaller exactly when `amount * bps` is not a
/// multiple of 10000.
pub proof fn lemma_bps_round_up_ge_round_down(amount: i128, bps: u32)
    ensures
        mul_div_up_result(amount as int, bps as int, BPS_DENOMINATOR as int) matches Ok(up) ==> (
        mul_div_down_result(amount as int, bps as int, BPS_DENOMINATOR as int) matches Ok(down)
            && up >= down && ((amount * bps) % 10_000 != 0 <==> up > down)),
{
    if amount >= 0 {
        lemma_mul_div_rounding(amount, bps as i128, BPS_DENOMINATOR);
    }
}

/// The constant product `reserve_0 * reserve_1` of two non-negative reserves.
pub fn calculate_k(reserve_0: i128, reserve_1: i128) -> (r: Result<i128, SharedError>)
    ensures
        reserve_0 < 0 || reserve_1 < 0 ==> r == Err::<i128, SharedError>(
            SharedError::InvalidAmount,
        ),
        reserve_0 >= 0 && reserve_1 >= 0 && reserve_0 * reserve_1 > i128::MAX ==> r == Err::<
            i128,
            SharedError,
        >(SharedError::Overflow),
        reserve_0 >= 0 && reserve_1 >= 0 && reserve_0 * reserve_1 <= i128::MAX ==> r == Ok::<
            i128,
            SharedError,
        >((reserve_0 * reserve_1) as i128),
{
    if reserve_0 < 0 || reserve_1 < 0 {
        return Err(SharedError::InvalidAmount);
    }
    assert(reserve_0 * reserve_1 >= 0) by (nonlinear_arith)
        requires
            reserve_0 >= 0,
            reserve_1 >= 0,
    ;
    safe_mul(reserve_0, reserve_1)
}

/// Both reserves after a deposit of `amount_0` and `amount_1`.
pub fn update_reserves_add(reserve_0: i128, reserve_1: i128, amount_0: i128, amount_1: i128) -> (r:
    Result<(i128, i128), SharedError>)
    ensures
        i128::MIN <= reserve_0 + amount_0 <= i128::MAX && i128::MIN <= reserve_1 + amount_1
            <= i128::MAX ==> r == Ok::<(i128, i128), SharedError>(
            ((reserve_0 + amount_0) as i128, (reserve_1 + amount_1) as i128),
        ),
        !(i128::MIN <= reserve_0 + amount_0 <= i128::MAX && i128::MIN <= reserve_1 + amount_1
            <= i128::MAX) ==> r == Err::<(i128, i128), SharedError>(SharedError::Overflow),
{
    let new_reserve_0: i128 = match safe_add(reserve_0, amount_0) {
        Ok(v) => v,
        Err(e) => { return Err(e); },
    };
    let new_reserve_1: i128 = match safe_add(reserve_1, amount_1) {
        Ok(v) => v,
        Err(e) => { return Err(e); },
    };
    Ok((new_reserve_0, new_reserve_1))
}

/// Both reserves after a withdrawal of `amount_0` and `amount_1`; neither
/// may fall below zero.
pub fn update_reserves_sub(reserve_0: i128, reserve_1: i128, amount_0: i128, amount_1: i128) -> (r:
    Result<(i128, i128), SharedError>)
    ensures
        0 <= reserve_0 - amount_0 <= i128::MAX && 0 <= reserve_1 - amount_1 <= i128::MAX ==> r
            == Ok::<(i128, i128), SharedError>(
            ((reserve_0 - amount_0) as i128, (reserve_1 - amount_1) as i128),
        ),
        !(0 <= reserve_0 - amount_0 <= i128::MAX && 0 <= reserve_1 - amount_1 <= i128::MAX) ==> r
            == Err::<(i128, i128), SharedError>(SharedError::Underflow),
{
    let new_reserve_0: i128 = match safe_sub(reserve_0, amount_0) {
        Ok(v) => v,
        Err(e) => { return Err(e); },
    };
    let new_reserve_1: i128 = match safe_sub(reserve_1, amount_1) {
        Ok(v) => v,
        Err(e) => { return Err(e); },
    };
    Ok((new_reserve_0, new_reserve_1))
}

/// Both reserves after a swap, as `(reserve of token 0, reserve of token 1)`.
///
/// `amount_in` joins `reserve_in` and `amount_out` leaves `reserve_out`;
/// `is_token_0_in` tells which of the two is token 0. An input reserve that
/// leaves the range is `Overflow`; otherwise an output reserve that falls
/// below zero or leaves the range is `Underflow`.
pub fn update_reserves_swap(
    reserve_in: i128,
    reserve_out: i128,
    amount_in: i128,
    amount_out: i128,
    is_token_0_in: bool,
) -> (r: Result<(i128, i128), SharedError>)
    ensures
        !(i128::MIN <= reserve_in + amount_in <= i128::MAX) ==> r == Err::<
            (i128, i128),
            SharedError,
        >(SharedError::Overflow),
        i128::MIN <= reserve_in + amount_in <= i128::MAX && !(0 <= reserve_out - amount_out
            <= i128::MAX) ==> r == Err::<(i128, i128), SharedError>(SharedError::Underflow),
        i128::MIN <= reserve_in + amount_in <= i128::MAX && 0 <= reserve_out - amount_out
            <= i128::MAX && is_token_0_in ==> r == Ok::<(i128, i128), SharedError>(
            ((reserve_in + amount_in) as i128, (reserve_out - amount_out) as i128),
        ),
        i128::MIN <= reserve_in + amount_in <= i128::MAX && 0 <= reserve_out - amount_out
            <= i128::MAX && !is_token_0_in ==> r == Ok::<(i128, i128), SharedError>(
            ((reserve_out - amount_out) as i128, (reserve_in + amount_in) as i128),
        ),
{
    let new_reserve_in: i128 = match safe_add(reserve_in, amount_in) {
        Ok(v) => v,
        Err(e) => { return Err(e); },
    };
    let new_reserve_out: i128 = match safe_sub(reserve_out, amount_out) {
        Ok(v) => v,
        Err(e) => { return Err(e); },
    };
    if is_token_0_in {
        Ok((new_reserve_in, new_reserve_out))
    } else {
        Ok((new_reserve_out, new_reserve_in))
    }
}

/// Whether the constant product did not shrink: `new_0 * new_1 >= old_0 * old_1`.
///
/// A negative reserve in the new pair is `InvalidAmount`, a new product out
/// of range is `Overflow`; then the same for the old pair.
pub fn verify_k_invariant(
    new_reserve_0: i128,
    new_reserve_1: i128,
    old_reserve_0: i128,
    old_reserve_1: i128,
) -> (r: Result<bool, SharedError>)
    ensures
        new_reserve_0 < 0 || new_reserve_1 < 0 ==> r == Err::<bool, SharedError>(
            SharedError::InvalidAmount,
        ),
        new_reserve_0 >= 0 && new_reserve_1 >= 0 && new_reserve_0 * new_reserve_1 > i128::MAX
            ==> r == Err::<bool, SharedError>(SharedError::Overflow),
        new_reserve_0 >= 0 && new_reserve_1 >= 0 && new_reserve_0 * new_reserve_1 <= i128::MAX
            && (old_reserve_0 < 0 || old_reserve_1 < 0) ==> r == Err::<bool, SharedError>(
            SharedError::InvalidAmount,
        ),
        new_reserve_0 >= 0 && new_reserve_1 >= 0 && new_reserve_0 * new_reserve_1 <= i128::MAX
            && old_reserve_0 >= 0 && old_reserve_1 >= 0 && old_reserve_0 * old_reserve_1
            > i128::MAX ==> r == Err::<bool, SharedError>(SharedError::Overflow),
        new_reserve_0 >= 0 && new_reserve_1 >= 0 && new_reserve_0 * new_reserve_1 <= i128::MAX
            && old_reserve_0 >= 0 && old_reserve_1 >= 0 && old_reserve_0 * old_reserve_1
            <= i128::MAX ==> r == Ok::<bool, SharedError>(
            new_reserve_0 * new_reserve_1 >= old_reserve_0 * old_reserve_1,
        ),
{
    let k_new: i128 = match calculate_k(new_reserve_0, new_reserve_1) {
        Ok(v) => v,
        Err(e) => { return Err(e); },
    };
    let k_old: i128 = match calculate_k(old_reserve_0, old_reserve_1) {
        Ok(v) => v,
        Err(e) => { return Err(e); },
    };
    Ok(k_new >= k_old)
}


/// `bps` basis points of `amount`, rounded down: `amount * bps / 10000`.
///
/// A negative amount is `InvalidAmount`; a share that does not fit in an
/// `i128` is `Overflow`.
pub fn apply_bps(amount: i128, bps: u32) -> (r: Result<i128, SharedError>)
    ensures
        r == mul_div_down_result(amount as int, bps as int, BPS_DENOMINATOR as int),
        amount < 0 ==> r == Err::<i128, SharedError>(SharedError::InvalidAmount),
        amount >= 0 && (amount * bps) / 10_000 <= i128::MAX ==> r == Ok::<i128, SharedError>(
            ((amount * bps) / 10_000) as i128,
        ),
        amount >= 0 && (amount * bps) / 10_000 > i128::MAX ==> r == Err::<i128, SharedError>(
            SharedError::Overflow,
        ),
{
    mul_div_down(amount, bps as i128, BPS_DENOMINATOR)
}

/// `bps` basis points of `amount`, rounded up, so that a fee is never
/// under-collected: positive whenever `amount` and `bps` are.
///
/// A negative amount is `InvalidAmount`; a share that does not fit in an
/// `i128` is `Overflow`.
pub fn apply_bps_round_up(amount: i128, bps: u32) -> (r: Result<i128, SharedError>)
    ensures
        r == mul_div_up_result(amount as int, bps as int, BPS_DENOMINATOR as int),
        amount < 0 ==> r == Err::<i128, SharedError>(SharedError::InvalidAmount),
        amount >= 0 && ceil_mul_div(amount as int, bps as int, 10_000) <= i128::MAX ==> r == Ok::<
            i128,
            SharedError,
        >(ceil_mul_div(amount as int, bps as int, 10_000) as i128),
        amount >= 0 && ceil_mul_div(amount as int, bps as int, 10_000) > i128::MAX ==> r == Err::<
            i128,
            SharedError,
        >(SharedError::Overflow),
        amount > 0 && bps > 0 ==> (r matches Ok(fee) ==> fee > 0),
{
    proof {
        if amount > 0 && bps > 0 {
            lemma_ceil_positive(amount as int, bps as int, BPS_DENOMINATOR as int);
        }
    }
    mul_div_up(amount, bps as i128, BPS_DENOMINATOR)
}

/// The rounded-up quotient of a positive product is positive.
proof fn lemma_ceil_positive(a: int, b: int, c: int)
    requires
        a > 0,
        b > 0,
        c > 0,
    ensures
        ceil_mul_div(a, b, c) > 0,
{
    assert(a * b > 0) by (nonlinear_arith)
        requires
            a > 0,
            b > 0,
    ;
    let p = a * b;
    vstd::arithmetic::div_mod::lemma_fundamental_div_mod(p, c);
    vstd::arithmetic::div_mod::lemma_div_pos_is_pos(p, c);
    if p % c == 0 {
        assert(p / c != 0) by (nonlinear_arith)
            requires
                p == c * (p / c) + p % c,
                p % c == 0,
                p > 0,
        ;
    }
}

/// The share of `part` in `total`, in basis points: `part * 10000 / total`
/// rounded toward zero and reduced to its low 32 bits.
///
/// A zero total is `DivisionByZero`; a product or a quotient that leaves the
/// range of `i128` is `Overflow`.
pub fn calculate_bps(part: i128, total: i128) -> (r: Result<u32, SharedError>)
    ensures
        total == 0 ==> r == Err::<u32, SharedError>(SharedError::DivisionByZero),
        total != 0 && !(i128::MIN <= part * 10_000 <= i128::MAX) ==> r == Err::<u32, SharedError>(
            SharedError::Overflow,
        ),
        total != 0 && i128::MIN <= part * 10_000 <= i128::MAX && quotient_toward_zero(
            part * 10_000,
            total as int,
        ) > i128::MAX ==> r == Err::<u32, SharedError>(SharedError::Overflow),
        total != 0 && i128::MIN <= part * 10_000 <= i128::MAX && quotient_toward_zero(
            part * 10_000,
            total as int,
        ) <= i128::MAX ==> r == Ok::<u32, SharedError>(
            (quotient_toward_zero(part * 10_000, total as int) as i128) as u32,
        ),
{
    if total == 0 {
        return Err(SharedError::DivisionByZero);
    }
    let scaled: i128 = match safe_mul(part, BPS_DENOMINATOR) {
        Ok(v) => v,
        Err(e) => { return Err(e); },
    };
    let bps: i128 = match safe_div(scaled, total) {
        Ok(v) => v,
        Err(e) => { return Err(e); },
    };
    Ok(#[verifier::truncate] (bps as u32))
}

/// `amount` less `bps` basis points of it (the share rounded down).
///
/// Errors as `apply_bps`; a share larger than the amount is `Underflow`.
pub fn sub_bps(amount: i128, bps: u32) -> (r: Result<i128, SharedError>)
    ensures
        amount < 0 ==> r == Err::<i128, SharedError>(SharedError::InvalidAmount),
        amount >= 0 && (amount * bps) / 10_000 > i128::MAX ==> r == Err::<i128, SharedError>(
            SharedError::Overflow,
        ),
        amount >= 0 && amount < (amount * bps) / 10_000 <= i128::MAX ==> r == Err::<
            i128,
            SharedError,
        >(SharedError::Underflow),
        amount >= 0 && (amount * bps) / 10_000 <= amount ==> r == Ok::<i128, SharedError>(
            (amount - (amount * bps) / 10_000) as i128,
        ),
{
    let fee: i128 = match apply_bps(amount, bps) {
        Ok(v) => v,
        Err(e) => { return Err(e); },
    };
    proof {
        lemma_decompose(amount as int, bps as int, BPS_DENOMINATOR as int);
    }
    safe_sub(amount, fee)
}

/// The price of the base asset in the quote asset, scaled by `PRECISION`:
/// `reserve_quote * PRECISION / reserve_base` rounded toward zero.
///
/// A zero base reserve is `DivisionByZero`; a product or a quotient that
/// leaves the range of `i128` is `Overflow`.
pub fn calculate_price(reserve_base: i128, reserve_quote: i128) -> (r: Result<i128, SharedError>)
    ensures
        reserve_base == 0 ==> r == Err::<i128, SharedError>(SharedError::DivisionByZero),
        reserve_base != 0 && !(i128::MIN <= reserve_quote * PRECISION <= i128::MAX) ==> r == Err::<
            i128,
            SharedError,
        >(SharedError::Overflow),
        reserve_base != 0 && i128::MIN <= reserve_quote * PRECISION <= i128::MAX
            && quotient_toward_zero(reserve_quote * PRECISION, reserve_base as int) > i128::MAX
            ==> r == Err::<i128, SharedError>(SharedError::Overflow),
        reserve_base != 0 && i128::MIN <= reserve_quote * PRECISION <= i128::MAX
            && quotient_toward_zero(reserve_quote * PRECISION, reserve_base as int) <= i128::MAX
            ==> r == Ok::<i128, SharedError>(
            quotient_toward_zero(reserve_quote * PRECISION, reserve_base as int) as i128,
        ),
{
    if reserve_base == 0 {
        return Err(SharedError::DivisionByZero);
    }
    let scaled: i128 = match safe_mul(reserve_quote, PRECISION) {
        Ok(v) => v,
        Err(e) => { return Err(e); },
    };
    safe_div(scaled, reserve_base)
}

/// The rise of a price in basis points of the earlier price:
/// `(price_after - price_before) * 10000 / price_before` rounded toward zero,
/// and zero when the earlier price is zero.
///
/// A price that fell, or a difference out of range, is `Underflow`; a product
/// or a quotient that leaves the range of `i128` is `Overflow`.
pub fn calculate_slippage_bps(price_before: i128, price_after: i128) -> (r: Result<
    i128,
    SharedError,
>)
    ensures
        price_before == 0 ==> r == Ok::<i128, SharedError>(0i128),
        price_before != 0 && !(0 <= price_after - price_before <= i128::MAX) ==> r == Err::<
            i128,
            SharedError,
        >(SharedError::Underflow),
        price_before != 0 && 0 <= price_after - price_before <= i128::MAX && (price_after
            - price_before) * 10_000 > i128::MAX ==> r == Err::<i128, SharedError>(
            SharedError::Overflow,
        ),
        price_before != 0 && 0 <= price_after - price_before <= i128::MAX && (price_after
            - price_before) * 10_000 <= i128::MAX ==> r == Ok::<i128, SharedError>(
            quotient_toward_zero((price_after - price_before) * 10_000, price_before as int)
                as i128,
        ),
{
    if price_before == 0 {
        return Ok(0);
    }
    let diff: i128 = match safe_sub(price_after, price_before) {
        Ok(v) => v,
        Err(e) => { return Err(e); },
    };
    let scaled: i128 = match safe_mul(diff, BPS_DENOMINATOR) {
        Ok(v) => v,
        Err(e) => { return Err(e); },
    };
    proof {
        // A non-negative dividend keeps the quotient within the dividend.
        let q = quotient_toward_zero(scaled as int, price_before as int);
        if price_before > 0 {
            vstd::arithmetic::div_mod::lemma_div_nonincreasing(scaled as int, price_before as int);
            vstd::arithmetic::div_mod::lemma_div_pos_is_pos(scaled as int, price_before as int);
        } else {
            vstd::arithmetic::div_mod::lemma_div_pos_is_pos(scaled as int, -(price_before as int));
        }
        assert(q <= i128::MAX);
    }
    safe_div(scaled, price_before)
}


/// What a constant-product pool pays out for `amount_in`, after the fee:
/// `with_fee * reserve_out / (reserve_in * 10000 + with_fee)` rounded down,
/// where `with_fee = amount_in * (10000 - fee_bps)`.
///
/// A non-positive input is `InvalidAmount`, a non-positive reserve is
/// `InsufficientBalance`. An intermediate value out of range is `Overflow`;
/// the final quotient is formed as by `mul_div_down`, with its errors.
pub fn get_amount_out(amount_in: i128, reserve_in: i128, reserve_out: i128, fee_bps: u32) -> (r:
    Result<i128, SharedError>)
    ensures
        amount_in <= 0 ==> r == Err::<i128, SharedError>(SharedError::InvalidAmount),
        amount_in > 0 && (reserve_in <= 0 || reserve_out <= 0) ==> r == Err::<i128, SharedError>(
            SharedError::InsufficientBalance,
        ),
        amount_in > 0 && reserve_in > 0 && reserve_out > 0 ==> ({
            let with_fee = amount_in * (10_000 - fee_bps);
            let denominator = reserve_in * 10_000 + with_fee;
            if i128::MIN <= with_fee <= i128::MAX && reserve_in * 10_000 <= i128::MAX
                && denominator <= i128::MAX {
                r == mul_div_down_result(with_fee, reserve_out as int, denominator)
            } else {
                r == Err::<i128, SharedError>(SharedError::Overflow)
            }
        }),
{
    if amount_in <= 0 {
        return Err(SharedError::InvalidAmount);
    }
    if reserve_in <= 0 || reserve_out <= 0 {
        return Err(SharedError::InsufficientBalance);
    }
    let fee_factor: i128 = BPS_DENOMINATOR - (fee_bps as i128);
    let amount_in_with_fee: i128 = match safe_mul(amount_in, fee_factor) {
        Ok(v) => v,
        Err(e) => { return Err(e); },
    };
    let scaled_reserve: i128 = match safe_mul(reserve_in, BPS_DENOMINATOR) {
        Ok(v) => v,
        Err(e) => { return Err(e); },
    };
    let denominator: i128 = match safe_add(scaled_reserve, amount_in_with_fee) {
        Ok(v) => v,
        Err(e) => { return Err(e); },
    };
    mul_div_down(amount_in_with_fee, reserve_out, denominator)
}

/// What a constant-product pool asks for to pay out `amount_out`, with the
/// fee: `reserve_in * amount_out * 10000 / ((reserve_out - amount_out) *
/// (10000 - fee_bps))` rounded up, and one more as a margin.
///
/// A non-positive output is `InvalidAmount`; a non-positive reserve, or an
/// output that the reserve cannot cover, is `InsufficientBalance`. An
/// intermediate value out of range is `Overflow`; the quotient is formed as
/// by `mul_div_up`, with its errors, and a margin that does not fit is
/// `Overflow`.
pub fn get_amount_in(amount_out: i128, reserve_in: i128, reserve_out: i128, fee_bps: u32) -> (r:
    Result<i128, SharedError>)
    ensures
        amount_out <= 0 ==> r == Err::<i128, SharedError>(SharedError::InvalidAmount),
        amount_out > 0 && (reserve_in <= 0 || reserve_out <= 0 || amount_out >= reserve_out) ==> r
            == Err::<i128, SharedError>(SharedError::InsufficientBalance),
        amount_out > 0 && reserve_in > 0 && amount_out < reserve_out ==> ({
            let denominator = (reserve_out - amount_out) * (10_000 - fee_bps);
            let numerator_base = reserve_in * amount_out;
            if i128::MIN <= denominator <= i128::MAX && numerator_base <= i128::MAX {
                match mul_div_up_result(numerator_base, 10_000, denominator) {
                    Ok(v) => if v < i128::MAX {
                        r == Ok::<i128, SharedError>((v + 1) as i128)
                    } else {
                        r == Err::<i128, SharedError>(SharedError::Overflow)
                    },
                    Err(e) => r == Err::<i128, SharedError>(e),
                }
            } else {
                r == Err::<i128, SharedError>(SharedError::Overflow)
            }
        }),
{
    if amount_out <= 0 {
        return Err(SharedError::InvalidAmount);
    }
    if reserve_in <= 0 || reserve_out <= 0 {
        return Err(SharedError::InsufficientBalance);
    }
    if amount_out >= reserve_out {
        return Err(SharedError::InsufficientBalance);
    }
    let reserve_diff: i128 = match safe_sub(reserve_out, amount_out) {
        Ok(v) => v,
        Err(e) => { return Err(e); },
    };
    let fee_factor: i128 = BPS_DENOMINATOR - (fee_bps as i128);
    let denominator: i128 = match safe_mul(reserve_diff, fee_factor) {
        Ok(v) => v,
        Err(e) => { return Err(e); },
    };
    assert(reserve_in * amount_out > 0) by (nonlinear_arith)
        requires
            reserve_in > 0,
            amount_out > 0,
    ;
    let numerator_base: i128 = match safe_mul(reserve_in, amount_out) {
        Ok(v) => v,
        Err(e) => { return Err(e); },
    };
    let result: i128 = match mul_div_up(numerator_base, BPS_DENOMINATOR, denominator) {
        Ok(v) => v,
        Err(e) => { return Err(e); },
    };
    safe_add(result, 1)
}

/// The amount of asset B that matches `amount_a` at the pool's ratio:
/// `amount_a * reserve_b / reserve_a` rounded down.
///
/// A non-positive amount is `InvalidAmount`, a non-positive reserve is
/// `InsufficientBalance`; the quotient is formed as by `mul_div_down`.
pub fn quote(amount_a: i128, reserve_a: i128, reserve_b: i128) -> (r: Result<i128, SharedError>)
    ensures
        amount_a <= 0 ==> r == Err::<i128, SharedError>(SharedError::InvalidAmount),
        amount_a > 0 && (reserve_a <= 0 || reserve_b <= 0) ==> r == Err::<i128, SharedError>(
            SharedError::InsufficientBalance,
        ),
        amount_a > 0 && reserve_a > 0 && reserve_b > 0 ==> r == mul_div_down_result(
            amount_a as int,
            reserve_b as int,
            reserve_a as int,
        ),
{
    if amount_a <= 0 {
        return Err(SharedError::InvalidAmount);
    }
    if reserve_a <= 0 || reserve_b <= 0 {
        return Err(SharedError::InsufficientBalance);
    }
    mul_div_down(amount_a, reserve_b, reserve_a)
}

/// Whether `r` is the integer square root of `n`: the largest non-negative
/// integer whose square does not exceed `n`.
pub open spec fn is_floor_sqrt(n: int, r: int) -> bool {
    r >= 0 && r * r <= n < (r + 1) * (r + 1)
}

/// A Newton step from an upper estimate `x` of the square root of `v` stays
/// an upper estimate.
proof fn lemma_newton_step(v: int, x: int)
    requires
        v >= 1,
        x >= 1,
    ensures
        ({
            let y = (x + v / x) / 2;
            y >= 1 && (y + 1) * (y + 1) > v
        }),
        (x + v / x) / 2 >= x ==> x * x <= v,
        (x + 1) * (x + 1) > v ==> v / x <= x + 2,
        x <= v ==> x + v / x <= v + 1,
        v / x >= 0,
{
    let q = v / x;
    let y = (x + q) / 2;
    vstd::arithmetic::div_mod::lemma_fundamental_div_mod(v, x);
    vstd::arithmetic::div_mod::lemma_div_pos_is_pos(v, x);
    vstd::arithmetic::div_mod::lemma_div_nonincreasing(v, x);
    let r = v % x;
    assert(2 * (y + 1) >= x + q + 1);
    // (x + q + 1)^2 >= 4 x (q + 1) > 4 v
    assert((x + q + 1) * (x + q + 1) >= 4 * (x * (q + 1))) by (nonlinear_arith)
        requires
            x >= 1,
            q >= 0,
    ;
    assert(x * (q + 1) > v) by (nonlinear_arith)
        requires
            v == x * q + r,
            0 <= r < x,
    ;
    assert((y + 1) * (y + 1) > v) by (nonlinear_arith)
        requires
            2 * (y + 1) >= x + q + 1,
            x + q + 1 >= 2,
            (x + q + 1) * (x + q + 1) >= 4 * (x * (q + 1)),
            x * (q + 1) > v,
    ;
    assert(y >= 1) by {
        if y <= 0 {
            assert(x + q <= 1);
            assert(q == 0);
            assert(x == 1);
            assert(v == x * q + r);
            assert(x * q == 0) by (nonlinear_arith)
                requires
                    q == 0,
            ;
        }
    }
    if y >= x {
        assert(q >= x);
        assert(x * x <= v) by (nonlinear_arith)
            requires
                v == x * q + r,
                r >= 0,
                q >= x,
                x >= 1,
        ;
    }
    if x <= v {
        assert(x + q <= v + 1) by (nonlinear_arith)
            requires
                v == x * q + r,
                r >= 0,
                1 <= x <= v,
                q >= 0,
        ;
    }
    if (x + 1) * (x + 1) > v {
        assert(q <= x + 2) by (nonlinear_arith)
            requires
                v == x * q + r,
                r >= 0,
                x >= 1,
                (x + 1) * (x + 1) > v,
        ;
    }
}

/// The integer square root is unique.
pub proof fn lemma_floor_sqrt_unique(n: int, r1: int, r2: int)
    requires
        is_floor_sqrt(n, r1),
        is_floor_sqrt(n, r2),
    ensures
        r1 == r2,
{
    assert(r1 == r2) by (nonlinear_arith)
        requires
            r1 >= 0,
            r2 >= 0,
            r1 * r1 <= n < (r1 + 1) * (r1 + 1),
            r2 * r2 <= n < (r2 + 1) * (r2 + 1),
    ;
}

/// The integer square root of `value` by Newton's method: the largest `r`
/// with `r * r <= value`, and zero for every non-positive value.
pub fn sqrt(value: i128) -> (r: i128)
    ensures
        value <= 0 ==> r == 0,
        value >= 0 ==> is_floor_sqrt(value as int, r as int),
{
    if value <= 0 {
        return 0;
    }
    let mut x: i128 = value;
    // (value + 1) / 2, formed without leaving the range
    let mut y: i128 = value / 2 + value % 2;
    proof {
        vstd::arithmetic::div_mod::lemma_div_basics(value as int);
        assert(value as int / value as int == 1);
        assert((value + 1) * (value + 1) > value) by (nonlinear_arith)
            requires
                value >= 1,
        ;
        lemma_newton_step(value as int, value as int);
    }
    while y < x
        invariant
            value >= 1,
            1 <= x <= value,
            (x + 1) * (x + 1) > value,
            y == (x + (value as int) / (x as int)) / 2,
            y >= 1,
            2 * y <= value + 1,
            (y + 1) * (y + 1) > value,
            y >= x ==> x * x <= value,
        decreases x,
    {
        x = y;
        proof {
            lemma_newton_step(value as int, x as int);
            // 2 * x <= value + 1 bounds x; a large x makes the quotient small
            if x >= 0x1_0000_0000_0000_0000 {
                assert((value as int) / (x as int) <= 0x7fff_ffff_ffff_ffff) by (nonlinear_arith)
                    requires
                        x >= 0x1_0000_0000_0000_0000,
                        0 <= value <= 0x7fff_ffff_ffff_ffff_ffff_ffff_ffff_ffff,
                ;
            }
        }
        y = (x + value / x) / 2;
    }
    x
}

/// The smaller of two values.
pub fn min(a: i128, b: i128) -> (r: i128)
    ensures
        r == if a < b { a } else { b },
{
    if a < b {
        a
    } else {
        b
    }
}

/// The larger of two values.
pub fn max(a: i128, b: i128) -> (r: i128)
    ensures
        r == if a > b { a } else { b },
{
    if a > b {
        a
    } else {
        b
    }
}

} // verus!
