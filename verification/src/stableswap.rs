//! The stableswap invariant solve: a Newton-style iteration with a fixed
//! iteration bound computes the invariant `D` of two balances and the
//! post-swap balance `y`. The contracts mirror the iteration exactly:
//! spec-level step functions repeat the checked integer arithmetic, so
//! each solve is proved to return precisely the iterate the bounded
//! recursion converges to, or the precise error — overflow at the first
//! intermediate out of range, convergence failure on a degenerate
//! denominator or an exhausted bound.

use vstd::prelude::*;

use crate::errors::PoolError;
use crate::pool::FEE_DENOMINATOR;

verus! {

/// Iteration bound of the invariant solves.
pub const MAX_SOLVE_STEPS: u32 = 255;

/// Whether the concrete result matches the spec-level outcome.
pub open spec fn res_matches(r: Result<i128, PoolError>, o: Result<int, PoolError>) -> bool {
    match r {
        Ok(v) => o matches Ok(w) && v == w,
        Err(a) => o matches Err(b) && a == b,
    }
}

/// One Newton step of the `D` solve over balances doubled to `x0_2`,
/// `x1_2`: the next iterate `(ann*s + 2*d_p) * d / ((ann-1)*d + 3*d_p)`
/// with `d_p = d^3 / (4*x0*x1)` floored stepwise, or the error the
/// checked arithmetic reports.
pub open spec fn d_step(x0_2: int, x1_2: int, ann: int, s: int, d: int) -> Result<int, PoolError> {
    if d * d > i128::MAX {
        Err(PoolError::ArithmeticOverflow)
    } else {
        let dp1 = d * d / x0_2;
        if dp1 * d > i128::MAX {
            Err(PoolError::ArithmeticOverflow)
        } else {
            let dp = dp1 * d / x1_2;
            if ann * s > i128::MAX || dp * 2 > i128::MAX || ann * s + dp * 2 > i128::MAX || (ann * s
                + dp * 2) * d > i128::MAX || (ann - 1) * d > i128::MAX || dp * 3 > i128::MAX || (ann
                - 1) * d + dp * 3 > i128::MAX {
                Err(PoolError::ArithmeticOverflow)
            } else if (ann - 1) * d + dp * 3 <= 0 {
                Err(PoolError::ConvergenceFailure)
            } else {
                Ok((ann * s + dp * 2) * d / ((ann - 1) * d + dp * 3))
            }
        }
    }
}

/// The bounded `D` iteration from iterate `d` with `fuel` steps left:
/// converged once two successive iterates differ by at most one.
pub open spec fn d_solve(x0_2: int, x1_2: int, ann: int, s: int, d: int, fuel: nat) -> Result<
    int,
    PoolError,
>
    decreases fuel,
{
    if fuel == 0 {
        Err(PoolError::ConvergenceFailure)
    } else {
        match d_step(x0_2, x1_2, ann, s, d) {
            Err(e) => Err(e),
            Ok(d2) => if -1 <= d2 - d <= 1 {
                Ok(d2)
            } else {
                d_solve(x0_2, x1_2, ann, s, d2, (fuel - 1) as nat)
            },
        }
    }
}

/// The complete outcome of `get_d`: the setup overflow checks, then the
/// bounded iteration started at `x0 + x1`.
pub open spec fn d_outcome(x0: int, x1: int, amp: u128) -> Result<int, PoolError> {
    if x0 + x1 > i128::MAX {
        Err(PoolError::ArithmeticOverflow)
    } else if amp > (i128::MAX / 4) as u128 {
        Err(PoolError::ArithmeticOverflow)
    } else if x0 * 2 > i128::MAX {
        Err(PoolError::ArithmeticOverflow)
    } else if x1 * 2 > i128::MAX {
        Err(PoolError::ArithmeticOverflow)
    } else {
        d_solve(x0 * 2, x1 * 2, (amp as int) * 4, x0 + x1, x0 + x1, MAX_SOLVE_STEPS as nat)
    }
}

/// One Newton step of the `y` solve: the next iterate
/// `(y^2 + c) / (2*y + b - d)`, or the error the step reports.
pub open spec fn y_step(b: int, c: int, d: int, y: int) -> Result<int, PoolError> {
    if y * 2 > i128::MAX {
        Err(PoolError::ArithmeticOverflow)
    } else if y * 2 + b > i128::MAX {
        Err(PoolError::ArithmeticOverflow)
    } else if y * 2 + b - d <= 0 {
        Err(PoolError::ConvergenceFailure)
    } else if y * y > i128::MAX {
        Err(PoolError::ArithmeticOverflow)
    } else if y * y + c > i128::MAX {
        Err(PoolError::ArithmeticOverflow)
    } else {
        Ok((y * y + c) / (y * 2 + b - d))
    }
}

/// The bounded `y` iteration from iterate `y` with `fuel` steps left.
pub open spec fn y_solve(b: int, c: int, d: int, y: int, fuel: nat) -> Result<int, PoolError>
    decreases fuel,
{
    if fuel == 0 {
        Err(PoolError::ConvergenceFailure)
    } else {
        match y_step(b, c, d, y) {
            Err(e) => Err(e),
            Ok(y2) => if -1 <= y2 - y <= 1 {
                Ok(y2)
            } else {
                y_solve(b, c, d, y2, (fuel - 1) as nat)
            },
        }
    }
}

/// The complete outcome of `get_y`: the setup arithmetic for the
/// coefficients `b` and `c`, then the bounded iteration started at `d`.
pub open spec fn y_outcome(xn: int, d: int, amp: u128) -> Result<int, PoolError> {
    if amp > (i128::MAX / 4) as u128 {
        Err(PoolError::ArithmeticOverflow)
    } else if xn * 2 > i128::MAX {
        Err(PoolError::ArithmeticOverflow)
    } else if (amp as int) * 4 * 2 > i128::MAX {
        Err(PoolError::ArithmeticOverflow)
    } else if d * d > i128::MAX {
        Err(PoolError::ArithmeticOverflow)
    } else if (d * d / (xn * 2)) * d > i128::MAX {
        Err(PoolError::ArithmeticOverflow)
    } else if xn + d / ((amp as int) * 4) > i128::MAX {
        Err(PoolError::ArithmeticOverflow)
    } else {
        let c = (d * d / (xn * 2)) * d / ((amp as int) * 4 * 2);
        let b = xn + d / ((amp as int) * 4);
        y_solve(b, c, d, d, MAX_SOLVE_STEPS as nat)
    }
}

/// Solves the stableswap invariant `D` of two balances with
/// amplification `amp` by bounded Newton iteration; returns exactly what
/// `d_outcome` prescribes.
#[verifier::loop_isolation(false)]
pub fn get_d(x0: i128, x1: i128, amp: u128) -> (r: Result<i128, PoolError>)
    requires
        1 <= x0,
        1 <= x1,
        1 <= amp,
    ensures
        res_matches(r, d_outcome(x0 as int, x1 as int, amp)),
        r matches Ok(v) ==> 0 <= v,
{
    let s = match x0.checked_add(x1) {
        Some(v) => v,
        None => {
            return Err(PoolError::ArithmeticOverflow);
        },
    };
    if amp > (i128::MAX / 4) as u128 {
        return Err(PoolError::ArithmeticOverflow);
    }
    let ann: i128 = (amp as i128) * 4;
    let x0_2 = match x0.checked_mul(2) {
        Some(v) => v,
        None => {
            return Err(PoolError::ArithmeticOverflow);
        },
    };
    let x1_2 = match x1.checked_mul(2) {
        Some(v) => v,
        None => {
            return Err(PoolError::ArithmeticOverflow);
        },
    };
    let mut d = s;
    let mut it: u32 = 0;
    proof {
        assert(d_outcome(x0 as int, x1 as int, amp) == d_solve(
            x0_2 as int,
            x1_2 as int,
            ann as int,
            s as int,
            s as int,
            MAX_SOLVE_STEPS as nat,
        ));
    }
    while it < MAX_SOLVE_STEPS
        invariant
            0 <= d,
            it <= MAX_SOLVE_STEPS,
            d_outcome(x0 as int, x1 as int, amp) == d_solve(
                x0_2 as int,
                x1_2 as int,
                ann as int,
                s as int,
                d as int,
                (MAX_SOLVE_STEPS - it) as nat,
            ),
        decreases MAX_SOLVE_STEPS - it,
    {
        let ghost d0 = d as int;
        let ghost step = d_step(x0_2 as int, x1_2 as int, ann as int, s as int, d0);
        proof {
            assert(d0 * d0 >= 0) by (nonlinear_arith)
                requires
                    d0 >= 0,
            ;
        }
        let dp1 = match d.checked_mul(d) {
            Some(p) => p / x0_2,
            None => {
                return Err(PoolError::ArithmeticOverflow);
            },
        };
        proof {
            assert(dp1 >= 0) by (nonlinear_arith)
                requires
                    dp1 == (d0 * d0) as i128 / x0_2,
                    d0 * d0 <= i128::MAX,
                    d0 >= 0,
                    x0_2 > 0,
            ;
            assert(dp1 * d0 >= 0) by (nonlinear_arith)
                requires
                    dp1 >= 0,
                    d0 >= 0,
            ;
        }
        let dp = match dp1.checked_mul(d) {
            Some(p) => p / x1_2,
            None => {
                return Err(PoolError::ArithmeticOverflow);
            },
        };
        proof {
            assert(dp >= 0) by (nonlinear_arith)
                requires
                    dp == (dp1 * d0) as i128 / x1_2,
                    dp1 * d0 <= i128::MAX,
                    dp1 >= 0,
                    d0 >= 0,
                    x1_2 > 0,
            ;
            assert(ann * s >= 0 && dp * 2 >= 0) by (nonlinear_arith)
                requires
                    ann >= 1,
                    s >= 1,
                    dp >= 0,
            ;
        }
        let num1 = match ann.checked_mul(s) {
            Some(p) => p,
            None => {
                return Err(PoolError::ArithmeticOverflow);
            },
        };
        let num2 = match dp.checked_mul(2) {
            Some(p) => p,
            None => {
                return Err(PoolError::ArithmeticOverflow);
            },
        };
        let num3 = match num1.checked_add(num2) {
            Some(p) => p,
            None => {
                return Err(PoolError::ArithmeticOverflow);
            },
        };
        proof {
            assert(num3 * d0 >= 0) by (nonlinear_arith)
                requires
                    num3 >= 0,
                    d0 >= 0,
            ;
        }
        let num = match num3.checked_mul(d) {
            Some(p) => p,
            None => {
                return Err(PoolError::ArithmeticOverflow);
            },
        };
        proof {
            assert((ann - 1) * d0 >= 0 && dp * 3 >= 0) by (nonlinear_arith)
                requires
                    ann >= 1,
                    d0 >= 0,
                    dp >= 0,
            ;
        }
        let den1 = match (ann - 1).checked_mul(d) {
            Some(p) => p,
            None => {
                return Err(PoolError::ArithmeticOverflow);
            },
        };
        let den2 = match dp.checked_mul(3) {
            Some(p) => p,
            None => {
                return Err(PoolError::ArithmeticOverflow);
            },
        };
        let den = match den1.checked_add(den2) {
            Some(p) => p,
            None => {
                return Err(PoolError::ArithmeticOverflow);
            },
        };
        if den <= 0 {
            return Err(PoolError::ConvergenceFailure);
        }
        let d_prev = d;
        d = num / den;
        proof {
            assert(step == Ok::<int, PoolError>((num as int) / (den as int)));
            assert(d >= 0) by (nonlinear_arith)
                requires
                    d == num / den,
                    num >= 0,
                    den > 0,
            ;
        }
        if d >= d_prev {
            if d - d_prev <= 1 {
                return Ok(d);
            }
        } else {
            if d_prev - d <= 1 {
                return Ok(d);
            }
        }
        it += 1;
    }
    Err(PoolError::ConvergenceFailure)
}

/// Solves the post-swap balance `y` of the output token from the
/// invariant `d` and the new input-side balance `xn`; returns exactly
/// what `y_outcome` prescribes.
#[verifier::loop_isolation(false)]
pub fn get_y(xn: i128, d: i128, amp: u128) -> (r: Result<i128, PoolError>)
    requires
        1 <= xn,
        0 <= d,
        1 <= amp,
    ensures
        res_matches(r, y_outcome(xn as int, d as int, amp)),
        r matches Ok(v) ==> 0 <= v,
{
    if amp > (i128::MAX / 4) as u128 {
        return Err(PoolError::ArithmeticOverflow);
    }
    let ann: i128 = (amp as i128) * 4;
    let xn_2 = match xn.checked_mul(2) {
        Some(v) => v,
        None => {
            return Err(PoolError::ArithmeticOverflow);
        },
    };
    let ann_2 = match ann.checked_mul(2) {
        Some(v) => v,
        None => {
            return Err(PoolError::ArithmeticOverflow);
        },
    };
    proof {
        assert((d as int) * (d as int) >= 0) by (nonlinear_arith)
            requires
                d >= 0,
        ;
    }
    let c1 = match d.checked_mul(d) {
        Some(p) => p / xn_2,
        None => {
            return Err(PoolError::ArithmeticOverflow);
        },
    };
    proof {
        assert(c1 >= 0) by (nonlinear_arith)
            requires
                c1 == ((d as int) * (d as int)) as i128 / xn_2,
                (d as int) * (d as int) <= i128::MAX,
                d >= 0,
                xn_2 > 0,
        ;
        assert(c1 * d >= 0) by (nonlinear_arith)
            requires
                c1 >= 0,
                d >= 0,
        ;
    }
    let c = match c1.checked_mul(d) {
        Some(p) => p / ann_2,
        None => {
            return Err(PoolError::ArithmeticOverflow);
        },
    };
    proof {
        assert(c >= 0) by (nonlinear_arith)
            requires
                c == (c1 * d) as i128 / ann_2,
                c1 * d <= i128::MAX,
                c1 >= 0,
                d >= 0,
                ann_2 > 0,
        ;
        assert(d / ann >= 0) by (nonlinear_arith)
            requires
                d >= 0,
                ann > 0,
        ;
    }
    let b = match xn.checked_add(d / ann) {
        Some(v) => v,
        None => {
            return Err(PoolError::ArithmeticOverflow);
        },
    };
    let mut y = d;
    let mut it: u32 = 0;
    proof {
        assert(y_outcome(xn as int, d as int, amp) == y_solve(
            b as int,
            c as int,
            d as int,
            d as int,
            MAX_SOLVE_STEPS as nat,
        ));
    }
    while it < MAX_SOLVE_STEPS
        invariant
            0 <= y,
            it <= MAX_SOLVE_STEPS,
            y_outcome(xn as int, d as int, amp) == y_solve(
                b as int,
                c as int,
                d as int,
                y as int,
                (MAX_SOLVE_STEPS - it) as nat,
            ),
        decreases MAX_SOLVE_STEPS - it,
    {
        let ghost y0 = y as int;
        let ghost step = y_step(b as int, c as int, d as int, y0);
        let t1 = match y.checked_mul(2) {
            Some(v) => v,
            None => {
                return Err(PoolError::ArithmeticOverflow);
            },
        };
        let t2 = match t1.checked_add(b) {
            Some(v) => v,
            None => {
                return Err(PoolError::ArithmeticOverflow);
            },
        };
        let den = t2 - d;
        if den <= 0 {
            return Err(PoolError::ConvergenceFailure);
        }
        proof {
            assert(y0 * y0 >= 0) by (nonlinear_arith)
                requires
                    y0 >= 0,
            ;
        }
        let n1 = match y.checked_mul(y) {
            Some(v) => v,
            None => {
                return Err(PoolError::ArithmeticOverflow);
            },
        };
        let num = match n1.checked_add(c) {
            Some(v) => v,
            None => {
                return Err(PoolError::ArithmeticOverflow);
            },
        };
        let y_prev = y;
        y = num / den;
        proof {
            assert(step == Ok::<int, PoolError>((num as int) / (den as int)));
            assert(y >= 0) by (nonlinear_arith)
                requires
                    y == num / den,
                    num == n1 + c,
                    n1 == y0 * y0,
                    c >= 0,
                    den > 0,
            ;
        }
        if y >= y_prev {
            if y - y_prev <= 1 {
                return Ok(y);
            }
        } else {
            if y_prev - y <= 1 {
                return Ok(y);
            }
        }
        it += 1;
    }
    Err(PoolError::ConvergenceFailure)
}

/// Read-only stableswap quote for an exact input: the input is charged
/// the fee, the invariant is solved, and the quote is the reserve drop
/// to the solved output balance — `r_out - y`, zero when the solve asks
/// for an output balance at or above the reserve, and an
/// insufficient-liquidity error when it would drain the reserve.
pub fn estimate_stableswap_swap(
    r_in: i128,
    r_out: i128,
    amp: u128,
    in_amount: i128,
    fee_fraction: u32,
) -> (r: Result<i128, PoolError>)
    ensures
        in_amount <= 0 || amp < 1 || fee_fraction >= FEE_DENOMINATOR ==> r == Err::<
            i128,
            PoolError,
        >(PoolError::InvalidArgument),
        in_amount > 0 && amp >= 1 && fee_fraction < FEE_DENOMINATOR && (r_in < 1 || r_out < 1)
            ==> r == Err::<i128, PoolError>(PoolError::InsufficientLiquidity),
        in_amount > 0 && amp >= 1 && fee_fraction < FEE_DENOMINATOR && r_in >= 1 && r_out >= 1
            ==> ({
            let fee_mult = (FEE_DENOMINATOR - fee_fraction) as int;
            if in_amount * fee_mult > i128::MAX {
                r == Err::<i128, PoolError>(PoolError::ArithmeticOverflow)
            } else {
                let eff = in_amount * fee_mult / (FEE_DENOMINATOR as int);
                if r_in + eff > i128::MAX {
                    r == Err::<i128, PoolError>(PoolError::ArithmeticOverflow)
                } else {
                    match d_outcome(r_in as int, r_out as int, amp) {
                        Err(e) => r == Err::<i128, PoolError>(e),
                        Ok(dv) => match y_outcome(r_in + eff, dv, amp) {
                            Err(e) => r == Err::<i128, PoolError>(e),
                            Ok(yv) => if yv < 1 {
                                r == Err::<i128, PoolError>(PoolError::InsufficientLiquidity)
                            } else if yv >= r_out {
                                r == Ok::<i128, PoolError>(0)
                            } else {
                                r == Ok::<i128, PoolError>((r_out - yv) as i128)
                            },
                        },
                    }
                }
            }
        }),
        r matches Ok(v) ==> 0 <= v < r_out,
{
    if in_amount <= 0 || amp < 1 || fee_fraction >= FEE_DENOMINATOR {
        return Err(PoolError::InvalidArgument);
    }
    if r_in < 1 || r_out < 1 {
        return Err(PoolError::InsufficientLiquidity);
    }
    let fee_mult: i128 = (FEE_DENOMINATOR - fee_fraction) as i128;
    let eff = match in_amount.checked_mul(fee_mult) {
        Some(p) => p / (FEE_DENOMINATOR as i128),
        None => {
            return Err(PoolError::ArithmeticOverflow);
        },
    };
    proof {
        assert(eff >= 0) by (nonlinear_arith)
            requires
                eff == (in_amount * fee_mult) as i128 / (FEE_DENOMINATOR as i128),
                in_amount * fee_mult <= i128::MAX,
                in_amount > 0,
                fee_mult > 0,
        ;
    }
    let x_new = match r_in.checked_add(eff) {
        Some(v) => v,
        None => {
            return Err(PoolError::ArithmeticOverflow);
        },
    };
    let d = match get_d(r_in, r_out, amp) {
        Ok(v) => v,
        Err(e) => {
            return Err(e);
        },
    };
    let y = match get_y(x_new, d, amp) {
        Ok(v) => v,
        Err(e) => {
            return Err(e);
        },
    };
    if y < 1 {
        return Err(PoolError::InsufficientLiquidity);
    }
    if y >= r_out {
        return Ok(0);
    }
    Ok(r_out - y)
}

} // verus!
