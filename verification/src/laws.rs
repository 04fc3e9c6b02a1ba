//! The library's general laws, each proved once and for all inputs the
//! law's premises admit: value per share never drops through the pool
//! operations, a deposit/withdraw round trip never pays out more than
//! went in, swap output never grows with the fee, and reward accrual is
//! linear in time and proportional to shares.

use vstd::prelude::*;
use vstd::arithmetic::div_mod::{
    lemma_div_by_multiple, lemma_div_is_ordered, lemma_fundamental_div_mod,
    lemma_multiply_divide_lt,
};
use vstd::seq_lib::lemma_sorted_unique;

use crate::pool::{
    canonical_order, cp_out_amount, is_first_min_ratio, ratio_le, withdraw_amount, FEE_DENOMINATOR,
};
use crate::pool_utils::standard_pool_address;
use crate::rewards;
use crate::rewards::{
    acc_after, accrual_upto, claim_amount, RewardState, REWARD_SCALE,
};

verus! {

proof fn lemma_div_frac_le(a: int, b: int, c: int, d: int)
    requires
        0 <= a,
        0 < b,
        0 <= c,
        0 < d,
        a * d <= c * b,
    ensures
        a / b <= c / d,
{
    let q = c / d;
    lemma_fundamental_div_mod(c, d);
    assert(c <= d * q + d - 1);
    assert(a * d < d * ((q + 1) * b)) by (nonlinear_arith)
        requires
            a * d <= c * b,
            c <= d * q + d - 1,
            b > 0,
            d > 0,
    ;
    assert(a < b * (q + 1)) by (nonlinear_arith)
        requires
            a * d < d * ((q + 1) * b),
            d > 0,
    ;
    lemma_multiply_divide_lt(a, b, q + 1);
}

/// Swap-fee monotonicity: with reserves and input fixed, the quoted
/// output never increases when the fee fraction increases.
pub proof fn lemma_estimate_fee_monotone(r_in: int, r_out: int, in_amount: int, f1: int, f2: int)
    requires
        1 <= r_in,
        1 <= r_out,
        1 <= in_amount,
        0 <= f1 <= f2 < FEE_DENOMINATOR,
    ensures
        cp_out_amount(r_in, r_out, in_amount, f2) <= cp_out_amount(r_in, r_out, in_amount, f1),
{
    let dd = FEE_DENOMINATOR as int;
    let e1 = in_amount * (dd - f1);
    let e2 = in_amount * (dd - f2);
    assert(0 < e2 <= e1) by (nonlinear_arith)
        requires
            1 <= in_amount,
            0 <= f1 <= f2 < dd,
            e1 == in_amount * (dd - f1),
            e2 == in_amount * (dd - f2),
    ;
    let num1 = e1 * r_out;
    let num2 = e2 * r_out;
    let den1 = r_in * dd + e1;
    let den2 = r_in * dd + e2;
    assert(num2 * den1 <= num1 * den2) by (nonlinear_arith)
        requires
            0 < e2 <= e1,
            1 <= r_out,
            1 <= r_in,
            dd > 0,
            num1 == e1 * r_out,
            num2 == e2 * r_out,
            den1 == r_in * dd + e1,
            den2 == r_in * dd + e2,
    ;
    assert(num2 >= 0 && den2 > 0 && num1 >= 0 && den1 > 0) by (nonlinear_arith)
        requires
            0 < e2 <= e1,
            1 <= r_out,
            1 <= r_in,
            dd > 0,
            num1 == e1 * r_out,
            num2 == e2 * r_out,
            den1 == r_in * dd + e1,
            den2 == r_in * dd + e2,
    ;
    lemma_div_frac_le(num2, den2, num1, den1);
}

/// A swap never shrinks the constant product: after charging the fee and
/// rounding the output down, `(r_in + in) * (r_out - out) >= r_in * r_out`.
pub proof fn lemma_swap_preserves_product(r_in: int, r_out: int, in_amount: int, fee: int)
    requires
        1 <= r_in,
        1 <= r_out,
        1 <= in_amount,
        0 <= fee < FEE_DENOMINATOR,
    ensures
        (r_in + in_amount) * (r_out - cp_out_amount(r_in, r_out, in_amount, fee)) >= r_in * r_out,
{
    let dd = FEE_DENOMINATOR as int;
    let eff = in_amount * (dd - fee);
    let num = eff * r_out;
    let den = r_in * dd + eff;
    let out = num / den;
    assert(0 < eff && 0 < den && 0 <= num && eff < den) by (nonlinear_arith)
        requires
            1 <= in_amount,
            0 <= fee < dd,
            1 <= r_in,
            1 <= r_out,
            eff == in_amount * (dd - fee),
            num == eff * r_out,
            den == r_in * dd + eff,
    ;
    lemma_fundamental_div_mod(num, den);
    assert(out * den <= num);
    assert(num < den * r_out) by (nonlinear_arith)
        requires
            num == eff * r_out,
            0 <= eff,
            eff < den,
            1 <= r_out,
    ;
    lemma_multiply_divide_lt(num, den, r_out);
    assert(out < r_out);
    assert(out >= 0) by (nonlinear_arith)
        requires
            num >= 0,
            den > 0,
            out == num / den,
    ;
    // out * (r_in + in) * dd <= in * r_out * dd, hence the product claim
    assert((r_in + in_amount) * out * dd <= in_amount * r_out * dd) by (nonlinear_arith)
        requires
            out * den <= num,
            num == eff * r_out,
            den == r_in * dd + eff,
            eff == in_amount * (dd - fee),
            0 <= out < r_out,
            0 <= fee < dd,
            1 <= in_amount,
            1 <= r_in,
            1 <= r_out,
    ;
    assert((r_in + in_amount) * out <= in_amount * r_out) by (nonlinear_arith)
        requires
            (r_in + in_amount) * out * dd <= in_amount * r_out * dd,
            dd > 0,
    ;
    assert((r_in + in_amount) * (r_out - out) >= r_in * r_out) by (nonlinear_arith)
        requires
            (r_in + in_amount) * out <= in_amount * r_out,
    ;
}

/// A withdrawal never raises what a remaining share is worth in any
/// token: the rounding loss stays with the pool.
pub proof fn lemma_withdraw_preserves_share_value(s: int, t: int, r_i: int)
    requires
        0 < s <= t,
        0 <= r_i,
    ensures
        (r_i - withdraw_amount(s, r_i, t)) * t >= r_i * (t - s),
{
    let w = s * r_i / t;
    assert(s * r_i >= 0) by (nonlinear_arith)
        requires
            s > 0,
            r_i >= 0,
    ;
    lemma_fundamental_div_mod(s * r_i, t);
    assert(w * t <= s * r_i);
    assert((r_i - w) * t >= r_i * (t - s)) by (nonlinear_arith)
        requires
            w * t <= s * r_i,
    ;
}

/// A deposit at the exact pool ratio keeps what a share is worth in
/// every token unchanged.
pub proof fn lemma_deposit_preserves_share_value(dj: int, rj: int, ri: int, t: int)
    requires
        0 <= dj,
        0 < rj,
        0 <= ri,
        0 < t,
        (dj * ri) % rj == 0,
        (dj * t) % rj == 0,
    ensures
        (ri + dj * ri / rj) * t == ri * (t + dj * t / rj),
{
    let a = dj * ri / rj;
    let s = dj * t / rj;
    lemma_fundamental_div_mod(dj * ri, rj);
    lemma_fundamental_div_mod(dj * t, rj);
    assert(a * rj == dj * ri);
    assert(s * rj == dj * t);
    assert((ri + a) * t * rj == ri * (t + s) * rj) by (nonlinear_arith)
        requires
            a * rj == dj * ri,
            s * rj == dj * t,
    ;
    assert((ri + a) * t == ri * (t + s)) by (nonlinear_arith)
        requires
            (ri + a) * t * rj == ri * (t + s) * rj,
            rj > 0,
    ;
}

/// Deposit/withdraw round trip: withdrawing the freshly minted shares
/// immediately pays back, per token, at most what the deposit took, and
/// never more than was offered.
pub proof fn lemma_deposit_withdraw_round_trip(d: Seq<i128>, r0: Seq<i128>, t: int, j: int, i: int)
    requires
        0 < t,
        is_first_min_ratio(d, r0, j),
        0 <= i < d.len(),
        r0.len() == d.len(),
        forall|q: int| 0 <= q < d.len() ==> 0 <= #[trigger] d[q],
        forall|q: int| 0 <= q < r0.len() ==> 0 < #[trigger] r0[q],
    ensures
        ({
            let sh = d[j] * t / (r0[j] as int);
            let a_i = d[j] * (r0[i] as int) / (r0[j] as int);
            &&& withdraw_amount(sh, r0[i] + a_i, t + sh) <= a_i
            &&& a_i <= d[i]
        }),
{
    let dj = d[j] as int;
    let rj = r0[j] as int;
    let ri = r0[i] as int;
    let sh = dj * t / rj;
    let a_i = dj * ri / rj;
    // a_i <= d[i] from the minimality of ratio j
    assert(ratio_le(d, r0, j, i));
    assert(dj * ri >= 0 && dj * t >= 0) by (nonlinear_arith)
        requires
            dj >= 0,
            ri > 0,
            t > 0,
    ;
    lemma_div_is_ordered(dj * ri, d[i] * rj, rj);
    lemma_div_by_multiple(d[i] as int, rj);
    assert(a_i <= d[i]);
    // floor bounds
    lemma_fundamental_div_mod(dj * t, rj);
    lemma_fundamental_div_mod(dj * ri, rj);
    assert(sh * rj <= dj * t);
    assert(a_i * rj > dj * ri - rj);
    assert(sh >= 0 && a_i >= 0) by (nonlinear_arith)
        requires
            sh == dj * t / rj,
            a_i == dj * ri / rj,
            dj * t >= 0,
            dj * ri >= 0,
            rj > 0,
    ;
    // sh * ri < a_i * t + t
    assert(sh * ri * rj <= (dj * ri) * t) by (nonlinear_arith)
        requires
            sh * rj <= dj * t,
            ri > 0,
    ;
    assert((dj * ri) * t < (a_i * rj + rj) * t) by (nonlinear_arith)
        requires
            a_i * rj > dj * ri - rj,
            t > 0,
    ;
    assert(sh * ri < a_i * t + t) by (nonlinear_arith)
        requires
            sh * ri * rj <= (dj * ri) * t,
            (dj * ri) * t < (a_i * rj + rj) * t,
            rj > 0,
    ;
    assert(sh * (ri + a_i) < (a_i + 1) * (t + sh)) by (nonlinear_arith)
        requires
            sh * ri < a_i * t + t,
            sh >= 0,
            a_i >= 0,
            t > 0,
    ;
    assert(sh * (ri + a_i) >= 0) by (nonlinear_arith)
        requires
            sh >= 0,
            ri > 0,
            a_i >= 0,
    ;
    lemma_multiply_divide_lt(sh * (ri + a_i), t + sh, a_i + 1);
}

/// Round-trip equality: when the offer divides evenly at the pool ratio,
/// the immediate withdrawal pays back exactly the amounts taken.
pub proof fn lemma_deposit_withdraw_round_trip_exact(
    dj: int,
    rj: int,
    ri: int,
    t: int,
)
    requires
        0 <= dj,
        0 < rj,
        0 < ri,
        0 < t,
        (dj * ri) % rj == 0,
        (dj * t) % rj == 0,
    ensures
        withdraw_amount(dj * t / rj, ri + dj * ri / rj, t + dj * t / rj) == dj * ri / rj,
{
    let a = dj * ri / rj;
    let s = dj * t / rj;
    lemma_fundamental_div_mod(dj * ri, rj);
    lemma_fundamental_div_mod(dj * t, rj);
    assert(a * rj == dj * ri);
    assert(s * rj == dj * t);
    assert(a >= 0 && s >= 0) by (nonlinear_arith)
        requires
            a * rj == dj * ri,
            s * rj == dj * t,
            dj >= 0,
            ri > 0,
            t > 0,
            rj > 0,
    ;
    assert(s * ri == a * t) by (nonlinear_arith)
        requires
            a * rj == dj * ri,
            s * rj == dj * t,
            rj > 0,
    ;
    assert(s * (ri + a) == a * (t + s)) by (nonlinear_arith)
        requires
            s * ri == a * t,
    ;
    lemma_div_by_multiple(a, t + s);
    assert((a * (t + s)) / (t + s) == a);
}

/// Reward linearity: a sole holder of all `s` shares, checkpointed with
/// nothing owed, claims at any `t` within the schedule exactly the
/// schedule's emission over the elapsed time, `elapsed * rate` brought
/// back down from the scaled representation, whenever `s` divides the
/// scaled emission evenly.
pub proof fn lemma_reward_linearity(rw: RewardState, a: u64, s: i128, t: u64)
    requires
        rw.wf(),
        s > 0,
        rw.last_update_time <= t <= rw.expires_at,
        rw.users.spec_get(a) == Some((rw.accumulator, 0i128)),
        ((t - rw.last_update_time) * rw.rate) % (s as int) == 0,
        rewards::refresh_fits(rw, s, t),
    ensures
        claim_amount(rw, a, s, s, t) == (t - rw.last_update_time) * rw.rate / (REWARD_SCALE as int),
{
    let dur = t - rw.last_update_time;
    let x = dur * rw.rate;
    let q = x / (s as int);
    assert(accrual_upto(rw, t) == t);
    lemma_fundamental_div_mod(x, s as int);
    assert(q * s == x);
    assert(x >= 0 && q >= 0) by (nonlinear_arith)
        requires
            x == dur * rw.rate,
            dur >= 0,
            rw.rate >= 0,
            q * s == x,
            s > 0,
    ;
    assert(acc_after(rw, s, t) == rw.accumulator + q);
    assert(rewards::user_owed(rw, a) == 0);
    assert(rewards::user_cp_at(rw, a, acc_after(rw, s, t)) == rw.accumulator);
    assert(s * q == x) by (nonlinear_arith)
        requires
            q * s == x,
    ;
    assert(claim_amount(rw, a, s, s, t) == x / (REWARD_SCALE as int));
}

/// A second claim at the same instant pays nothing: once the checkpoint
/// equals the accumulator and nothing is owed, the claim amount is zero
/// whenever no further time has accrued.
pub proof fn lemma_claim_twice_zero(rw: RewardState, a: u64, s: i128, ts: i128, t: u64)
    requires
        rw.wf(),
        s >= 0,
        rw.users.spec_get(a) == Some((rw.accumulator, 0i128)),
        accrual_upto(rw, t) == rw.last_update_time,
    ensures
        claim_amount(rw, a, s, ts, t) == 0,
{
    if ts > 0 {
        assert((accrual_upto(rw, t) - rw.last_update_time) * rw.rate * REWARD_SCALE == 0)
            by (nonlinear_arith)
            requires
                accrual_upto(rw, t) == rw.last_update_time,
        ;
        assert((0int) / (ts as int) == 0) by (nonlinear_arith)
            requires
                ts > 0,
        ;
    }
    assert(acc_after(rw, ts, t) == rw.accumulator);
    assert(s * (rw.accumulator - rw.accumulator) == 0) by (nonlinear_arith);
    assert((0int) / (REWARD_SCALE as int) == 0) by (nonlinear_arith)
        requires
            REWARD_SCALE > 0,
    ;
}

/// Reward proportionality: two holders checkpointed together with
/// nothing owed split a schedule's emission exactly in proportion to
/// their shares, whenever the divisions come out even.
pub proof fn lemma_reward_proportionality(
    rw: RewardState,
    a1: u64,
    a2: u64,
    s1: i128,
    s2: i128,
    t: u64,
)
    requires
        rw.wf(),
        a1 != a2,
        s1 > 0,
        s2 > 0,
        s1 + s2 <= i128::MAX,
        rw.users.spec_get(a1) == Some((rw.accumulator, 0i128)),
        rw.users.spec_get(a2) == Some((rw.accumulator, 0i128)),
        rw.last_update_time <= t <= rw.expires_at,
        ((t - rw.last_update_time) * rw.rate) % ((s1 + s2) as int) == 0,
        (s1 * (((t - rw.last_update_time) * rw.rate) / (s1 + s2))) % (REWARD_SCALE as int) == 0,
        (s2 * (((t - rw.last_update_time) * rw.rate) / (s1 + s2))) % (REWARD_SCALE as int) == 0,
        rewards::refresh_fits(rw, (s1 + s2) as i128, t),
    ensures
        ({
            let x = (t - rw.last_update_time) * rw.rate;
            let q = x / (s1 + s2);
            let c1 = claim_amount(rw, a1, s1, (s1 + s2) as i128, t);
            let c2 = claim_amount(rw, a2, s2, (s1 + s2) as i128, t);
            &&& c1 == s1 * q / (REWARD_SCALE as int)
            &&& c2 == s2 * q / (REWARD_SCALE as int)
            &&& c1 * s2 == c2 * s1
            &&& c1 + c2 == x / (REWARD_SCALE as int)
        }),
{
    let ts: i128 = (s1 + s2) as i128;
    let dur = t - rw.last_update_time;
    let x = dur * rw.rate;
    let q = x / (ts as int);
    let sc = REWARD_SCALE as int;
    assert(accrual_upto(rw, t) == t);
    lemma_fundamental_div_mod(x, ts as int);
    assert(q * ts == x);
    assert(x >= 0 && q >= 0) by (nonlinear_arith)
        requires
            x == dur * rw.rate,
            dur >= 0,
            rw.rate >= 0,
            q * ts == x,
            ts > 0,
    ;
    assert(acc_after(rw, ts, t) == rw.accumulator + q);
    assert(rewards::user_owed(rw, a1) == 0 && rewards::user_owed(rw, a2) == 0);
    let c1 = (s1 as int) * q / sc;
    let c2 = (s2 as int) * q / sc;
    assert(claim_amount(rw, a1, s1, ts, t) == c1);
    assert(claim_amount(rw, a2, s2, ts, t) == c2);
    lemma_fundamental_div_mod(s1 * q, sc);
    lemma_fundamental_div_mod(s2 * q, sc);
    assert(c1 * sc == s1 * q && c2 * sc == s2 * q);
    assert(c1 * s2 == c2 * s1) by (nonlinear_arith)
        requires
            c1 * sc == s1 * q,
            c2 * sc == s2 * q,
            sc > 0,
    ;
    assert((c1 + c2) * sc == x) by (nonlinear_arith)
        requires
            c1 * sc == s1 * q,
            c2 * sc == s2 * q,
            q * ts == x,
            ts == s1 + s2,
    ;
    assert(c1 + c2 >= 0) by (nonlinear_arith)
        requires
            s1 > 0,
            s2 > 0,
            q >= 0,
            c1 * sc == s1 * q,
            c2 * sc == s2 * q,
            sc > 0,
    ;
    lemma_div_by_multiple(c1 + c2, sc);
    assert(((c1 + c2) * sc) / sc == c1 + c2);
}

/// Deterministic addressing: two token lists with the same members give
/// a standard pool of one fee tier the same deployment address, whatever
/// order the callers supplied; deploying it twice therefore fails.
pub proof fn lemma_standard_address_deterministic(t1: Seq<u64>, t2: Seq<u64>, fee: u32)
    requires
        t1.to_multiset() == t2.to_multiset(),
    ensures
        standard_pool_address(t1, fee) == standard_pool_address(t2, fee),
{
    let leq = |a: u64, b: u64| a <= b;
    t1.lemma_sort_by_ensures(leq);
    t2.lemma_sort_by_ensures(leq);
    lemma_sorted_unique(t1.sort_by(leq), t2.sort_by(leq), leq);
    assert(canonical_order(t1) == canonical_order(t2));
}

} // verus!
